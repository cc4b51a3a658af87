use vstd::prelude::*;
use crate::ast::ExprV;
use crate::eval::{EvalDiagV, SigV, StateV, ValueV, fmin, join_sp, spec_eval, spec_run};
use crate::num::{add_bits, div_bits, mul_bits, num_display, sub_bits, truthy_bits};
use crate::token::TokenV;

verus! {

// ---------------------------------------------------------------------------
// The laws of the evaluator, stated once and for all over `spec_eval`.
// ---------------------------------------------------------------------------

/// On two number literals, each of the four arithmetic operators yields
/// exactly the double-precision result of that operator on the operands,
/// touching neither the environment, the output, the diagnostics, nor the
/// loop budget.
pub proof fn law_numeric_arithmetic(a: u64, b: u64, st: StateV, fuel: nat)
    ensures
        spec_eval(
            ExprV::Binary {
                left: Box::new(ExprV::Number(a)),
                op: TokenV::Plus,
                right: Box::new(ExprV::Number(b)),
            },
            st,
            fuel,
        ) == (SigV::Val(Some(ValueV::Num(add_bits(a, b)))), st, fuel),
        spec_eval(
            ExprV::Binary {
                left: Box::new(ExprV::Number(a)),
                op: TokenV::Minus,
                right: Box::new(ExprV::Number(b)),
            },
            st,
            fuel,
        ) == (SigV::Val(Some(ValueV::Num(sub_bits(a, b)))), st, fuel),
        spec_eval(
            ExprV::Binary {
                left: Box::new(ExprV::Number(a)),
                op: TokenV::Star,
                right: Box::new(ExprV::Number(b)),
            },
            st,
            fuel,
        ) == (SigV::Val(Some(ValueV::Num(mul_bits(a, b)))), st, fuel),
        spec_eval(
            ExprV::Binary {
                left: Box::new(ExprV::Number(a)),
                op: TokenV::Slash,
                right: Box::new(ExprV::Number(b)),
            },
            st,
            fuel,
        ) == (SigV::Val(Some(ValueV::Num(div_bits(a, b)))), st, fuel),
{
    reveal_with_fuel(spec_eval, 3);
}

/// On two string literals, `+` concatenates their texts and changes
/// nothing else.
pub proof fn law_string_concat(a: Seq<char>, b: Seq<char>, st: StateV, fuel: nat)
    ensures
        spec_eval(
            ExprV::Binary {
                left: Box::new(ExprV::StringLiteral(a)),
                op: TokenV::Plus,
                right: Box::new(ExprV::StringLiteral(b)),
            },
            st,
            fuel,
        ) == (SigV::Val(Some(ValueV::Str(a + b))), st, fuel),
{
    reveal_with_fuel(spec_eval, 3);
}

/// A binary operation on a number and a string, in either order and under
/// any operator, yields no value and records exactly one type-mismatch
/// diagnostic; it never fails harder than that.
pub proof fn law_mixed_types_nil(a: u64, s: Seq<char>, op: TokenV, st: StateV, fuel: nat)
    ensures
        spec_eval(
            ExprV::Binary {
                left: Box::new(ExprV::Number(a)),
                op,
                right: Box::new(ExprV::StringLiteral(s)),
            },
            st,
            fuel,
        ) == (
            SigV::Val(None),
            StateV { diags: st.diags.push(EvalDiagV::TypeMismatch), ..st },
            fuel,
        ),
        spec_eval(
            ExprV::Binary {
                left: Box::new(ExprV::StringLiteral(s)),
                op,
                right: Box::new(ExprV::Number(a)),
            },
            st,
            fuel,
        ) == (
            SigV::Val(None),
            StateV { diags: st.diags.push(EvalDiagV::TypeMismatch), ..st },
            fuel,
        ),
{
    reveal_with_fuel(spec_eval, 3);
}

/// Assignment is an expression: when its right side comes to a value, the
/// assignment yields that same value and binds the name to it, so the
/// value persists in the environment afterwards.
pub proof fn law_assignment_persists(
    name: Seq<char>,
    e: ExprV,
    st: StateV,
    fuel: nat,
    v: ValueV,
    st1: StateV,
    f1: nat,
)
    requires
        spec_eval(e, st, fuel) == (SigV::Val(Some(v)), st1, f1),
    ensures
        spec_eval(ExprV::Assignment { name, expr: Box::new(e) }, st, fuel) == (
            SigV::Val(Some(v)),
            StateV { env: st1.env.insert(name, v), ..st1 },
            f1,
        ),
        spec_eval(ExprV::Assignment { name, expr: Box::new(e) }, st, fuel).1.env[name] == v,
{
    reveal_with_fuel(spec_eval, 2);
}

/// Reading a variable never fails and never complains: an unbound name
/// yields no value with no diagnostic, a bound name yields its value; the
/// state is untouched either way.
pub proof fn law_variable_lookup(name: Seq<char>, st: StateV, fuel: nat)
    ensures
        !st.env.dom().contains(name) ==> spec_eval(ExprV::Variable(name), st, fuel) == (
            SigV::Val(None),
            st,
            fuel,
        ),
        st.env.dom().contains(name) ==> spec_eval(ExprV::Variable(name), st, fuel) == (
            SigV::Val(Some(st.env[name])),
            st,
            fuel,
        ),
{
    reveal_with_fuel(spec_eval, 2);
}

/// Printing two literals writes exactly one line: the display texts of the
/// two values joined by a single space; the call itself yields nil.
#[verifier::rlimit(100)]
pub proof fn law_print_joins(a: u64, s: Seq<char>, st: StateV, fuel: nat)
    ensures
        spec_eval(
            ExprV::FunctionCall {
                name: "print"@,
                args: seq![ExprV::Number(a), ExprV::StringLiteral(s)],
            },
            st,
            fuel,
        ) == (
            SigV::Val(Some(ValueV::Nil)),
            StateV { out: st.out.push(num_display(a) + seq![' '] + s), ..st },
            fuel,
        ),
{
    reveal_with_fuel(spec_eval, 3);
    reveal_with_fuel(crate::eval::spec_eval_args, 4);
    reveal_with_fuel(join_sp, 3);
    let args = seq![ExprV::Number(a), ExprV::StringLiteral(s)];
    assert(args.subrange(1, 2) =~= seq![ExprV::StringLiteral(s)]);
    assert(args.subrange(1, 2).subrange(1, 1) =~= Seq::<ExprV>::empty());
    let pieces = seq![num_display(a), s];
    assert(seq![num_display(a)] + (seq![s] + Seq::<Seq<char>>::empty()) =~= pieces);
    assert(pieces.subrange(1, 2) =~= seq![s]);
    assert(join_sp(pieces) == num_display(a) + seq![' '] + s);
    assert(spec_eval(ExprV::Number(a), st, fuel) == (
        SigV::Val(Some(ValueV::Num(a))),
        st,
        fuel,
    ));
    assert(spec_eval(ExprV::StringLiteral(s), st, fuel) == (
        SigV::Val(Some(ValueV::Str(s))),
        st,
        fuel,
    ));
    assert(crate::eval::spec_eval_args(args.subrange(1, 2), st, fuel) == (
        seq![s] + Seq::<Seq<char>>::empty(),
        st,
        fuel,
    ));
    assert(crate::eval::spec_eval_args(args, st, fuel).0 =~= pieces);
    assert(crate::eval::spec_eval_args(args, st, fuel) == (pieces, st, fuel));
    let r = spec_eval(
        ExprV::FunctionCall { name: "print"@, args },
        st,
        fuel,
    );
    assert(r.1 =~= (StateV { out: st.out.push(num_display(a) + seq![' '] + s), ..st }));
}

/// A `while` loop whose condition comes to a false number, or to anything
/// that is not a number, ends at once with nil, leaving the state the
/// condition left behind.
pub proof fn law_while_stops_on_falsy(
    c: ExprV,
    b: ExprV,
    st: StateV,
    fuel: nat,
    csig: SigV,
    st1: StateV,
    f1: nat,
)
    requires
        fuel > 0,
        spec_eval(c, st, (fuel - 1) as nat) == (csig, st1, f1),
        forall|n: u64| csig == SigV::Val(Some(ValueV::Num(n))) ==> !truthy_bits(n),
    ensures
        spec_eval(ExprV::While { condition: Box::new(c), body: Box::new(b) }, st, fuel) == (
            SigV::Val(Some(ValueV::Nil)),
            st1,
            f1,
        ),
{
    reveal_with_fuel(spec_eval, 2);
    match csig {
        SigV::Val(Some(ValueV::Num(n))) => {
            assert(!truthy_bits(n));
        },
        _ => {},
    }
}

/// A `break` signal from the body ends the loop at once: no further
/// iteration runs, and the loop itself yields nil in the state the body
/// left behind.
pub proof fn law_break_stops_loop(
    c: ExprV,
    b: ExprV,
    st: StateV,
    fuel: nat,
    n: u64,
    st1: StateV,
    f1: nat,
    st2: StateV,
    f2: nat,
)
    requires
        fuel > 0,
        spec_eval(c, st, (fuel - 1) as nat) == (SigV::Val(Some(ValueV::Num(n))), st1, f1),
        truthy_bits(n),
        spec_eval(b, st1, fmin(f1, (fuel - 1) as nat)) == (SigV::Break, st2, f2),
    ensures
        spec_eval(ExprV::While { condition: Box::new(c), body: Box::new(b) }, st, fuel) == (
            SigV::Val(Some(ValueV::Nil)),
            st2,
            f2,
        ),
{
}

/// A `continue` signal from the body skips the rest of that pass and goes
/// straight back to the condition: the loop proceeds exactly as a fresh
/// loop would from the state the body left behind.
pub proof fn law_continue_rechecks(
    c: ExprV,
    b: ExprV,
    st: StateV,
    fuel: nat,
    n: u64,
    st1: StateV,
    f1: nat,
    st2: StateV,
    f2: nat,
)
    requires
        fuel > 0,
        spec_eval(c, st, (fuel - 1) as nat) == (SigV::Val(Some(ValueV::Num(n))), st1, f1),
        truthy_bits(n),
        spec_eval(b, st1, fmin(f1, (fuel - 1) as nat)) == (SigV::Continue, st2, f2),
    ensures
        spec_eval(ExprV::While { condition: Box::new(c), body: Box::new(b) }, st, fuel)
            == spec_eval(
            ExprV::While { condition: Box::new(c), body: Box::new(b) },
            st2,
            fmin(f2, (fuel - 1) as nat),
        ),
{
    reveal_with_fuel(spec_eval, 2);
}

/// `break` or `continue` arriving at the top level, outside any loop, is
/// reported as invalid usage rather than silently ignored; the run goes on
/// with the next statement.
pub proof fn law_stray_signal_reported(
    e: ExprV,
    es: Seq<ExprV>,
    st: StateV,
    fuel: nat,
    sig: SigV,
    st1: StateV,
    f1: nat,
)
    requires
        es.len() > 0,
        es[0] == e,
        spec_eval(e, st, fuel) == (sig, st1, f1),
        sig == SigV::Break || sig == SigV::Continue,
    ensures
        spec_run(es, st, fuel) == spec_run(
            es.subrange(1, es.len() as int),
            StateV { diags: st1.diags.push(EvalDiagV::StrayLoopSignal), ..st1 },
            fmin(f1, fuel),
        ),
{
    reveal_with_fuel(spec_run, 2);
}

} // verus!
