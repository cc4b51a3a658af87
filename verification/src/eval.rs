use vstd::prelude::*;
use crate::ast::{Expr, ExprV, expr_view, exprs_view};
use crate::num::{
    add_bits, bool_bits, div_bits, eq_bits, lt_bits, mul_bits, num_display, sub_bits, truthy_bits,
};
use crate::token::{Token, TokenV};
use crate::text::chars_to_string;
use vstd::string::StringExecFns;

verus! {

/// A runtime value: a number (held as the bit pattern of a double), a
/// text, or nil, the absence of a value.
#[derive(Debug)]
pub enum Value {
    Num(u64),
    Str(String),
    Nil,
}

/// The mathematical image of a `Value`.
pub enum ValueV {
    Num(u64),
    Str(Seq<char>),
    Nil,
}

impl View for Value {
    type V = ValueV;

    open spec fn view(&self) -> ValueV {
        match self {
            Value::Num(n) => ValueV::Num(*n),
            Value::Str(s) => ValueV::Str(s@),
            Value::Nil => ValueV::Nil,
        }
    }
}

impl Clone for Value {
    fn clone(&self) -> (res: Self)
        ensures
            res == *self,
    {
        match self {
            Value::Num(n) => Value::Num(*n),
            Value::Str(s) => Value::Str(s.clone()),
            Value::Nil => Value::Nil,
        }
    }
}

/// What evaluating one node yields: a plain value (possibly absent), or a
/// break or continue signal travelling out of a loop body.
#[derive(Debug)]
pub enum EvalResult {
    Val(Option<Value>),
    Break,
    Continue,
}

/// The mathematical image of an `EvalResult`.
pub enum SigV {
    Val(Option<ValueV>),
    Break,
    Continue,
}

impl View for EvalResult {
    type V = SigV;

    open spec fn view(&self) -> SigV {
        match self {
            EvalResult::Val(None) => SigV::Val(None),
            EvalResult::Val(Some(v)) => SigV::Val(Some(v@)),
            EvalResult::Break => SigV::Break,
            EvalResult::Continue => SigV::Continue,
        }
    }
}

/// A diagnostic the evaluator records; evaluation itself never fails, the
/// statement at hand merely yields nil and the run goes on.
#[derive(Debug)]
pub enum EvalDiag {
    /// A binary operation was given operands of different kinds.
    TypeMismatch,
    /// A call named a function other than `print`.
    UnknownFunction(String),
    /// `break` or `continue` reached the top level, outside any loop.
    StrayLoopSignal,
    /// The evaluator's loop budget ran out and a loop was abandoned.
    LoopBudget,
}

/// The mathematical image of an `EvalDiag`.
pub enum EvalDiagV {
    TypeMismatch,
    UnknownFunction(Seq<char>),
    StrayLoopSignal,
    LoopBudget,
}

impl View for EvalDiag {
    type V = EvalDiagV;

    open spec fn view(&self) -> EvalDiagV {
        match self {
            EvalDiag::TypeMismatch => EvalDiagV::TypeMismatch,
            EvalDiag::UnknownFunction(s) => EvalDiagV::UnknownFunction(s@),
            EvalDiag::StrayLoopSignal => EvalDiagV::StrayLoopSignal,
            EvalDiag::LoopBudget => EvalDiagV::LoopBudget,
        }
    }
}

/// The evaluator's whole observable state: the variable environment, the
/// lines printed so far, and the diagnostics recorded so far.
#[verifier::ext_equal]
pub struct StateV {
    pub env: Map<Seq<char>, ValueV>,
    pub out: Seq<Seq<char>>,
    pub diags: Seq<EvalDiagV>,
}

/// The display text of a value: a number's decimal text, a text itself,
/// and `nil` for nil.
pub open spec fn render(v: ValueV) -> Seq<char> {
    match v {
        ValueV::Num(n) => num_display(n),
        ValueV::Str(s) => s,
        ValueV::Nil => seq!['n', 'i', 'l'],
    }
}

/// Pieces joined with a single space between each pair.
pub open spec fn join_sp(ps: Seq<Seq<char>>) -> Seq<char>
    decreases ps.len(),
{
    if ps.len() == 0 {
        Seq::empty()
    } else if ps.len() == 1 {
        ps[0]
    } else {
        ps[0] + seq![' '] + join_sp(ps.subrange(1, ps.len() as int))
    }
}

/// The smaller of two fuel amounts.
pub open spec fn fmin(a: nat, b: nat) -> nat {
    if a < b {
        a
    } else {
        b
    }
}

/// What a binary operator gives on two evaluated operands: arithmetic and
/// comparisons on two numbers (a comparison yields one or zero),
/// concatenation on two texts under `+`; any other combination records a
/// type mismatch and yields nothing.
pub open spec fn apply_binop(op: TokenV, a: ValueV, b: ValueV, st: StateV, fuel: nat) -> (
    SigV,
    StateV,
    nat,
) {
    match (a, b) {
        (ValueV::Num(x), ValueV::Num(y)) => match op {
            TokenV::Plus => (SigV::Val(Some(ValueV::Num(add_bits(x, y)))), st, fuel),
            TokenV::Minus => (SigV::Val(Some(ValueV::Num(sub_bits(x, y)))), st, fuel),
            TokenV::Star => (SigV::Val(Some(ValueV::Num(mul_bits(x, y)))), st, fuel),
            TokenV::Slash => (SigV::Val(Some(ValueV::Num(div_bits(x, y)))), st, fuel),
            TokenV::EqualEqual => (SigV::Val(Some(ValueV::Num(bool_bits(eq_bits(x, y))))), st, fuel),
            TokenV::BangEqual => (
                SigV::Val(Some(ValueV::Num(bool_bits(!eq_bits(x, y))))),
                st,
                fuel,
            ),
            TokenV::Less => (SigV::Val(Some(ValueV::Num(bool_bits(lt_bits(x, y))))), st, fuel),
            TokenV::LessEqual => (
                SigV::Val(Some(ValueV::Num(bool_bits(lt_bits(x, y) || eq_bits(x, y))))),
                st,
                fuel,
            ),
            _ => (SigV::Val(None), st, fuel),
        },
        (ValueV::Str(x), ValueV::Str(y)) => if op == TokenV::Plus {
            (SigV::Val(Some(ValueV::Str(x + y))), st, fuel)
        } else {
            (
                SigV::Val(None),
                StateV { diags: st.diags.push(EvalDiagV::TypeMismatch), ..st },
                fuel,
            )
        },
        _ => (SigV::Val(None), StateV { diags: st.diags.push(EvalDiagV::TypeMismatch), ..st }, fuel),
    }
}

/// The meaning of one expression: the signal it yields, the state it
/// leaves, and the loop budget it leaves.  The budget pays one unit for
/// each pass a `while` loop begins; when it runs out the loop is abandoned
/// with a diagnostic.  Everything else is exactly the tree walk: see each
/// arm.
pub open spec fn spec_eval(e: ExprV, st: StateV, fuel: nat) -> (SigV, StateV, nat)
    decreases fuel, e, 0int,
{
    match e {
        ExprV::Number(n) => (SigV::Val(Some(ValueV::Num(n))), st, fuel),
        ExprV::StringLiteral(s) => (SigV::Val(Some(ValueV::Str(s))), st, fuel),
        ExprV::Variable(name) => (
            SigV::Val(
                if st.env.dom().contains(name) {
                    Some(st.env[name])
                } else {
                    None
                },
            ),
            st,
            fuel,
        ),
        ExprV::Assignment { name, expr } => {
            let (sig, st1, f1) = spec_eval(*expr, st, fuel);
            match sig {
                SigV::Val(Some(v)) => (
                    SigV::Val(Some(v)),
                    StateV { env: st1.env.insert(name, v), ..st1 },
                    f1,
                ),
                _ => (SigV::Val(None), st1, f1),
            }
        },
        ExprV::Binary { left, op, right } => {
            let (lsig, st1, f1) = spec_eval(*left, st, fuel);
            match lsig {
                SigV::Val(Some(lv)) => {
                    let (rsig, st2, f2) = spec_eval(*right, st1, fmin(f1, fuel));
                    match rsig {
                        SigV::Val(Some(rv)) => apply_binop(op, lv, rv, st2, f2),
                        _ => (SigV::Val(None), st2, f2),
                    }
                },
                _ => (SigV::Val(None), st1, f1),
            }
        },
        ExprV::FunctionCall { name, args } => {
            if name == "print"@ {
                let (pieces, st1, f1) = spec_eval_args(args, st, fuel);
                (
                    SigV::Val(Some(ValueV::Nil)),
                    StateV { out: st1.out.push(join_sp(pieces)), ..st1 },
                    f1,
                )
            } else {
                (
                    SigV::Val(Some(ValueV::Nil)),
                    StateV { diags: st.diags.push(EvalDiagV::UnknownFunction(name)), ..st },
                    fuel,
                )
            }
        },
        ExprV::Block(stmts) => spec_eval_block(stmts, st, fuel),
        ExprV::If { condition, then_branch, else_branch } => {
            let (csig, st1, f1) = spec_eval(*condition, st, fuel);
            match csig {
                SigV::Val(Some(ValueV::Num(n))) => if truthy_bits(n) {
                    spec_eval(*then_branch, st1, fmin(f1, fuel))
                } else {
                    match else_branch {
                        Some(e2) => spec_eval(*e2, st1, fmin(f1, fuel)),
                        None => (SigV::Val(Some(ValueV::Nil)), st1, f1),
                    }
                },
                _ => {
                    match else_branch {
                        Some(e2) => spec_eval(*e2, st1, fmin(f1, fuel)),
                        None => (SigV::Val(Some(ValueV::Nil)), st1, f1),
                    }
                },
            }
        },
        ExprV::While { condition, body } => {
            if fuel == 0 {
                (
                    SigV::Val(Some(ValueV::Nil)),
                    StateV { diags: st.diags.push(EvalDiagV::LoopBudget), ..st },
                    0,
                )
            } else {
                let fr = (fuel - 1) as nat;
                let (csig, st1, f1) = spec_eval(*condition, st, fr);
                match csig {
                    SigV::Val(Some(ValueV::Num(n))) => if truthy_bits(n) {
                        let (bsig, st2, f2) = spec_eval(*body, st1, fmin(f1, fr));
                        match bsig {
                            SigV::Break => (SigV::Val(Some(ValueV::Nil)), st2, f2),
                            _ => spec_eval(e, st2, fmin(f2, fr)),
                        }
                    } else {
                        (SigV::Val(Some(ValueV::Nil)), st1, f1)
                    },
                    _ => (SigV::Val(Some(ValueV::Nil)), st1, f1),
                }
            }
        },
        ExprV::Break => (SigV::Break, st, fuel),
        ExprV::Continue => (SigV::Continue, st, fuel),
        ExprV::Return(e2) => spec_eval(*e2, st, fuel),
        ExprV::FunctionDef { name, params, body } => (SigV::Val(Some(ValueV::Nil)), st, fuel),
    }
}

/// Statements of a block in order; a break or continue signal stops the
/// block at once and travels upward, and a finished block yields nil.
pub open spec fn spec_eval_block(stmts: Seq<ExprV>, st: StateV, fuel: nat) -> (SigV, StateV, nat)
    decreases fuel, stmts, 1int,
{
    if stmts.len() == 0 {
        (SigV::Val(Some(ValueV::Nil)), st, fuel)
    } else {
        let (sig, st1, f1) = spec_eval(stmts[0], st, fuel);
        match sig {
            SigV::Break => (SigV::Break, st1, f1),
            SigV::Continue => (SigV::Continue, st1, f1),
            _ => spec_eval_block(stmts.subrange(1, stmts.len() as int), st1, fmin(f1, fuel)),
        }
    }
}

/// Call arguments in order, each rendered as display text; an argument
/// whose evaluation yields no plain value renders as `nil`.
pub open spec fn spec_eval_args(args: Seq<ExprV>, st: StateV, fuel: nat) -> (
    Seq<Seq<char>>,
    StateV,
    nat,
)
    decreases fuel, args, 1int,
{
    if args.len() == 0 {
        (Seq::empty(), st, fuel)
    } else {
        let (sig, st1, f1) = spec_eval(args[0], st, fuel);
        let piece = match sig {
            SigV::Val(Some(v)) => render(v),
            _ => seq!['n', 'i', 'l'],
        };
        let (rest, st2, f2) = spec_eval_args(args.subrange(1, args.len() as int), st1, fmin(
            f1,
            fuel,
        ));
        (seq![piece] + rest, st2, f2)
    }
}

/// Top-level statements in order; a break or continue signal arriving
/// here, outside any loop, is recorded as invalid usage and the run goes
/// on.
pub open spec fn spec_run(es: Seq<ExprV>, st: StateV, fuel: nat) -> (StateV, nat)
    decreases fuel, es, 1int,
{
    if es.len() == 0 {
        (st, fuel)
    } else {
        let (sig, st1, f1) = spec_eval(es[0], st, fuel);
        let st2 = match sig {
            SigV::Break => StateV { diags: st1.diags.push(EvalDiagV::StrayLoopSignal), ..st1 },
            SigV::Continue => StateV { diags: st1.diags.push(EvalDiagV::StrayLoopSignal), ..st1 },
            _ => st1,
        };
        spec_run(es.subrange(1, es.len() as int), st2, fmin(f1, fuel))
    }
}

/// The environment a pair list stands for: later pairs shadow earlier
/// ones, though a well-formed list never repeats a name.
pub open spec fn env_map_of(s: Seq<(String, Value)>) -> Map<Seq<char>, ValueV>
    decreases s.len(),
{
    if s.len() == 0 {
        Map::empty()
    } else {
        env_map_of(s.drop_last()).insert(s.last().0@, s.last().1@)
    }
}

/// No variable name occurs twice in the pair list.
pub open spec fn env_keys_unique(s: Seq<(String, Value)>) -> bool {
    forall|i: int, j: int| 0 <= i < j < s.len() ==> (#[trigger] s[i]).0@ != (#[trigger] s[j]).0@
}

/// The elementwise image of a list of printed lines.
pub open spec fn strs_view(s: Seq<String>) -> Seq<Seq<char>> {
    Seq::new(s.len(), |i: int| s[i]@)
}

/// The elementwise image of a list of diagnostics.
pub open spec fn diags_view(s: Seq<EvalDiag>) -> Seq<EvalDiagV> {
    Seq::new(s.len(), |i: int| s[i]@)
}

/// Evaluation can only spend budget, never gain it.
pub proof fn lemma_eval_fuel(e: ExprV, st: StateV, fuel: nat)
    ensures
        spec_eval(e, st, fuel).2 <= fuel,
    decreases fuel, e, 0int,
{
    match e {
        ExprV::Assignment { name, expr } => {
            lemma_eval_fuel(*expr, st, fuel);
        },
        ExprV::Binary { left, op, right } => {
            lemma_eval_fuel(*left, st, fuel);
            let (lsig, st1, f1) = spec_eval(*left, st, fuel);
            lemma_eval_fuel(*right, st1, fmin(f1, fuel));
        },
        ExprV::FunctionCall { name, args } => {
            if name == "print"@ {
                lemma_args_fuel(args, st, fuel);
            }
        },
        ExprV::Block(stmts) => {
            lemma_block_fuel(stmts, st, fuel);
        },
        ExprV::If { condition, then_branch, else_branch } => {
            lemma_eval_fuel(*condition, st, fuel);
            let (csig, st1, f1) = spec_eval(*condition, st, fuel);
            lemma_eval_fuel(*then_branch, st1, fmin(f1, fuel));
            match else_branch {
                Some(e2) => {
                    lemma_eval_fuel(*e2, st1, fmin(f1, fuel));
                },
                None => {},
            }
        },
        ExprV::While { condition, body } => {
            if fuel > 0 {
                let fr = (fuel - 1) as nat;
                lemma_eval_fuel(*condition, st, fr);
                let (csig, st1, f1) = spec_eval(*condition, st, fr);
                lemma_eval_fuel(*body, st1, fmin(f1, fr));
                let (bsig, st2, f2) = spec_eval(*body, st1, fmin(f1, fr));
                lemma_eval_fuel(e, st2, fmin(f2, fr));
            }
        },
        ExprV::Return(e2) => {
            lemma_eval_fuel(*e2, st, fuel);
        },
        _ => {},
    }
}

pub proof fn lemma_block_fuel(stmts: Seq<ExprV>, st: StateV, fuel: nat)
    ensures
        spec_eval_block(stmts, st, fuel).2 <= fuel,
    decreases fuel, stmts, 1int,
{
    if stmts.len() > 0 {
        lemma_eval_fuel(stmts[0], st, fuel);
        let (sig, st1, f1) = spec_eval(stmts[0], st, fuel);
        lemma_block_fuel(stmts.subrange(1, stmts.len() as int), st1, fmin(f1, fuel));
    }
}

pub proof fn lemma_args_fuel(args: Seq<ExprV>, st: StateV, fuel: nat)
    ensures
        spec_eval_args(args, st, fuel).2 <= fuel,
    decreases fuel, args, 1int,
{
    if args.len() > 0 {
        lemma_eval_fuel(args[0], st, fuel);
        let (sig, st1, f1) = spec_eval(args[0], st, fuel);
        lemma_args_fuel(args.subrange(1, args.len() as int), st1, fmin(f1, fuel));
    }
}

/// A name that stands at position `i` of a well-formed pair list is in
/// the environment, bound to that pair's value.
proof fn lemma_env_index(s: Seq<(String, Value)>, i: int)
    requires
        env_keys_unique(s),
        0 <= i < s.len(),
    ensures
        env_map_of(s).dom().contains(s[i].0@),
        env_map_of(s)[s[i].0@] == s[i].1@,
    decreases s.len(),
{
    if i < s.len() - 1 {
        assert(env_keys_unique(s.drop_last()));
        lemma_env_index(s.drop_last(), i);
        assert(s.drop_last()[i] == s[i]);
        assert(s[i].0@ != s.last().0@);
    }
}

/// A name that stands nowhere in the pair list is not in the environment.
proof fn lemma_env_absent(s: Seq<(String, Value)>, k: Seq<char>)
    requires
        forall|i: int| 0 <= i < s.len() ==> (#[trigger] s[i]).0@ != k,
    ensures
        !env_map_of(s).dom().contains(k),
    decreases s.len(),
{
    if s.len() > 0 {
        lemma_env_absent(s.drop_last(), k);
    }
}

/// Replacing the pair that holds a name binds that name anew and changes
/// nothing else.
proof fn lemma_env_update(s: Seq<(String, Value)>, i: int, p: (String, Value))
    requires
        env_keys_unique(s),
        0 <= i < s.len(),
        p.0@ == s[i].0@,
    ensures
        env_map_of(s.update(i, p)) == env_map_of(s).insert(p.0@, p.1@),
    decreases s.len(),
{
    if i == s.len() - 1 {
        assert(s.update(i, p).drop_last() =~= s.drop_last());
        assert(env_map_of(s.update(i, p)) =~= env_map_of(s).insert(p.0@, p.1@));
    } else {
        assert(s.update(i, p).drop_last() =~= s.drop_last().update(i, p));
        assert(env_keys_unique(s.drop_last()));
        lemma_env_update(s.drop_last(), i, p);
        assert(s[i].0@ != s.last().0@);
        assert(env_map_of(s.update(i, p)) =~= env_map_of(s).insert(p.0@, p.1@));
    }
}

/// Joining one more piece appends a space and the piece, except to an
/// empty list.
proof fn lemma_join_push(ps: Seq<Seq<char>>, x: Seq<char>)
    ensures
        join_sp(ps.push(x)) == (if ps.len() == 0 {
            x
        } else {
            join_sp(ps) + seq![' '] + x
        }),
    decreases ps.len(),
{
    if ps.len() == 0 {
        assert(ps.push(x)[0] == x);
    } else {
        assert(ps.push(x).subrange(1, ps.push(x).len() as int) =~= ps.subrange(
            1,
            ps.len() as int,
        ).push(x));
        lemma_join_push(ps.subrange(1, ps.len() as int), x);
        if ps.len() == 1 {
            assert(join_sp(ps.push(x)) == ps[0] + seq![' '] + x);
            assert(join_sp(ps) == ps[0]);
        } else {
            assert(join_sp(ps) + seq![' '] + x =~= ps[0] + seq![' '] + (join_sp(
                ps.subrange(1, ps.len() as int),
            ) + seq![' '] + x));
        }
    }
}

proof fn lemma_strs_push(ws: Seq<String>, w: String)
    ensures
        strs_view(ws.push(w)) =~= strs_view(ws) + seq![w@],
{
    assert forall|i: int| 0 <= i < ws.len() + 1 implies strs_view(ws.push(w))[i] == (strs_view(ws)
        + seq![w@])[i] by {
        assert(strs_view(ws.push(w))[i] == ws.push(w)[i]@);
        if i < ws.len() {
            assert(ws.push(w)[i] == ws[i]);
            assert((strs_view(ws) + seq![w@])[i] == ws[i]@);
        } else {
            assert(ws.push(w)[i] == w);
        }
    }
}

proof fn lemma_diags_push(ws: Seq<EvalDiag>, w: EvalDiag)
    ensures
        diags_view(ws.push(w)) =~= diags_view(ws) + seq![w@],
{
    assert forall|i: int| 0 <= i < ws.len() + 1 implies diags_view(ws.push(w))[i] == (diags_view(
        ws,
    ) + seq![w@])[i] by {
        assert(diags_view(ws.push(w))[i] == ws.push(w)[i]@);
        if i < ws.len() {
            assert(ws.push(w)[i] == ws[i]);
            assert((diags_view(ws) + seq![w@])[i] == ws[i]@);
        } else {
            assert(ws.push(w)[i] == w);
        }
    }
}

/// The display text of one value.
fn value_display(v: &Value) -> (r: String)
    ensures
        r@ == render(v@),
{
    match v {
        Value::Num(n) => {
            let cs = crate::num::num_to_chars(*n);
            chars_to_string(&cs)
        },
        Value::Str(s) => s.clone(),
        Value::Nil => {
            let r = nil_string();
            r
        },
    }
}

/// The three characters `nil`.
fn nil_string() -> (r: String)
    ensures
        r@ == seq!['n', 'i', 'l'],
{
    let r = String::from_str("nil");
    proof {
        reveal_strlit("nil");
        assert(r@ =~= seq!['n', 'i', 'l']);
    }
    r
}

/// The tree-walking evaluator: a flat variable environment, the lines its
/// `print` calls have produced, the diagnostics it has recorded, and the
/// loop budget it has left.
pub struct Evaluator {
    env: Vec<(String, Value)>,
    out: Vec<String>,
    diags: Vec<EvalDiag>,
    fuel: u64,
}

impl Evaluator {
    /// The variable environment.
    pub closed spec fn env_map(&self) -> Map<Seq<char>, ValueV> {
        env_map_of(self.env@)
    }

    /// The lines printed so far.
    pub closed spec fn out_lines(&self) -> Seq<Seq<char>> {
        strs_view(self.out@)
    }

    /// The diagnostics recorded so far.
    pub closed spec fn diag_seq(&self) -> Seq<EvalDiagV> {
        diags_view(self.diags@)
    }

    /// The loop budget left.
    pub closed spec fn fuel_left(&self) -> nat {
        self.fuel as nat
    }

    /// The whole observable state.
    pub open spec fn state(&self) -> StateV {
        StateV { env: self.env_map(), out: self.out_lines(), diags: self.diag_seq() }
    }

    /// The environment holds each name at most once.
    pub closed spec fn wf(&self) -> bool {
        env_keys_unique(self.env@)
    }

    /// A fresh evaluator: empty environment, nothing printed, nothing
    /// recorded, the full loop budget.
    pub fn new() -> (r: Evaluator)
        ensures
            r.wf(),
            r.env_map() == Map::<Seq<char>, ValueV>::empty(),
            r.out_lines() == Seq::<Seq<char>>::empty(),
            r.diag_seq() == Seq::<EvalDiagV>::empty(),
            r.fuel_left() == u64::MAX as nat,
    {
        let r = Evaluator { env: Vec::new(), out: Vec::new(), diags: Vec::new(), fuel: u64::MAX };
        proof {
            assert(r.out_lines() =~= Seq::<Seq<char>>::empty());
            assert(r.diag_seq() =~= Seq::<EvalDiagV>::empty());
        }
        r
    }

    /// The value a name is bound to, if any.
    pub fn get_var(&self, name: &String) -> (r: Option<Value>)
        requires
            self.wf(),
        ensures
            match r {
                Some(v) => self.env_map().dom().contains(name@) && v@ == self.env_map()[name@],
                None => !self.env_map().dom().contains(name@),
            },
    {
        let n = self.env.len();
        let mut i: usize = 0;
        while i < n
            invariant
                self.wf(),
                n == self.env@.len(),
                i <= n,
                forall|j: int| 0 <= j < i ==> (#[trigger] self.env@[j]).0@ != name@,
            decreases n - i,
        {
            if self.env[i].0 == *name {
                proof {
                    lemma_env_index(self.env@, i as int);
                }
                return Some(self.env[i].1.clone());
            }
            i = i + 1;
        }
        proof {
            lemma_env_absent(self.env@, name@);
        }
        None
    }

    /// The lines printed so far, in order.
    pub fn output(&self) -> (r: &Vec<String>)
        ensures
            strs_view(r@) == self.out_lines(),
    {
        &self.out
    }

    /// The diagnostics recorded so far, in order.
    pub fn diagnostics(&self) -> (r: &Vec<EvalDiag>)
        ensures
            diags_view(r@) == self.diag_seq(),
    {
        &self.diags
    }

    /// Binds a name, replacing any earlier binding.
    fn env_set(&mut self, name: &String, v: &Value)
        requires
            old(self).wf(),
        ensures
            final(self).wf(),
            final(self).env_map() == old(self).env_map().insert(name@, v@),
            final(self).out_lines() == old(self).out_lines(),
            final(self).diag_seq() == old(self).diag_seq(),
            final(self).fuel_left() == old(self).fuel_left(),
    {
        let n = self.env.len();
        let mut i: usize = 0;
        while i < n
            invariant
                self.wf(),
                n == self.env@.len(),
                i <= n,
                self.env@ == old(self).env@,
                self.out@ == old(self).out@,
                self.diags@ == old(self).diags@,
                self.fuel == old(self).fuel,
                forall|j: int| 0 <= j < i ==> (#[trigger] self.env@[j]).0@ != name@,
            decreases n - i,
        {
            if self.env[i].0 == *name {
                let ghost olds = self.env@;
                let newpair = (name.clone(), v.clone());
                self.env.set(i, newpair);
                proof {
                    let pnew = self.env@[i as int];
                    assert(pnew.0@ == olds[i as int].0@);
                    lemma_env_update(olds, i as int, pnew);
                    assert(olds.update(i as int, pnew) =~= self.env@);
                    assert(pnew.1@ == v@);
                    assert forall|a: int, b: int|
                        0 <= a < b < self.env@.len() implies (#[trigger] self.env@[a]).0@ != (
                    #[trigger] self.env@[b]).0@ by {
                        assert(olds[a].0@ != olds[b].0@);
                        if a == i {
                            assert(self.env@[a].0@ == olds[a].0@);
                        }
                        if b == i {
                            assert(self.env@[b].0@ == olds[b].0@);
                        }
                        if a != i && b != i {
                            assert(self.env@[a] == olds[a] && self.env@[b] == olds[b]);
                        }
                    }
                }
                return ;
            }
            i = i + 1;
        }
        self.env.push((name.clone(), v.clone()));
        proof {
            assert(self.env@.drop_last() =~= old(self).env@);
            assert forall|a: int, b: int|
                0 <= a < b < self.env@.len() implies (#[trigger] self.env@[a]).0@ != (
            #[trigger] self.env@[b]).0@ by {
                if b < self.env@.len() - 1 {
                    assert(old(self).env@[a].0@ != old(self).env@[b].0@);
                }
            }
        }
    }
}

/// Pushing a rendered piece onto the accumulator and popping its image
/// off the front of the remainder leaves the concatenation unchanged.
proof fn lemma_piece_step(
    a: Seq<Seq<char>>,
    b: Seq<Seq<char>>,
    c: Seq<Seq<char>>,
    d: Seq<Seq<char>>,
    p: Seq<char>,
)
    requires
        a == b + seq![p],
        d == seq![p] + c,
    ensures
        b + d == a + c,
{
    assert(b + d =~= a + c);
}

impl Evaluator {
    /// Records one printed line.
    fn push_out(&mut self, line: String)
        ensures
            final(self).wf() == old(self).wf(),
            final(self).env_map() == old(self).env_map(),
            final(self).out_lines() == old(self).out_lines().push(line@),
            final(self).diag_seq() == old(self).diag_seq(),
            final(self).fuel_left() == old(self).fuel_left(),
    {
        let ghost lv = line@;
        proof {
            lemma_strs_push(self.out@, line);
        }
        self.out.push(line);
    }

    /// Records one diagnostic.
    fn push_diag(&mut self, d: EvalDiag)
        ensures
            final(self).wf() == old(self).wf(),
            final(self).env_map() == old(self).env_map(),
            final(self).out_lines() == old(self).out_lines(),
            final(self).diag_seq() == old(self).diag_seq().push(d@),
            final(self).fuel_left() == old(self).fuel_left(),
    {
        proof {
            lemma_diags_push(self.diags@, d);
        }
        self.diags.push(d);
    }

    /// Walks one expression tree node, as `spec_eval` describes: the
    /// value, break or continue signal it comes to, with the environment,
    /// the output, the diagnostics and the loop budget updated in place.
    pub fn eval(&mut self, expr: &Expr) -> (res: EvalResult)
        requires
            old(self).wf(),
        ensures
            final(self).wf(),
            (res@, final(self).state(), final(self).fuel_left()) == spec_eval(
                expr@,
                old(self).state(),
                old(self).fuel_left(),
            ),
        decreases *expr,
    {
        let ghost st0 = self.state();
        let ghost f0 = self.fuel_left();
        match expr {
            Expr::Number(n) => EvalResult::Val(Some(Value::Num(*n))),
            Expr::StringLiteral(s) => EvalResult::Val(Some(Value::Str(s.clone()))),
            Expr::Variable(name) => {
                match self.get_var(name) {
                    Some(v) => EvalResult::Val(Some(v)),
                    None => EvalResult::Val(None),
                }
            },
            Expr::Assignment { name, expr: rhs } => {
                let r = self.eval(rhs);
                match r {
                    EvalResult::Val(Some(val)) => {
                        self.env_set(name, &val);
                        proof {
                            let (sig, st1, f1) = spec_eval(expr_view(**rhs), st0, f0);
                            assert(self.state() =~= (StateV {
                                env: st1.env.insert(name@, val@),
                                ..st1
                            }));
                        }
                        EvalResult::Val(Some(val))
                    },
                    _ => EvalResult::Val(None),
                }
            },
            Expr::Binary { left, op, right } => {
                let lr = self.eval(left);
                proof {
                    lemma_eval_fuel(expr_view(**left), st0, f0);
                }
                let lv = match lr {
                    EvalResult::Val(Some(v)) => v,
                    _ => {
                        return EvalResult::Val(None);
                    },
                };
                let rr = self.eval(right);
                let rv = match rr {
                    EvalResult::Val(Some(v)) => v,
                    _ => {
                        return EvalResult::Val(None);
                    },
                };
                match (lv, rv) {
                    (Value::Num(a), Value::Num(b)) => {
                        match op {
                            Token::Plus => EvalResult::Val(
                                Some(Value::Num(crate::num::num_add(a, b))),
                            ),
                            Token::Minus => EvalResult::Val(
                                Some(Value::Num(crate::num::num_sub(a, b))),
                            ),
                            Token::Star => EvalResult::Val(
                                Some(Value::Num(crate::num::num_mul(a, b))),
                            ),
                            Token::Slash => EvalResult::Val(
                                Some(Value::Num(crate::num::num_div(a, b))),
                            ),
                            Token::EqualEqual => EvalResult::Val(
                                Some(Value::Num(crate::num::num_of_bool(crate::num::num_eq(a, b)))),
                            ),
                            Token::BangEqual => EvalResult::Val(
                                Some(
                                    Value::Num(crate::num::num_of_bool(!crate::num::num_eq(a, b))),
                                ),
                            ),
                            Token::Less => EvalResult::Val(
                                Some(Value::Num(crate::num::num_of_bool(crate::num::num_lt(a, b)))),
                            ),
                            Token::LessEqual => EvalResult::Val(
                                Some(Value::Num(crate::num::num_of_bool(crate::num::num_le(a, b)))),
                            ),
                            _ => EvalResult::Val(None),
                        }
                    },
                    (Value::Str(a), Value::Str(b)) => {
                        if *op == Token::Plus {
                            EvalResult::Val(Some(Value::Str(a.concat(b.as_str()))))
                        } else {
                            self.push_diag(EvalDiag::TypeMismatch);
                            EvalResult::Val(None)
                        }
                    },
                    _ => {
                        self.push_diag(EvalDiag::TypeMismatch);
                        EvalResult::Val(None)
                    },
                }
            },
            Expr::FunctionCall { name, args } => {
                let ghost av = (match expr@ {
                    ExprV::FunctionCall { name: _, args: a2 } => a2,
                    _ => Seq::empty(),
                });
                if *name == String::from_str("print") {
                    let mut pieces: Vec<String> = Vec::new();
                    let n = args.len();
                    let mut i: usize = 0;
                    proof {
                        assert(av.subrange(0, av.len() as int) =~= av);
                    }
                    while i < n
                        invariant
                            self.wf(),
                            i <= n,
                            n == args@.len(),
                            n == av.len(),
                            *expr == (Expr::FunctionCall { name: *name, args: *args }),
                            expr@ == (ExprV::FunctionCall { name: name@, args: av }),
                            forall|k: int| 0 <= k < n ==> av[k] == expr_view(#[trigger] args@[k]),
                            ({
                                let full = spec_eval_args(av, st0, f0);
                                let rest = spec_eval_args(
                                    av.subrange(i as int, n as int),
                                    self.state(),
                                    self.fuel_left(),
                                );
                                full.0 == strs_view(pieces@) + rest.0 && full.1 == rest.1 && full.2
                                    == rest.2
                            }),
                        decreases n - i,
                    {
                        let ghost stp = self.state();
                        let ghost fp = self.fuel_left();
                        proof {
                            assert(decreases_to!(*expr => args@[i as int]));
                        }
                        let r = self.eval(&args[i]);
                        proof {
                            lemma_eval_fuel(av[i as int], stp, fp);
                        }
                        let piece = match r {
                            EvalResult::Val(Some(v)) => value_display(&v),
                            _ => nil_string(),
                        };
                        let ghost pv = piece@;
                        let ghost pg = piece;
                        let ghost oldp = pieces@;
                        pieces.push(piece);
                        proof {
                            lemma_strs_push(oldp, pg);
                            assert(pieces@ == oldp.push(pg));
                            let sub = av.subrange(i as int, n as int);
                            assert(sub[0] == av[i as int]);
                            assert(sub.subrange(1, sub.len() as int) =~= av.subrange(
                                i + 1,
                                n as int,
                            ));
                            let rest = spec_eval_args(sub, stp, fp);
                            let rest2 = spec_eval_args(
                                av.subrange(i + 1, n as int),
                                self.state(),
                                self.fuel_left(),
                            );
                            assert(rest.0 == seq![pv] + rest2.0);
                            lemma_piece_step(
                                strs_view(pieces@),
                                strs_view(oldp),
                                rest2.0,
                                rest.0,
                                pv,
                            );
                        }
                        i = i + 1;
                    }
                    proof {
                        assert(av.subrange(n as int, n as int) =~= Seq::<ExprV>::empty());
                        assert(spec_eval_args(av, st0, f0).0 == strs_view(pieces@) + Seq::<
                            Seq<char>,
                        >::empty());
                        assert(strs_view(pieces@) + Seq::<Seq<char>>::empty() =~= strs_view(
                            pieces@,
                        ));
                    }
                    // Join the rendered pieces with single spaces.
                    let mut line = String::new();
                    let m = pieces.len();
                    let mut j: usize = 0;
                    while j < m
                        invariant
                            j <= m,
                            m == pieces@.len(),
                            line@ == join_sp(strs_view(pieces@).subrange(0, j as int)),
                        decreases m - j,
                    {
                        let ghost sofar = strs_view(pieces@).subrange(0, j as int);
                        if j > 0 {
                            line.append(" ");
                            proof {
                                reveal_strlit(" ");
                                assert(" "@ =~= seq![' ']);
                            }
                        }
                        line.append(pieces[j].as_str());
                        proof {
                            lemma_join_push(sofar, pieces@[j as int]@);
                            assert(strs_view(pieces@).subrange(0, j + 1) =~= sofar.push(
                                pieces@[j as int]@,
                            ));
                        }
                        j = j + 1;
                    }
                    proof {
                        assert(strs_view(pieces@).subrange(0, m as int) =~= strs_view(pieces@));
                    }
                    self.push_out(line);
                    proof {
                        let (ps, st1, f1) = spec_eval_args(av, st0, f0);
                        assert(self.state() =~= (StateV { out: st1.out.push(join_sp(ps)), ..st1 }));
                    }
                    EvalResult::Val(Some(Value::Nil))
                } else {
                    self.push_diag(EvalDiag::UnknownFunction(name.clone()));
                    proof {
                        assert(self.state() =~= (StateV {
                            diags: st0.diags.push(EvalDiagV::UnknownFunction(name@)),
                            ..st0
                        }));
                    }
                    EvalResult::Val(Some(Value::Nil))
                }
            },
            Expr::Block(stmts) => {
                let ghost bv = (match expr@ {
                    ExprV::Block(s2) => s2,
                    _ => Seq::empty(),
                });
                let n = stmts.len();
                let mut i: usize = 0;
                proof {
                    assert(bv.subrange(0, bv.len() as int) =~= bv);
                }
                while i < n
                    invariant
                        self.wf(),
                        i <= n,
                        n == stmts@.len(),
                        n == bv.len(),
                        *expr == Expr::Block(*stmts),
                        expr@ == ExprV::Block(bv),
                        st0 == old(self).state(),
                        f0 == old(self).fuel_left(),
                        forall|k: int| 0 <= k < n ==> bv[k] == expr_view(#[trigger] stmts@[k]),
                        spec_eval_block(
                            bv.subrange(i as int, n as int),
                            self.state(),
                            self.fuel_left(),
                        ) == spec_eval_block(bv, st0, f0),
                    decreases n - i,
                {
                    let ghost stp = self.state();
                    let ghost fp = self.fuel_left();
                    proof {
                        assert(decreases_to!(*expr => stmts@[i as int]));
                    }
                    let r = self.eval(&stmts[i]);
                    proof {
                        lemma_eval_fuel(bv[i as int], stp, fp);
                        let sub = bv.subrange(i as int, n as int);
                        assert(sub[0] == bv[i as int]);
                        assert(sub.subrange(1, sub.len() as int) =~= bv.subrange(i + 1, n as int));
                    }
                    match r {
                        EvalResult::Break => {
                            return EvalResult::Break;
                        },
                        EvalResult::Continue => {
                            return EvalResult::Continue;
                        },
                        _ => {},
                    }
                    i = i + 1;
                }
                proof {
                    assert(bv.subrange(n as int, n as int) =~= Seq::<ExprV>::empty());
                }
                EvalResult::Val(Some(Value::Nil))
            },
            Expr::If { condition, then_branch, else_branch } => {
                let c = self.eval(condition);
                proof {
                    lemma_eval_fuel(expr_view(**condition), st0, f0);
                }
                let ctruthy = match &c {
                    EvalResult::Val(Some(Value::Num(n))) => crate::num::num_truthy(*n),
                    _ => false,
                };
                if ctruthy {
                    self.eval(then_branch)
                } else {
                    match else_branch {
                        Some(eb) => self.eval(eb),
                        None => EvalResult::Val(Some(Value::Nil)),
                    }
                }
            },
            Expr::While { condition, body } => {
                let mut result = EvalResult::Val(Some(Value::Nil));
                loop
                    invariant_except_break
                        self.wf(),
                        *expr == (Expr::While { condition: *condition, body: *body }),
                        spec_eval(expr@, self.state(), self.fuel_left()) == spec_eval(
                            expr@,
                            st0,
                            f0,
                        ),
                    ensures
                        self.wf(),
                        (result@, self.state(), self.fuel_left()) == spec_eval(expr@, st0, f0),
                    decreases self.fuel_left(),
                {
                    let ghost stp = self.state();
                    let ghost fp = self.fuel_left();
                    if self.fuel == 0 {
                        self.push_diag(EvalDiag::LoopBudget);
                        result = EvalResult::Val(Some(Value::Nil));
                        proof {
                            assert(self.state() =~= (StateV {
                                diags: stp.diags.push(EvalDiagV::LoopBudget),
                                ..stp
                            }));
                        }
                        break ;
                    }
                    self.fuel = self.fuel - 1;
                    let ghost fr = self.fuel_left();
                    let c = self.eval(condition);
                    proof {
                        lemma_eval_fuel(expr_view(**condition), stp, fr);
                    }
                    let ctruthy = match &c {
                        EvalResult::Val(Some(Value::Num(n))) => crate::num::num_truthy(*n),
                        _ => false,
                    };
                    if !ctruthy {
                        result = EvalResult::Val(Some(Value::Nil));
                        break ;
                    }
                    let ghost stc = self.state();
                    let ghost fc = self.fuel_left();
                    let b = self.eval(body);
                    proof {
                        lemma_eval_fuel(expr_view(**body), stc, fc);
                    }
                    match b {
                        EvalResult::Break => {
                            result = EvalResult::Val(Some(Value::Nil));
                            break ;
                        },
                        _ => {},
                    }
                }
                result
            },
            Expr::Break => EvalResult::Break,
            Expr::Continue => EvalResult::Continue,
            Expr::Return(e2) => self.eval(e2),
            Expr::FunctionDef { name, params, body } => EvalResult::Val(Some(Value::Nil)),
        }
    }

    /// Executes each top-level statement in order against the persistent
    /// environment, as `spec_run` describes.  A break or continue signal
    /// arriving here is recorded as used outside of a loop.
    pub fn run(&mut self, exprs: &Vec<Expr>)
        requires
            old(self).wf(),
        ensures
            final(self).wf(),
            (final(self).state(), final(self).fuel_left()) == spec_run(
                exprs_view(exprs@),
                old(self).state(),
                old(self).fuel_left(),
            ),
    {
        let ghost ev = exprs_view(exprs@);
        let ghost st0 = self.state();
        let ghost f0 = self.fuel_left();
        let n = exprs.len();
        let mut i: usize = 0;
        proof {
            assert(ev.subrange(0, ev.len() as int) =~= ev);
        }
        while i < n
            invariant
                self.wf(),
                i <= n,
                n == exprs@.len(),
                n == ev.len(),
                forall|k: int| 0 <= k < n ==> ev[k] == expr_view(#[trigger] exprs@[k]),
                spec_run(ev.subrange(i as int, n as int), self.state(), self.fuel_left())
                    == spec_run(ev, st0, f0),
            decreases n - i,
        {
            let ghost stp = self.state();
            let ghost fp = self.fuel_left();
            let r = self.eval(&exprs[i]);
            proof {
                lemma_eval_fuel(ev[i as int], stp, fp);
                let sub = ev.subrange(i as int, n as int);
                assert(sub[0] == ev[i as int]);
                assert(sub.subrange(1, sub.len() as int) =~= ev.subrange(i + 1, n as int));
            }
            let ghost sta = self.state();
            match r {
                EvalResult::Break => {
                    self.push_diag(EvalDiag::StrayLoopSignal);
                    proof {
                        assert(self.state() =~= (StateV {
                            diags: sta.diags.push(EvalDiagV::StrayLoopSignal),
                            ..sta
                        }));
                    }
                },
                EvalResult::Continue => {
                    self.push_diag(EvalDiag::StrayLoopSignal);
                    proof {
                        assert(self.state() =~= (StateV {
                            diags: sta.diags.push(EvalDiagV::StrayLoopSignal),
                            ..sta
                        }));
                    }
                },
                _ => {},
            }
            i = i + 1;
        }
        proof {
            assert(ev.subrange(n as int, n as int) =~= Seq::<ExprV>::empty());
        }
    }
}

} // verus!
