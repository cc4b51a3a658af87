use vstd::prelude::*;
use crate::ast::{Expr, ExprV, expr_view, exprs_view};
use crate::token::{Token, TokenV, toks_view};

verus! {

/// A grammar violation; parsing stops at once when one arises.
#[derive(Debug)]
pub enum ParseError {
    /// No grammar rule matched; carries the token the parser stopped near.
    Syntax(Token),
    /// The left side of `=` was not a variable reference.
    InvalidAssignmentTarget,
}

/// The mathematical image of a `ParseError`.
pub enum ParseErrorV {
    Syntax(TokenV),
    InvalidAssignmentTarget,
}

impl View for ParseError {
    type V = ParseErrorV;

    open spec fn view(&self) -> ParseErrorV {
        match self {
            ParseError::Syntax(tok) => ParseErrorV::Syntax(tok@),
            ParseError::InvalidAssignmentTarget => ParseErrorV::InvalidAssignmentTarget,
        }
    }
}

/// What one parsing step gives: a node, `None` when no rule matched
/// softly, or a fatal error; and the position it stops at.
pub struct PRes {
    pub res: Result<Option<ExprV>, ParseErrorV>,
    pub pos: int,
}

/// What a run of statements or arguments gives, and where it stops.
pub struct LRes {
    pub res: Result<Seq<ExprV>, ParseErrorV>,
    pub pos: int,
}

/// The token at a position, with the end-of-input marker past the end.
pub open spec fn pk(t: Seq<TokenV>, pos: int) -> TokenV {
    if 0 <= pos < t.len() {
        t[pos]
    } else {
        TokenV::Eof
    }
}

/// How many tokens are left from a position.
pub open spec fn plen(t: Seq<TokenV>, pos: int) -> nat {
    if pos <= t.len() {
        (t.len() - pos) as nat
    } else {
        0
    }
}

/// Whether the token is one of the four arithmetic operators.
pub open spec fn is_bin_op(tok: TokenV) -> bool {
    tok == TokenV::Plus || tok == TokenV::Minus || tok == TokenV::Star || tok == TokenV::Slash
}

/// Whether the token is one of the comparison operators the comparison
/// tier folds.
pub open spec fn is_cmp_op(tok: TokenV) -> bool {
    tok == TokenV::EqualEqual || tok == TokenV::BangEqual || tok == TokenV::Less || tok
        == TokenV::LessEqual
}

/// Operator binding strength: multiplicative above additive, everything
/// else binds nothing.
pub open spec fn prec_of(tok: TokenV) -> u8 {
    match tok {
        TokenV::Star => 10,
        TokenV::Slash => 10,
        TokenV::Plus => 5,
        TokenV::Minus => 5,
        _ => 0,
    }
}

/// A primary expression: a literal, a variable or call, a parenthesised
/// expression, or `break`/`continue`; always consumes the token it looks
/// at, and yields `None` on anything else.
pub open spec fn sp_primary(t: Seq<TokenV>, pos: int) -> PRes
    decreases plen(t, pos), 1int,
{
    if !(0 <= pos <= t.len()) {
        PRes { res: Ok(None), pos }
    } else {
        let tok = pk(t, pos);
        let p1 = if pos < t.len() {
            pos + 1
        } else {
            pos
        };
        match tok {
            TokenV::Number(n) => PRes { res: Ok(Some(ExprV::Number(n))), pos: p1 },
            TokenV::Str(s) => PRes { res: Ok(Some(ExprV::StringLiteral(s))), pos: p1 },
            TokenV::Identifier(name) => {
                if pk(t, p1) == TokenV::LParen {
                    let ar = sp_args(t, p1 + 1);
                    match ar.res {
                        Err(e) => PRes { res: Err(e), pos: ar.pos },
                        Ok(args) => {
                            let p2 = if pk(t, ar.pos) == TokenV::RParen {
                                ar.pos + 1
                            } else {
                                ar.pos
                            };
                            PRes { res: Ok(Some(ExprV::FunctionCall { name, args })), pos: p2 }
                        },
                    }
                } else {
                    PRes { res: Ok(Some(ExprV::Variable(name))), pos: p1 }
                }
            },
            TokenV::LParen => {
                let r = sp_expr(t, p1);
                match r.res {
                    Err(e) => PRes { res: Err(e), pos: r.pos },
                    Ok(None) => PRes { res: Ok(None), pos: r.pos },
                    Ok(Some(e2)) => {
                        let p2 = if pk(t, r.pos) == TokenV::RParen {
                            r.pos + 1
                        } else {
                            r.pos
                        };
                        PRes { res: Ok(Some(e2)), pos: p2 }
                    },
                }
            },
            TokenV::Break => PRes { res: Ok(Some(ExprV::Break)), pos: p1 },
            TokenV::Continue => PRes { res: Ok(Some(ExprV::Continue)), pos: p1 },
            _ => PRes { res: Ok(None), pos: p1 },
        }
    }
}

/// Comma-separated call arguments up to the closing parenthesis, which
/// stays unconsumed here.
pub open spec fn sp_args(t: Seq<TokenV>, pos: int) -> LRes
    decreases plen(t, pos), 9int,
{
    if !(0 <= pos <= t.len()) {
        LRes { res: Ok(Seq::empty()), pos }
    } else if pk(t, pos) == TokenV::RParen {
        LRes { res: Ok(Seq::empty()), pos }
    } else {
        let r = sp_expr(t, pos);
        match r.res {
            Err(e) => LRes { res: Err(e), pos: r.pos },
            Ok(opt) => {
                let head = match opt {
                    Some(a) => seq![a],
                    None => Seq::<ExprV>::empty(),
                };
                if pk(t, r.pos) == TokenV::Comma && pos < r.pos + 1 {
                    let rest = sp_args(t, r.pos + 1);
                    match rest.res {
                        Err(e2) => LRes { res: Err(e2), pos: rest.pos },
                        Ok(tail) => LRes { res: Ok(head + tail), pos: rest.pos },
                    }
                } else {
                    LRes { res: Ok(head), pos: r.pos }
                }
            },
        }
    }
}

/// The left-associative arithmetic tier, by precedence climbing: operators
/// at least as strong as `min_prec` fold into the left side.
pub open spec fn sp_binary(t: Seq<TokenV>, pos: int, min_prec: u8) -> PRes
    decreases plen(t, pos), 2int,
{
    if !(0 <= pos <= t.len()) {
        PRes { res: Ok(None), pos }
    } else {
        let rp = sp_primary(t, pos);
        match rp.res {
            Err(e) => PRes { res: Err(e), pos: rp.pos },
            Ok(None) => PRes { res: Ok(None), pos: rp.pos },
            Ok(Some(lhs)) => {
                if pos < rp.pos <= t.len() {
                    sp_bin_loop(t, lhs, rp.pos, min_prec)
                } else {
                    PRes { res: Ok(Some(lhs)), pos: rp.pos }
                }
            },
        }
    }
}

/// One fold step of the arithmetic tier.
pub open spec fn sp_bin_loop(t: Seq<TokenV>, lhs: ExprV, pos: int, min_prec: u8) -> PRes
    decreases plen(t, pos), 3int,
{
    if !(0 <= pos <= t.len()) {
        PRes { res: Ok(Some(lhs)), pos }
    } else {
        let tok = pk(t, pos);
        if is_bin_op(tok) && prec_of(tok) >= min_prec {
            let rhs = sp_binary(t, pos + 1, (prec_of(tok) + 1) as u8);
            match rhs.res {
                Err(e) => PRes { res: Err(e), pos: rhs.pos },
                Ok(None) => PRes { res: Ok(None), pos: rhs.pos },
                Ok(Some(r)) => {
                    let nl = ExprV::Binary { left: Box::new(lhs), op: tok, right: Box::new(r) };
                    if pos < rhs.pos <= t.len() {
                        sp_bin_loop(t, nl, rhs.pos, min_prec)
                    } else {
                        PRes { res: Ok(Some(nl)), pos: rhs.pos }
                    }
                },
            }
        } else {
            PRes { res: Ok(Some(lhs)), pos }
        }
    }
}

/// The comparison tier above arithmetic, folding the comparison operators
/// left to right.
pub open spec fn sp_comparison(t: Seq<TokenV>, pos: int) -> PRes
    decreases plen(t, pos), 4int,
{
    if !(0 <= pos <= t.len()) {
        PRes { res: Ok(None), pos }
    } else {
        let rb = sp_binary(t, pos, 5);
        match rb.res {
            Err(e) => PRes { res: Err(e), pos: rb.pos },
            Ok(None) => PRes { res: Ok(None), pos: rb.pos },
            Ok(Some(lhs)) => {
                if pos < rb.pos <= t.len() {
                    sp_cmp_loop(t, lhs, rb.pos)
                } else {
                    PRes { res: Ok(Some(lhs)), pos: rb.pos }
                }
            },
        }
    }
}

/// One fold step of the comparison tier.
pub open spec fn sp_cmp_loop(t: Seq<TokenV>, lhs: ExprV, pos: int) -> PRes
    decreases plen(t, pos), 5int,
{
    if !(0 <= pos <= t.len()) {
        PRes { res: Ok(Some(lhs)), pos }
    } else {
        let tok = pk(t, pos);
        if is_cmp_op(tok) {
            let rhs = sp_binary(t, pos + 1, 5);
            match rhs.res {
                Err(e) => PRes { res: Err(e), pos: rhs.pos },
                Ok(None) => PRes { res: Ok(None), pos: rhs.pos },
                Ok(Some(r)) => {
                    let nl = ExprV::Binary { left: Box::new(lhs), op: tok, right: Box::new(r) };
                    if pos < rhs.pos <= t.len() {
                        sp_cmp_loop(t, nl, rhs.pos)
                    } else {
                        PRes { res: Ok(Some(nl)), pos: rhs.pos }
                    }
                },
            }
        } else {
            PRes { res: Ok(Some(lhs)), pos }
        }
    }
}

/// An assignment, or just a comparison: `=` after a parsed expression
/// demands that the expression be a variable reference, else parsing fails
/// fatally; the right side is a full expression, so `=` associates to the
/// right.
pub open spec fn sp_assignment(t: Seq<TokenV>, pos: int) -> PRes
    decreases plen(t, pos), 6int,
{
    if !(0 <= pos <= t.len()) {
        PRes { res: Ok(None), pos }
    } else {
        let r = sp_comparison(t, pos);
        match r.res {
            Err(e) => PRes { res: Err(e), pos: r.pos },
            Ok(None) => PRes { res: Ok(None), pos: r.pos },
            Ok(Some(lhs)) => {
                if pk(t, r.pos) == TokenV::Equal {
                    match lhs {
                        ExprV::Variable(name) => {
                            if pos < r.pos + 1 {
                                let rv = sp_expr(t, r.pos + 1);
                                match rv.res {
                                    Err(e) => PRes { res: Err(e), pos: rv.pos },
                                    Ok(None) => PRes { res: Ok(None), pos: rv.pos },
                                    Ok(Some(v)) => PRes {
                                        res: Ok(
                                            Some(
                                                ExprV::Assignment { name, expr: Box::new(v) },
                                            ),
                                        ),
                                        pos: rv.pos,
                                    },
                                }
                            } else {
                                PRes { res: Ok(Some(lhs)), pos: r.pos }
                            }
                        },
                        _ => PRes {
                            res: Err(ParseErrorV::InvalidAssignmentTarget),
                            pos: r.pos + 1,
                        },
                    }
                } else {
                    PRes { res: Ok(Some(lhs)), pos: r.pos }
                }
            },
        }
    }
}

/// An `if` with an optional `else`: condition and branches are full
/// statements.
pub open spec fn sp_if(t: Seq<TokenV>, pos: int) -> PRes
    decreases plen(t, pos), 7int,
{
    if !(0 <= pos < t.len()) {
        PRes { res: Ok(None), pos }
    } else {
        let c = sp_expr(t, pos + 1);
        match c.res {
            Err(e) => PRes { res: Err(e), pos: c.pos },
            Ok(None) => PRes { res: Ok(None), pos: c.pos },
            Ok(Some(cond)) => {
                if pos < c.pos <= t.len() {
                    let tb = sp_expr(t, c.pos);
                    match tb.res {
                        Err(e) => PRes { res: Err(e), pos: tb.pos },
                        Ok(None) => PRes { res: Ok(None), pos: tb.pos },
                        Ok(Some(th)) => {
                            if pk(t, tb.pos) == TokenV::Else && pos <= tb.pos {
                                let eb = sp_expr(t, tb.pos + 1);
                                match eb.res {
                                    Err(e) => PRes { res: Err(e), pos: eb.pos },
                                    Ok(None) => PRes { res: Ok(None), pos: eb.pos },
                                    Ok(Some(el)) => PRes {
                                        res: Ok(
                                            Some(
                                                ExprV::If {
                                                    condition: Box::new(cond),
                                                    then_branch: Box::new(th),
                                                    else_branch: Some(Box::new(el)),
                                                },
                                            ),
                                        ),
                                        pos: eb.pos,
                                    },
                                }
                            } else {
                                PRes {
                                    res: Ok(
                                        Some(
                                            ExprV::If {
                                                condition: Box::new(cond),
                                                then_branch: Box::new(th),
                                                else_branch: None,
                                            },
                                        ),
                                    ),
                                    pos: tb.pos,
                                }
                            }
                        },
                    }
                } else {
                    PRes { res: Ok(None), pos: c.pos }
                }
            },
        }
    }
}

/// A `while` loop: condition, then a body statement.
pub open spec fn sp_while(t: Seq<TokenV>, pos: int) -> PRes
    decreases plen(t, pos), 7int,
{
    if !(0 <= pos < t.len()) {
        PRes { res: Ok(None), pos }
    } else {
        let c = sp_expr(t, pos + 1);
        match c.res {
            Err(e) => PRes { res: Err(e), pos: c.pos },
            Ok(None) => PRes { res: Ok(None), pos: c.pos },
            Ok(Some(cond)) => {
                if pos < c.pos <= t.len() {
                    let b = sp_expr(t, c.pos);
                    match b.res {
                        Err(e) => PRes { res: Err(e), pos: b.pos },
                        Ok(None) => PRes { res: Ok(None), pos: b.pos },
                        Ok(Some(body)) => PRes {
                            res: Ok(
                                Some(
                                    ExprV::While {
                                        condition: Box::new(cond),
                                        body: Box::new(body),
                                    },
                                ),
                            ),
                            pos: b.pos,
                        },
                    }
                } else {
                    PRes { res: Ok(None), pos: c.pos }
                }
            },
        }
    }
}

/// A `return` statement; it carries its operand expression.
pub open spec fn sp_return(t: Seq<TokenV>, pos: int) -> PRes
    decreases plen(t, pos), 7int,
{
    if !(0 <= pos < t.len()) {
        PRes { res: Ok(None), pos }
    } else {
        let v = sp_expr(t, pos + 1);
        match v.res {
            Err(e) => PRes { res: Err(e), pos: v.pos },
            Ok(None) => PRes { res: Ok(None), pos: v.pos },
            Ok(Some(e2)) => PRes { res: Ok(Some(ExprV::Return(Box::new(e2)))), pos: v.pos },
        }
    }
}

/// The statements of a block, up to the closing brace, which stays
/// unconsumed here; a statement that parses to nothing is skipped.
pub open spec fn sp_items(t: Seq<TokenV>, pos: int) -> LRes
    decreases plen(t, pos), 9int,
{
    if !(0 <= pos <= t.len()) {
        LRes { res: Ok(Seq::empty()), pos }
    } else if pk(t, pos) == TokenV::RBrace || pk(t, pos) == TokenV::Eof {
        LRes { res: Ok(Seq::empty()), pos }
    } else {
        let r = sp_expr(t, pos);
        match r.res {
            Err(e) => LRes { res: Err(e), pos: r.pos },
            Ok(opt) => {
                let head = match opt {
                    Some(a) => seq![a],
                    None => Seq::<ExprV>::empty(),
                };
                let p2 = match opt {
                    Some(a) => if pk(t, r.pos) == TokenV::Semicolon {
                        r.pos + 1
                    } else {
                        r.pos
                    },
                    None => r.pos,
                };
                if pos < p2 <= t.len() {
                    let rest = sp_items(t, p2);
                    match rest.res {
                        Err(e2) => LRes { res: Err(e2), pos: rest.pos },
                        Ok(tail) => LRes { res: Ok(head + tail), pos: rest.pos },
                    }
                } else {
                    LRes { res: Ok(head), pos: p2 }
                }
            },
        }
    }
}

/// A block `{ ... }`; a missing closing brace is tolerated.
pub open spec fn sp_block(t: Seq<TokenV>, pos: int) -> PRes
    decreases plen(t, pos), 7int,
{
    if !(0 <= pos < t.len()) {
        PRes { res: Ok(None), pos }
    } else {
        let it = sp_items(t, pos + 1);
        match it.res {
            Err(e) => PRes { res: Err(e), pos: it.pos },
            Ok(stmts) => {
                let p2 = if pk(t, it.pos) == TokenV::RBrace {
                    it.pos + 1
                } else {
                    it.pos
                };
                PRes { res: Ok(Some(ExprV::Block(stmts))), pos: p2 }
            },
        }
    }
}

/// One statement: an `if`, `while`, block or `return` by its leading
/// token, else an assignment or bare expression.
pub open spec fn sp_expr(t: Seq<TokenV>, pos: int) -> PRes
    decreases plen(t, pos), 8int,
{
    if !(0 <= pos <= t.len()) {
        PRes { res: Ok(None), pos }
    } else {
        match pk(t, pos) {
            TokenV::If => sp_if(t, pos),
            TokenV::While => sp_while(t, pos),
            TokenV::LBrace => sp_block(t, pos),
            TokenV::Return => sp_return(t, pos),
            _ => sp_assignment(t, pos),
        }
    }
}

/// The whole program: statements until the end-of-input marker, each with
/// an optional trailing semicolon; a statement that parses to nothing is a
/// fatal syntax error naming the token the parser stopped near.
pub open spec fn sp_parse(t: Seq<TokenV>, pos: int) -> LRes
    decreases plen(t, pos), 10int,
{
    if !(0 <= pos <= t.len()) {
        LRes { res: Ok(Seq::empty()), pos }
    } else if pk(t, pos) == TokenV::Eof {
        LRes { res: Ok(Seq::empty()), pos }
    } else {
        let r = sp_expr(t, pos);
        match r.res {
            Err(e) => LRes { res: Err(e), pos: r.pos },
            Ok(None) => LRes { res: Err(ParseErrorV::Syntax(pk(t, r.pos))), pos: r.pos },
            Ok(Some(e2)) => {
                let p2 = if pk(t, r.pos) == TokenV::Semicolon {
                    r.pos + 1
                } else {
                    r.pos
                };
                if pos < p2 <= t.len() {
                    let rest = sp_parse(t, p2);
                    match rest.res {
                        Err(e3) => LRes { res: Err(e3), pos: rest.pos },
                        Ok(tail) => LRes { res: Ok(seq![e2] + tail), pos: rest.pos },
                    }
                } else {
                    LRes { res: Ok(seq![e2]), pos: p2 }
                }
            },
        }
    }
}

// ---------------------------------------------------------------------------
// Every parsing step stays inside the token list and, when there is a token
// to look at, moves past at least one.
// ---------------------------------------------------------------------------

pub proof fn lemma_pos_primary(t: Seq<TokenV>, pos: int)
    requires
        0 <= pos <= t.len(),
    ensures
        pos <= sp_primary(t, pos).pos <= t.len(),
        pos < t.len() ==> pos < sp_primary(t, pos).pos,
    decreases plen(t, pos), 1int,
{
    let p1 = if pos < t.len() {
        pos + 1
    } else {
        pos
    };
    match pk(t, pos) {
        TokenV::Identifier(name) => {
            if pk(t, p1) == TokenV::LParen {
                lemma_pos_args(t, p1 + 1);
            }
        },
        TokenV::LParen => {
            lemma_pos_expr(t, p1);
        },
        _ => {},
    }
}

pub proof fn lemma_pos_args(t: Seq<TokenV>, pos: int)
    requires
        0 <= pos <= t.len(),
    ensures
        pos <= sp_args(t, pos).pos <= t.len(),
    decreases plen(t, pos), 9int,
{
    if pk(t, pos) != TokenV::RParen {
        lemma_pos_expr(t, pos);
        let r = sp_expr(t, pos);
        if r.res is Ok {
            if pk(t, r.pos) == TokenV::Comma && pos < r.pos + 1 {
                lemma_pos_args(t, r.pos + 1);
            }
        }
    }
}

pub proof fn lemma_pos_binary(t: Seq<TokenV>, pos: int, min_prec: u8)
    requires
        0 <= pos <= t.len(),
    ensures
        pos <= sp_binary(t, pos, min_prec).pos <= t.len(),
        pos < t.len() ==> pos < sp_binary(t, pos, min_prec).pos,
    decreases plen(t, pos), 2int,
{
    lemma_pos_primary(t, pos);
    let rp = sp_primary(t, pos);
    match rp.res {
        Ok(Some(lhs)) => {
            if pos < rp.pos <= t.len() {
                lemma_pos_bin_loop(t, lhs, rp.pos, min_prec);
            }
        },
        _ => {},
    }
}

pub proof fn lemma_pos_bin_loop(t: Seq<TokenV>, lhs: ExprV, pos: int, min_prec: u8)
    requires
        0 <= pos <= t.len(),
    ensures
        pos <= sp_bin_loop(t, lhs, pos, min_prec).pos <= t.len(),
    decreases plen(t, pos), 3int,
{
    let tok = pk(t, pos);
    if is_bin_op(tok) && prec_of(tok) >= min_prec {
        lemma_pos_binary(t, pos + 1, (prec_of(tok) + 1) as u8);
        let rhs = sp_binary(t, pos + 1, (prec_of(tok) + 1) as u8);
        match rhs.res {
            Ok(Some(r)) => {
                let nl = ExprV::Binary { left: Box::new(lhs), op: tok, right: Box::new(r) };
                if pos < rhs.pos <= t.len() {
                    lemma_pos_bin_loop(t, nl, rhs.pos, min_prec);
                }
            },
            _ => {},
        }
    }
}

pub proof fn lemma_pos_comparison(t: Seq<TokenV>, pos: int)
    requires
        0 <= pos <= t.len(),
    ensures
        pos <= sp_comparison(t, pos).pos <= t.len(),
        pos < t.len() ==> pos < sp_comparison(t, pos).pos,
    decreases plen(t, pos), 4int,
{
    lemma_pos_binary(t, pos, 5);
    let rb = sp_binary(t, pos, 5);
    match rb.res {
        Ok(Some(lhs)) => {
            if pos < rb.pos <= t.len() {
                lemma_pos_cmp_loop(t, lhs, rb.pos);
            }
        },
        _ => {},
    }
}

pub proof fn lemma_pos_cmp_loop(t: Seq<TokenV>, lhs: ExprV, pos: int)
    requires
        0 <= pos <= t.len(),
    ensures
        pos <= sp_cmp_loop(t, lhs, pos).pos <= t.len(),
    decreases plen(t, pos), 5int,
{
    let tok = pk(t, pos);
    if is_cmp_op(tok) {
        lemma_pos_binary(t, pos + 1, 5);
        let rhs = sp_binary(t, pos + 1, 5);
        match rhs.res {
            Ok(Some(r)) => {
                let nl = ExprV::Binary { left: Box::new(lhs), op: tok, right: Box::new(r) };
                if pos < rhs.pos <= t.len() {
                    lemma_pos_cmp_loop(t, nl, rhs.pos);
                }
            },
            _ => {},
        }
    }
}

pub proof fn lemma_pos_assignment(t: Seq<TokenV>, pos: int)
    requires
        0 <= pos <= t.len(),
    ensures
        pos <= sp_assignment(t, pos).pos <= t.len(),
        pos < t.len() ==> pos < sp_assignment(t, pos).pos,
    decreases plen(t, pos), 6int,
{
    lemma_pos_comparison(t, pos);
    let r = sp_comparison(t, pos);
    match r.res {
        Ok(Some(lhs)) => {
            if pk(t, r.pos) == TokenV::Equal {
                match lhs {
                    ExprV::Variable(name) => {
                        if pos < r.pos + 1 {
                            lemma_pos_expr(t, r.pos + 1);
                        }
                    },
                    _ => {},
                }
            }
        },
        _ => {},
    }
}

pub proof fn lemma_pos_if(t: Seq<TokenV>, pos: int)
    requires
        0 <= pos <= t.len(),
    ensures
        pos <= sp_if(t, pos).pos <= t.len(),
        pos < t.len() ==> pos < sp_if(t, pos).pos,
    decreases plen(t, pos), 7int,
{
    if 0 <= pos < t.len() {
        lemma_pos_expr(t, pos + 1);
        let c = sp_expr(t, pos + 1);
        match c.res {
            Ok(Some(cond)) => {
                if pos < c.pos <= t.len() {
                    lemma_pos_expr(t, c.pos);
                    let tb = sp_expr(t, c.pos);
                    match tb.res {
                        Ok(Some(th)) => {
                            if pk(t, tb.pos) == TokenV::Else && pos <= tb.pos {
                                lemma_pos_expr(t, tb.pos + 1);
                            }
                        },
                        _ => {},
                    }
                }
            },
            _ => {},
        }
    }
}

pub proof fn lemma_pos_while(t: Seq<TokenV>, pos: int)
    requires
        0 <= pos <= t.len(),
    ensures
        pos <= sp_while(t, pos).pos <= t.len(),
        pos < t.len() ==> pos < sp_while(t, pos).pos,
    decreases plen(t, pos), 7int,
{
    if 0 <= pos < t.len() {
        lemma_pos_expr(t, pos + 1);
        let c = sp_expr(t, pos + 1);
        match c.res {
            Ok(Some(cond)) => {
                if pos < c.pos <= t.len() {
                    lemma_pos_expr(t, c.pos);
                }
            },
            _ => {},
        }
    }
}

pub proof fn lemma_pos_return(t: Seq<TokenV>, pos: int)
    requires
        0 <= pos <= t.len(),
    ensures
        pos <= sp_return(t, pos).pos <= t.len(),
        pos < t.len() ==> pos < sp_return(t, pos).pos,
    decreases plen(t, pos), 7int,
{
    if 0 <= pos < t.len() {
        lemma_pos_expr(t, pos + 1);
    }
}

pub proof fn lemma_pos_items(t: Seq<TokenV>, pos: int)
    requires
        0 <= pos <= t.len(),
    ensures
        pos <= sp_items(t, pos).pos <= t.len(),
    decreases plen(t, pos), 9int,
{
    if pk(t, pos) != TokenV::RBrace && pk(t, pos) != TokenV::Eof {
        lemma_pos_expr(t, pos);
        let r = sp_expr(t, pos);
        match r.res {
            Ok(opt) => {
                let p2 = match opt {
                    Some(a) => if pk(t, r.pos) == TokenV::Semicolon {
                        r.pos + 1
                    } else {
                        r.pos
                    },
                    None => r.pos,
                };
                if pos < p2 <= t.len() {
                    lemma_pos_items(t, p2);
                }
            },
            _ => {},
        }
    }
}

pub proof fn lemma_pos_block(t: Seq<TokenV>, pos: int)
    requires
        0 <= pos <= t.len(),
    ensures
        pos <= sp_block(t, pos).pos <= t.len(),
        pos < t.len() ==> pos < sp_block(t, pos).pos,
    decreases plen(t, pos), 7int,
{
    if 0 <= pos < t.len() {
        lemma_pos_items(t, pos + 1);
    }
}

pub proof fn lemma_pos_expr(t: Seq<TokenV>, pos: int)
    requires
        0 <= pos <= t.len(),
    ensures
        pos <= sp_expr(t, pos).pos <= t.len(),
        pos < t.len() ==> pos < sp_expr(t, pos).pos,
    decreases plen(t, pos), 8int,
{
    match pk(t, pos) {
        TokenV::If => lemma_pos_if(t, pos),
        TokenV::While => lemma_pos_while(t, pos),
        TokenV::LBrace => lemma_pos_block(t, pos),
        TokenV::Return => lemma_pos_return(t, pos),
        _ => lemma_pos_assignment(t, pos),
    }
}

proof fn lemma_seq_assoc_expr(a: Seq<ExprV>, b: Seq<ExprV>, c: Seq<ExprV>)
    ensures
        (a + b) + c == a + (b + c),
{
    assert((a + b) + c =~= a + (b + c));
}

/// The image of an executable parsing result.
pub open spec fn res_view(r: Result<Option<Expr>, ParseError>) -> Result<
    Option<ExprV>,
    ParseErrorV,
> {
    match r {
        Ok(None) => Ok(None),
        Ok(Some(e)) => Ok(Some(expr_view(e))),
        Err(e) => Err(e@),
    }
}

/// Operator binding strength, as `prec_of` describes.
pub fn get_precedence(tok: &Token) -> (p: u8)
    ensures
        p == prec_of(tok@),
{
    match tok {
        Token::Star => 10,
        Token::Slash => 10,
        Token::Plus => 5,
        Token::Minus => 5,
        _ => 0,
    }
}

/// The recursive-descent parser: a token list and a cursor into it.
pub struct Parser {
    tokens: Vec<Token>,
    pos: usize,
}

impl Parser {
    /// The tokens being parsed.
    pub closed spec fn toks(&self) -> Seq<TokenV> {
        toks_view(self.tokens@)
    }

    /// The cursor.
    pub closed spec fn at(&self) -> int {
        self.pos as int
    }

    /// The cursor never runs past the end of the token list.
    pub closed spec fn wf(&self) -> bool {
        self.pos <= self.tokens.len()
    }

    pub fn new(tokens: Vec<Token>) -> (r: Parser)
        ensures
            r.wf(),
            r.toks() == toks_view(tokens@),
            r.at() == 0,
    {
        Parser { tokens, pos: 0 }
    }

    /// The token at the cursor, with the end marker past the end.
    fn peek(&self) -> (r: Token)
        ensures
            r@ == pk(self.toks(), self.at()),
    {
        if self.pos < self.tokens.len() {
            self.tokens[self.pos].clone()
        } else {
            Token::Eof
        }
    }

    /// Returns the token at the cursor and moves past it.
    fn next(&mut self) -> (r: Token)
        requires
            old(self).wf(),
        ensures
            final(self).wf(),
            final(self).toks() == old(self).toks(),
            r@ == pk(old(self).toks(), old(self).at()),
            final(self).at() == (if old(self).at() < old(self).toks().len() {
                old(self).at() + 1
            } else {
                old(self).at()
            }),
    {
        let tok = self.peek();
        if self.pos < self.tokens.len() {
            self.pos = self.pos + 1;
        }
        tok
    }

    /// The whole program: top-level statements until the end of input.
    /// Any statement that parses to nothing is a fatal syntax error.
    #[verifier::rlimit(100)]
    pub fn parse(&mut self) -> (r: Result<Vec<Expr>, ParseError>)
        requires
            old(self).wf(),
        ensures
            final(self).wf(),
            final(self).toks() == old(self).toks(),
            final(self).at() == sp_parse(old(self).toks(), old(self).at()).pos,
            match r {
                Ok(v) => sp_parse(old(self).toks(), old(self).at()).res == Result::<Seq<ExprV>, ParseErrorV>::Ok(exprs_view(v@)),
                Err(e) => sp_parse(old(self).toks(), old(self).at()).res == Result::<Seq<ExprV>, ParseErrorV>::Err(e@),
            },
    {
        let ghost t = self.toks();
        let ghost pos0 = self.at();
        let mut exprs: Vec<Expr> = Vec::new();
        loop
            invariant_except_break
                self.wf(),
                self.toks() == t,
                t == old(self).toks(),
                pos0 == old(self).at(),
                0 <= self.at() <= t.len(),
                ({
                    let full = sp_parse(t, pos0);
                    let rest = sp_parse(t, self.at());
                    match rest.res {
                        Ok(tail) => full.res == Result::<Seq<ExprV>, ParseErrorV>::Ok(
                            exprs_view(exprs@) + tail,
                        ) && full.pos == rest.pos,
                        Err(e) => full.res == Result::<Seq<ExprV>, ParseErrorV>::Err(e) && full.pos
                            == rest.pos,
                    }
                }),
            ensures
                self.wf(),
                self.toks() == t,
                t == old(self).toks(),
                pos0 == old(self).at(),
                sp_parse(t, pos0).res == Result::<Seq<ExprV>, ParseErrorV>::Ok(
                    exprs_view(exprs@),
                ),
                sp_parse(t, pos0).pos == self.at(),
            decreases t.len() - self.at(),
        {
            let ghost pp = self.at();
            let la = self.peek();
            if la == Token::Eof {
                proof {
                    assert(exprs_view(exprs@) + Seq::<ExprV>::empty() =~= exprs_view(exprs@));
                }
                break ;
            }
            proof {
                lemma_pos_expr(t, pp);
            }
            match self.parse_expr() {
                Err(e) => {
                    return Err(e);
                },
                Ok(None) => {
                    let near = self.peek();
                    return Err(ParseError::Syntax(near));
                },
                Ok(Some(e2)) => {
                    let ghost ev = expr_view(e2);
                    let ghost oldx = exprs@;
                    exprs.push(e2);
                    self.eat(&Token::Semicolon);
                    proof {
                        assert(exprs_view(exprs@) =~= exprs_view(oldx) + seq![ev]);
                        let rest2 = sp_parse(t, self.at());
                        match rest2.res {
                            Ok(tail2) => {
                                lemma_seq_assoc_expr(exprs_view(oldx), seq![ev], tail2);
                            },
                            Err(e3) => {},
                        }
                    }
                },
            }
        }
        Ok(exprs)
    }

    /// One statement, dispatched on its leading token.
    fn parse_expr(&mut self) -> (r: Result<Option<Expr>, ParseError>)
        requires
            old(self).wf(),
        ensures
            final(self).wf(),
            final(self).toks() == old(self).toks(),
            res_view(r) == sp_expr(old(self).toks(), old(self).at()).res,
            final(self).at() == sp_expr(old(self).toks(), old(self).at()).pos,
        decreases plen(self.toks(), self.at()), 8int,
    {
        let la = self.peek();
        match la {
            Token::If => self.parse_if(),
            Token::While => self.parse_while(),
            Token::LBrace => self.parse_block(),
            Token::Return => self.parse_return(),
            _ => self.parse_assignment(),
        }
    }

    /// An assignment, or the comparison it starts with.
    fn parse_assignment(&mut self) -> (r: Result<Option<Expr>, ParseError>)
        requires
            old(self).wf(),
        ensures
            final(self).wf(),
            final(self).toks() == old(self).toks(),
            res_view(r) == sp_assignment(old(self).toks(), old(self).at()).res,
            final(self).at() == sp_assignment(old(self).toks(), old(self).at()).pos,
        decreases plen(self.toks(), self.at()), 6int,
    {
        let ghost t = self.toks();
        let ghost pos0 = self.at();
        proof {
            lemma_pos_comparison(t, pos0);
        }
        let e = match self.parse_comparison() {
            Err(e2) => {
                return Err(e2);
            },
            Ok(None) => {
                return Ok(None);
            },
            Ok(Some(e2)) => e2,
        };
        let la = self.peek();
        if la == Token::Equal {
            let _ = self.next();
            match e {
                Expr::Variable(name) => {
                    let value = match self.parse_expr() {
                        Err(e2) => {
                            return Err(e2);
                        },
                        Ok(None) => {
                            return Ok(None);
                        },
                        Ok(Some(v)) => v,
                    };
                    Ok(Some(Expr::Assignment { name, expr: Box::new(value) }))
                },
                _ => Err(ParseError::InvalidAssignmentTarget),
            }
        } else {
            Ok(Some(e))
        }
    }

    /// The comparison tier.
    fn parse_comparison(&mut self) -> (r: Result<Option<Expr>, ParseError>)
        requires
            old(self).wf(),
        ensures
            final(self).wf(),
            final(self).toks() == old(self).toks(),
            res_view(r) == sp_comparison(old(self).toks(), old(self).at()).res,
            final(self).at() == sp_comparison(old(self).toks(), old(self).at()).pos,
        decreases plen(self.toks(), self.at()), 4int,
    {
        let ghost t = self.toks();
        let ghost pos0 = self.at();
        proof {
            lemma_pos_binary(t, pos0, 5);
        }
        let mut e = match self.parse_binary(5) {
            Err(e2) => {
                return Err(e2);
            },
            Ok(None) => {
                return Ok(None);
            },
            Ok(Some(e2)) => e2,
        };
        loop
            invariant_except_break
                self.wf(),
                self.toks() == t,
                t == old(self).toks(),
                pos0 == old(self).at(),
                pos0 < self.at() <= t.len(),
                sp_cmp_loop(t, expr_view(e), self.at()) == sp_comparison(t, pos0),
            ensures
                self.wf(),
                self.toks() == t,
                t == old(self).toks(),
                ({
                    let g = sp_comparison(t, pos0);
                    g.res == Result::<Option<ExprV>, ParseErrorV>::Ok(Some(expr_view(e)))
                        && g.pos == self.at()
                }),
            decreases t.len() - self.at(),
        {
            let ghost pp = self.at();
            let la = self.peek();
            let isop = match la {
                Token::EqualEqual => true,
                Token::BangEqual => true,
                Token::Less => true,
                Token::LessEqual => true,
                _ => false,
            };
            if !isop {
                break ;
            }
            let op = self.next();
            proof {
                lemma_pos_binary(t, self.at(), 5);
            }
            let right = match self.parse_binary(5) {
                Err(e2) => {
                    return Err(e2);
                },
                Ok(None) => {
                    return Ok(None);
                },
                Ok(Some(e2)) => e2,
            };
            e = Expr::Binary { left: Box::new(e), op, right: Box::new(right) };
        }
        Ok(Some(e))
    }

    /// The arithmetic tier, by precedence climbing.
    fn parse_binary(&mut self, min_prec: u8) -> (r: Result<Option<Expr>, ParseError>)
        requires
            old(self).wf(),
        ensures
            final(self).wf(),
            final(self).toks() == old(self).toks(),
            res_view(r) == sp_binary(old(self).toks(), old(self).at(), min_prec).res,
            final(self).at() == sp_binary(old(self).toks(), old(self).at(), min_prec).pos,
        decreases plen(self.toks(), self.at()), 2int,
    {
        let ghost t = self.toks();
        let ghost pos0 = self.at();
        proof {
            lemma_pos_primary(t, pos0);
        }
        let mut lhs = match self.parse_primary() {
            Err(e2) => {
                return Err(e2);
            },
            Ok(None) => {
                return Ok(None);
            },
            Ok(Some(e2)) => e2,
        };
        loop
            invariant_except_break
                self.wf(),
                self.toks() == t,
                t == old(self).toks(),
                pos0 == old(self).at(),
                pos0 < self.at() <= t.len(),
                sp_bin_loop(t, expr_view(lhs), self.at(), min_prec) == sp_binary(t, pos0, min_prec),
            ensures
                self.wf(),
                self.toks() == t,
                t == old(self).toks(),
                ({
                    let g = sp_binary(t, pos0, min_prec);
                    g.res == Result::<Option<ExprV>, ParseErrorV>::Ok(Some(expr_view(lhs)))
                        && g.pos == self.at()
                }),
            decreases t.len() - self.at(),
        {
            let ghost pp = self.at();
            let la = self.peek();
            let isop = match la {
                Token::Plus => true,
                Token::Minus => true,
                Token::Star => true,
                Token::Slash => true,
                _ => false,
            };
            if !isop {
                break ;
            }
            let prec = get_precedence(&la);
            if prec < min_prec {
                break ;
            }
            let op = self.next();
            proof {
                lemma_pos_binary(t, self.at(), (prec + 1) as u8);
            }
            let rhs = match self.parse_binary(prec + 1) {
                Err(e2) => {
                    return Err(e2);
                },
                Ok(None) => {
                    return Ok(None);
                },
                Ok(Some(e2)) => e2,
            };
            lhs = Expr::Binary { left: Box::new(lhs), op, right: Box::new(rhs) };
        }
        Ok(Some(lhs))
    }

    /// An `if` with an optional `else` branch.
    fn parse_if(&mut self) -> (r: Result<Option<Expr>, ParseError>)
        requires
            old(self).wf(),
            pk(old(self).toks(), old(self).at()) == TokenV::If,
        ensures
            final(self).wf(),
            final(self).toks() == old(self).toks(),
            res_view(r) == sp_if(old(self).toks(), old(self).at()).res,
            final(self).at() == sp_if(old(self).toks(), old(self).at()).pos,
        decreases plen(self.toks(), self.at()), 7int,
    {
        let ghost t = self.toks();
        let ghost pos0 = self.at();
        let _ = self.next();
        proof {
            lemma_pos_expr(t, self.at());
        }
        let condition = match self.parse_expr() {
            Err(e2) => {
                return Err(e2);
            },
            Ok(None) => {
                return Ok(None);
            },
            Ok(Some(c)) => c,
        };
        proof {
            lemma_pos_expr(t, self.at());
        }
        let then_branch = match self.parse_expr() {
            Err(e2) => {
                return Err(e2);
            },
            Ok(None) => {
                return Ok(None);
            },
            Ok(Some(tb)) => Box::new(tb),
        };
        let la = self.peek();
        let else_branch = if la == Token::Else {
            let _ = self.next();
            proof {
                lemma_pos_expr(t, self.at());
            }
            match self.parse_expr() {
                Err(e2) => {
                    return Err(e2);
                },
                Ok(None) => {
                    return Ok(None);
                },
                Ok(Some(eb)) => Some(Box::new(eb)),
            }
        } else {
            None
        };
        Ok(Some(Expr::If { condition: Box::new(condition), then_branch, else_branch }))
    }

    /// A `while` loop: condition, then body.
    fn parse_while(&mut self) -> (r: Result<Option<Expr>, ParseError>)
        requires
            old(self).wf(),
            pk(old(self).toks(), old(self).at()) == TokenV::While,
        ensures
            final(self).wf(),
            final(self).toks() == old(self).toks(),
            res_view(r) == sp_while(old(self).toks(), old(self).at()).res,
            final(self).at() == sp_while(old(self).toks(), old(self).at()).pos,
        decreases plen(self.toks(), self.at()), 7int,
    {
        let ghost t = self.toks();
        let _ = self.next();
        proof {
            lemma_pos_expr(t, self.at());
        }
        let condition = match self.parse_expr() {
            Err(e2) => {
                return Err(e2);
            },
            Ok(None) => {
                return Ok(None);
            },
            Ok(Some(c)) => c,
        };
        proof {
            lemma_pos_expr(t, self.at());
        }
        let body = match self.parse_expr() {
            Err(e2) => {
                return Err(e2);
            },
            Ok(None) => {
                return Ok(None);
            },
            Ok(Some(b)) => Box::new(b),
        };
        Ok(Some(Expr::While { condition: Box::new(condition), body }))
    }

    /// A `return` statement with its operand.
    fn parse_return(&mut self) -> (r: Result<Option<Expr>, ParseError>)
        requires
            old(self).wf(),
            pk(old(self).toks(), old(self).at()) == TokenV::Return,
        ensures
            final(self).wf(),
            final(self).toks() == old(self).toks(),
            res_view(r) == sp_return(old(self).toks(), old(self).at()).res,
            final(self).at() == sp_return(old(self).toks(), old(self).at()).pos,
        decreases plen(self.toks(), self.at()), 7int,
    {
        let ghost t = self.toks();
        let _ = self.next();
        proof {
            lemma_pos_expr(t, self.at());
        }
        match self.parse_expr() {
            Err(e2) => Err(e2),
            Ok(None) => Ok(None),
            Ok(Some(v)) => Ok(Some(Expr::Return(Box::new(v)))),
        }
    }

    /// A block `{ ... }`; statements until the closing brace, which is
    /// tolerated if missing.
    #[verifier::rlimit(100)]
    fn parse_block(&mut self) -> (r: Result<Option<Expr>, ParseError>)
        requires
            old(self).wf(),
            pk(old(self).toks(), old(self).at()) == TokenV::LBrace,
        ensures
            final(self).wf(),
            final(self).toks() == old(self).toks(),
            res_view(r) == sp_block(old(self).toks(), old(self).at()).res,
            final(self).at() == sp_block(old(self).toks(), old(self).at()).pos,
        decreases plen(self.toks(), self.at()), 7int,
    {
        let ghost t = self.toks();
        let ghost pos0 = self.at();
        let _ = self.eat(&Token::LBrace);
        let ghost istart = self.at();
        let mut exprs: Vec<Expr> = Vec::new();
        loop
            invariant_except_break
                self.wf(),
                self.toks() == t,
                t == old(self).toks(),
                pos0 == old(self).at(),
                istart == pos0 + 1,
                istart <= self.at() <= t.len(),
                ({
                    let full = sp_items(t, istart);
                    let rest = sp_items(t, self.at());
                    match rest.res {
                        Ok(tail) => full.res == Result::<Seq<ExprV>, ParseErrorV>::Ok(
                            exprs_view(exprs@) + tail,
                        ) && full.pos == rest.pos,
                        Err(e) => full.res == Result::<Seq<ExprV>, ParseErrorV>::Err(e) && full.pos
                            == rest.pos,
                    }
                }),
            ensures
                self.wf(),
                self.toks() == t,
                sp_items(t, istart).res == Result::<Seq<ExprV>, ParseErrorV>::Ok(
                    exprs_view(exprs@),
                ),
                sp_items(t, istart).pos == self.at(),
            decreases t.len() - self.at(),
        {
            let ghost pp = self.at();
            let la = self.peek();
            let stop = match la {
                Token::RBrace => true,
                Token::Eof => true,
                _ => false,
            };
            if stop {
                proof {
                    assert(exprs_view(exprs@) + Seq::<ExprV>::empty() =~= exprs_view(exprs@));
                }
                break ;
            }
            proof {
                lemma_pos_expr(t, pp);
            }
            let ghost oldx = exprs@;
            let ghost mut hseq = Seq::<ExprV>::empty();
            match self.parse_expr() {
                Err(e2) => {
                    return Err(e2);
                },
                Ok(None) => {},
                Ok(Some(e2)) => {
                    proof {
                        hseq = seq![expr_view(e2)];
                    }
                    exprs.push(e2);
                    let _ = self.eat(&Token::Semicolon);
                    proof {
                        assert(exprs_view(exprs@) =~= exprs_view(oldx) + hseq);
                    }
                },
            }
            proof {
                assert(exprs_view(exprs@) =~= exprs_view(oldx) + hseq);
                let r2 = sp_expr(t, pp);
                let spec_head = (match r2.res {
                    Ok(Some(a2)) => seq![a2],
                    _ => Seq::<ExprV>::empty(),
                });
                assert(spec_head == hseq);
                let rest2 = sp_items(t, self.at());
                match rest2.res {
                    Ok(tail2) => {
                        lemma_seq_assoc_expr(exprs_view(oldx), hseq, tail2);
                        assert(exprs_view(exprs@) + tail2 == (exprs_view(oldx) + (hseq + tail2)));
                    },
                    Err(e3) => {},
                }
            }
        }
        let _ = self.eat(&Token::RBrace);
        let ghost gex = exprs@;
        let node = Expr::Block(exprs);
        proof {
            let s2 = (match expr_view(node) {
                ExprV::Block(x) => x,
                _ => Seq::<ExprV>::empty(),
            });
            assert(s2 =~= exprs_view(gex));
            assert(expr_view(node) == ExprV::Block(exprs_view(gex)));
        }
        Ok(Some(node))
    }

    /// A primary expression; always consumes the token it looks at.
    #[verifier::rlimit(100)]
    fn parse_primary(&mut self) -> (r: Result<Option<Expr>, ParseError>)
        requires
            old(self).wf(),
        ensures
            final(self).wf(),
            final(self).toks() == old(self).toks(),
            res_view(r) == sp_primary(old(self).toks(), old(self).at()).res,
            final(self).at() == sp_primary(old(self).toks(), old(self).at()).pos,
        decreases plen(self.toks(), self.at()), 1int,
    {
        let ghost t = self.toks();
        let ghost pos0 = self.at();
        let tok = self.next();
        match tok {
            Token::Number(n) => Ok(Some(Expr::Number(n))),
            Token::Str(s) => Ok(Some(Expr::StringLiteral(s))),
            Token::Identifier(name) => {
                let la = self.peek();
                if la == Token::LParen {
                    let ghost gname = name@;
                    let _ = self.next();
                    let ghost argstart = self.at();
                    let mut args: Vec<Expr> = Vec::new();
                    loop
                        invariant_except_break
                            self.wf(),
                            self.toks() == t,
                            t == old(self).toks(),
                            pos0 == old(self).at(),
                            pk(t, pos0) == TokenV::Identifier(gname),
                            pk(t, pos0 + 1) == TokenV::LParen,
                            argstart == pos0 + 2,
                            argstart <= self.at() <= t.len(),
                            ({
                                let full = sp_args(t, argstart);
                                let rest = sp_args(t, self.at());
                                match rest.res {
                                    Ok(tail) => full.res == Result::<
                                        Seq<ExprV>,
                                        ParseErrorV,
                                    >::Ok(exprs_view(args@) + tail) && full.pos == rest.pos,
                                    Err(e) => full.res == Result::<Seq<ExprV>, ParseErrorV>::Err(e)
                                        && full.pos == rest.pos,
                                }
                            }),
                        ensures
                            self.wf(),
                            self.toks() == t,
                            sp_args(t, argstart).res == Result::<Seq<ExprV>, ParseErrorV>::Ok(
                                exprs_view(args@),
                            ),
                            sp_args(t, argstart).pos == self.at(),
                        decreases t.len() - self.at(),
                    {
                        let ghost pp = self.at();
                        let la2 = self.peek();
                        if la2 == Token::RParen {
                            proof {
                                assert(exprs_view(args@) + Seq::<ExprV>::empty() =~= exprs_view(
                                    args@,
                                ));
                            }
                            break ;
                        }
                        proof {
                            lemma_pos_expr(t, pp);
                        }
                        let ghost oldargs = args@;
                        let ghost mut hseq = Seq::<ExprV>::empty();
                        match self.parse_expr() {
                            Err(e2) => {
                                return Err(e2);
                            },
                            Ok(None) => {},
                            Ok(Some(a)) => {
                                proof {
                                    hseq = seq![expr_view(a)];
                                }
                                args.push(a);
                                proof {
                                    assert(exprs_view(args@) =~= exprs_view(oldargs) + hseq);
                                }
                            },
                        }
                        proof {
                            assert(exprs_view(args@) =~= exprs_view(oldargs) + hseq);
                            let r2 = sp_expr(t, pp);
                            let spec_head = (match r2.res {
                                Ok(Some(a2)) => seq![a2],
                                _ => Seq::<ExprV>::empty(),
                            });
                            assert(spec_head == hseq);
                        }
                        let la3 = self.peek();
                        if la3 == Token::Comma {
                            let _ = self.next();
                            proof {
                                let rest2 = sp_args(t, self.at());
                                match rest2.res {
                                    Ok(tail2) => {
                                        lemma_seq_assoc_expr(exprs_view(oldargs), hseq, tail2);
                                        assert(exprs_view(args@) + tail2 == (exprs_view(oldargs) + (
                                        hseq + tail2)));
                                    },
                                    Err(e3) => {},
                                }
                            }
                        } else {
                            break ;
                        }
                    }
                    let _ = self.eat(&Token::RParen);
                    let ghost gargs = args@;
                    let ghost gname = name@;
                    let node = Expr::FunctionCall { name, args };
                    proof {
                        let s2 = (match expr_view(node) {
                            ExprV::FunctionCall { name: _, args: x } => x,
                            _ => Seq::<ExprV>::empty(),
                        });
                        assert(s2 =~= exprs_view(gargs));
                        assert(expr_view(node) == (ExprV::FunctionCall {
                            name: gname,
                            args: exprs_view(gargs),
                        }));
                    }
                    Ok(Some(node))
                } else {
                    Ok(Some(Expr::Variable(name)))
                }
            },
            Token::LParen => {
                proof {
                    lemma_pos_expr(t, self.at());
                }
                match self.parse_expr() {
                    Err(e2) => Err(e2),
                    Ok(None) => Ok(None),
                    Ok(Some(e2)) => {
                        let _ = self.eat(&Token::RParen);
                        Ok(Some(e2))
                    },
                }
            },
            Token::Break => Ok(Some(Expr::Break)),
            Token::Continue => Ok(Some(Expr::Continue)),
            _ => Ok(None),
        }
    }

    /// Moves past the token at the cursor when it is the expected one.
    fn eat(&mut self, expected: &Token) -> (b: bool)
        requires
            old(self).wf(),
        ensures
            final(self).wf(),
            final(self).toks() == old(self).toks(),
            b == (pk(old(self).toks(), old(self).at()) == expected@),
            final(self).at() == (if b && old(self).at() < old(self).toks().len() {
                old(self).at() + 1
            } else {
                old(self).at()
            }),
    {
        let t = self.peek();
        if t == *expected {
            if self.pos < self.tokens.len() {
                self.pos = self.pos + 1;
            }
            true
        } else {
            false
        }
    }
}

} // verus!
