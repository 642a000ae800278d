use vstd::prelude::*;

use crate::ast::{ExprV, StmtV, ValueV};
use crate::lexer::TokenV;

verus! {

// The concrete syntax of the language, given as the tokens that print each
// well-formed tree. A token sequence is a program exactly when it is the
// printing of one.

pub open spec fn eq_op() -> Seq<char> {
    seq!['=', '=']
}

pub open spec fn ne_op() -> Seq<char> {
    seq!['!', '=']
}

pub open spec fn op_token(op: Seq<char>) -> TokenV {
    if op == eq_op() {
        TokenV::EqEq
    } else {
        TokenV::NotEq
    }
}

pub open spec fn literal_tokens(v: ValueV) -> Seq<TokenV> {
    match v {
        ValueV::Number(t) => seq![TokenV::Number(t)],
        ValueV::Str(t) => seq![TokenV::Str(t)],
        ValueV::Boolean(b) => seq![
            if b {
                TokenV::KwTrue
            } else {
                TokenV::KwFalse
            },
        ],
        _ => Seq::empty(),
    }
}

pub open spec fn print_expr(e: ExprV) -> Seq<TokenV>
    decreases e,
{
    match e {
        ExprV::Literal(v) => literal_tokens(v),
        ExprV::Variable(n) => seq![TokenV::Identifier(n)],
        ExprV::BinaryOp { left, op, right } => print_expr(*left) + seq![op_token(op)] + print_expr(
            *right,
        ),
        ExprV::FunctionCall { name, args } => seq![TokenV::Identifier(name), TokenV::Symbol('(')]
            + print_args(args) + seq![TokenV::Symbol(')')],
    }
}

pub open spec fn print_arg(a: (Option<Seq<char>>, ExprV)) -> Seq<TokenV>
    decreases a,
{
    match a.0 {
        Some(l) => seq![TokenV::Identifier(l), TokenV::Symbol(':')] + print_expr(a.1),
        None => print_expr(a.1),
    }
}

/// The arguments, separated by commas.
pub open spec fn print_args(args: Seq<(Option<Seq<char>>, ExprV)>) -> Seq<TokenV>
    decreases args,
{
    if args.len() == 0 {
        Seq::empty()
    } else if args.len() == 1 {
        print_arg(args[0])
    } else {
        print_args(args.drop_last()) + seq![TokenV::Symbol(',')] + print_arg(args.last())
    }
}

pub open spec fn is_primary(e: ExprV) -> bool {
    !(e is BinaryOp)
}

pub open spec fn wf_expr(e: ExprV) -> bool
    decreases e,
{
    match e {
        ExprV::Literal(v) => v is Number || v is Str || v is Boolean,
        ExprV::Variable(_) => true,
        ExprV::BinaryOp { left, op, right } => (op == eq_op() || op == ne_op()) && is_primary(*left)
            && is_primary(*right) && wf_expr(*left) && wf_expr(*right),
        ExprV::FunctionCall { name, args } => wf_args(args),
    }
}

pub open spec fn wf_args(args: Seq<(Option<Seq<char>>, ExprV)>) -> bool
    decreases args,
{
    if args.len() == 0 {
        true
    } else {
        wf_args(args.drop_last()) && wf_expr(args.last().1)
    }
}

/// The parameter names, separated by commas.
pub open spec fn print_params(ps: Seq<Seq<char>>) -> Seq<TokenV>
    decreases ps.len(),
{
    if ps.len() == 0 {
        Seq::empty()
    } else if ps.len() == 1 {
        seq![TokenV::Identifier(ps[0])]
    } else {
        print_params(ps.drop_last()) + seq![TokenV::Symbol(','), TokenV::Identifier(ps.last())]
    }
}

pub open spec fn print_return_type(rt: Option<Seq<char>>) -> Seq<TokenV> {
    match rt {
        Some(t) => seq![TokenV::Arrow, TokenV::Identifier(t)],
        None => Seq::empty(),
    }
}

pub open spec fn print_stmt(s: StmtV) -> Seq<TokenV>
    decreases s,
{
    match s {
        StmtV::VarDeclaration { immutable, name, value } => seq![
            if immutable {
                TokenV::KwConst
            } else {
                TokenV::KwLet
            },
            TokenV::Identifier(name),
            TokenV::Symbol('='),
        ] + print_expr(value) + seq![TokenV::Symbol(';')],
        StmtV::FuncDeclaration { name, params, return_type, body } => seq![
            TokenV::KwLet,
            TokenV::Identifier(name),
            TokenV::Symbol('('),
        ] + print_params(params) + seq![TokenV::Symbol(')')] + print_return_type(return_type)
            + seq![TokenV::KwDo] + print_stmts(body) + seq![TokenV::KwEnd, TokenV::Symbol(';')],
        StmtV::IfStatement { condition, then_branch } => seq![TokenV::KwIf] + print_expr(condition)
            + seq![TokenV::KwDo] + print_stmts(then_branch) + seq![
            TokenV::KwEnd,
            TokenV::Symbol(';'),
        ],
        StmtV::Expression(e) => print_expr(e) + seq![TokenV::Symbol(';')],
        StmtV::Return(e) => seq![TokenV::KwReturn] + print_expr(e) + seq![TokenV::Symbol(';')],
    }
}

/// The statements, one after the other.
pub open spec fn print_stmts(ss: Seq<StmtV>) -> Seq<TokenV>
    decreases ss,
{
    if ss.len() == 0 {
        Seq::empty()
    } else {
        print_stmts(ss.drop_last()) + print_stmt(ss.last())
    }
}

pub open spec fn wf_stmt(s: StmtV) -> bool
    decreases s,
{
    match s {
        StmtV::VarDeclaration { immutable, name, value } => wf_expr(value),
        StmtV::FuncDeclaration { name, params, return_type, body } => wf_stmts(body),
        StmtV::IfStatement { condition, then_branch } => wf_expr(condition) && wf_stmts(
            then_branch,
        ),
        StmtV::Expression(e) => wf_expr(e),
        StmtV::Return(e) => wf_expr(e),
    }
}

pub open spec fn wf_stmts(ss: Seq<StmtV>) -> bool
    decreases ss,
{
    if ss.len() == 0 {
        true
    } else {
        wf_stmts(ss.drop_last()) && wf_stmt(ss.last())
    }
}

/// The tokens of a whole program: its statements, then `Eof`.
pub open spec fn print_program(p: Seq<StmtV>) -> Seq<TokenV> {
    print_stmts(p) + seq![TokenV::Eof]
}

/// A token that can begin an expression.
pub open spec fn starts_expression(t: TokenV) -> bool {
    t is Number || t is Str || t is KwTrue || t is KwFalse || t is Identifier
}

/// The token at `i`, or `Eof` past the end.
pub open spec fn tok_at(ts: Seq<TokenV>, i: int) -> TokenV {
    if 0 <= i < ts.len() {
        ts[i]
    } else {
        TokenV::Eof
    }
}

/// A token after which an expression cannot go on.
pub open spec fn ends_expression(t: TokenV) -> bool {
    t != TokenV::Symbol('(') && !(t is EqEq) && !(t is NotEq)
}

/// `s` stands in `ts` from position `i` on.
pub open spec fn printed_at(ts: Seq<TokenV>, i: int, s: Seq<TokenV>) -> bool {
    0 <= i && i + s.len() <= ts.len() && ts.subrange(i, i + s.len()) == s
}

pub open spec fn call_v(name: Seq<char>, args: Seq<(Option<Seq<char>>, ExprV)>) -> ExprV {
    ExprV::FunctionCall { name, args }
}

/// `e` is a well-formed expression printed at `i`, and the token after it
/// cannot continue an expression.
pub open spec fn expr_fits(ts: Seq<TokenV>, i: int, e: ExprV) -> bool {
    &&& wf_expr(e)
    &&& printed_at(ts, i, print_expr(e))
    &&& ends_expression(tok_at(ts, i + print_expr(e).len()))
}

/// `e` is a well-formed primary expression printed at `i`, and no `(`
/// follows it.
pub open spec fn primary_fits(ts: Seq<TokenV>, i: int, e: ExprV) -> bool {
    &&& wf_expr(e)
    &&& is_primary(e)
    &&& printed_at(ts, i, print_expr(e))
    &&& tok_at(ts, i + print_expr(e).len()) != TokenV::Symbol('(')
}

/// The arguments `a` are printed at `i`, followed by `)`.
pub open spec fn args_fit(ts: Seq<TokenV>, i: int, a: Seq<(Option<Seq<char>>, ExprV)>) -> bool {
    &&& wf_args(a)
    &&& printed_at(ts, i, print_args(a) + seq![TokenV::Symbol(')')])
}

pub proof fn lemma_printed_at_split(ts: Seq<TokenV>, i: int, x: Seq<TokenV>, y: Seq<TokenV>)
    requires
        printed_at(ts, i, x + y),
    ensures
        printed_at(ts, i, x),
        printed_at(ts, i + x.len(), y),
{
    let whole = ts.subrange(i, i + x.len() + y.len());
    assert(whole == x + y);
    assert(ts.subrange(i, i + x.len()) =~= whole.subrange(0, x.len() as int));
    assert(whole.subrange(0, x.len() as int) =~= x);
    assert(ts.subrange(i + x.len(), i + x.len() + y.len()) =~= whole.subrange(
        x.len() as int,
        whole.len() as int,
    ));
    assert(whole.subrange(x.len() as int, whole.len() as int) =~= y);
}

pub proof fn lemma_printed_at_index(ts: Seq<TokenV>, i: int, s: Seq<TokenV>, j: int)
    requires
        printed_at(ts, i, s),
        0 <= j < s.len(),
    ensures
        ts[i + j] == s[j],
        tok_at(ts, i + j) == s[j],
{
    assert(ts.subrange(i, i + s.len())[j] == ts[i + j]);
}

pub proof fn lemma_expr_first_token(e: ExprV)
    requires
        wf_expr(e),
    ensures
        print_expr(e).len() >= 1,
        starts_expression(print_expr(e)[0]),
        print_expr(e)[0] is Identifier ==> print_expr(e).len() == 1 || print_expr(e)[1]
            != TokenV::Symbol(':'),
    decreases e,
{
    match e {
        ExprV::BinaryOp { left, op, right } => {
            lemma_expr_first_token(*left);
            lemma_expr_first_token(*right);
        },
        _ => {},
    }
}

pub proof fn lemma_wf_args_index(a: Seq<(Option<Seq<char>>, ExprV)>, i: int)
    requires
        wf_args(a),
        0 <= i < a.len(),
    ensures
        wf_expr(a[i].1),
    decreases a.len(),
{
    if i < a.len() - 1 {
        lemma_wf_args_index(a.drop_last(), i);
    }
}

pub proof fn lemma_wf_args_prefix(a: Seq<(Option<Seq<char>>, ExprV)>, k: int)
    requires
        wf_args(a),
        0 <= k <= a.len(),
    ensures
        wf_args(a.take(k)),
    decreases a.len(),
{
    if k < a.len() {
        assert(a.drop_last().take(k) =~= a.take(k));
        lemma_wf_args_prefix(a.drop_last(), k);
    } else {
        assert(a.take(k) =~= a);
    }
}

pub proof fn lemma_print_args_split(a: Seq<(Option<Seq<char>>, ExprV)>, k: int)
    requires
        0 < k < a.len(),
    ensures
        print_args(a) == print_args(a.take(k)) + seq![TokenV::Symbol(',')] + print_args(a.skip(k)),
    decreases a.len(),
{
    if k == a.len() - 1 {
        assert(a.take(k) =~= a.drop_last());
        assert(a.skip(k) =~= seq![a.last()]);
        assert(print_args(a.skip(k)) == print_arg(a.skip(k)[0]));
    } else {
        lemma_print_args_split(a.drop_last(), k);
        assert(a.drop_last().take(k) =~= a.take(k));
        assert(a.skip(k).drop_last() =~= a.drop_last().skip(k));
        assert(a.skip(k).last() == a.last());
        assert(print_args(a.skip(k)) == print_args(a.skip(k).drop_last()) + seq![
            TokenV::Symbol(','),
        ] + print_arg(a.skip(k).last()));
        assert(print_args(a) =~= print_args(a.take(k)) + seq![TokenV::Symbol(',')] + print_args(
            a.skip(k),
        ));
    }
}

/// The arguments from `k` on print as argument `k`, then, where more follow,
/// a comma and the rest.
pub proof fn lemma_print_args_from(a: Seq<(Option<Seq<char>>, ExprV)>, k: int)
    requires
        0 <= k < a.len(),
    ensures
        print_args(a.skip(k)) == print_arg(a[k]) + if k + 1 < a.len() {
            seq![TokenV::Symbol(',')] + print_args(a.skip(k + 1))
        } else {
            Seq::empty()
        },
{
    let b = a.skip(k);
    if k + 1 < a.len() {
        lemma_print_args_split(b, 1);
        assert(b.take(1) =~= seq![a[k]]);
        assert(b.skip(1) =~= a.skip(k + 1));
        assert(print_args(b.take(1)) == print_arg(b.take(1)[0]));
    } else {
        assert(b =~= seq![a[k]]);
        assert(print_args(b) == print_arg(b[0]));
        assert(print_arg(a[k]) + Seq::<TokenV>::empty() =~= print_arg(a[k]));
    }
}

/// `s` is a well-formed statement printed at `i`.
pub open spec fn stmt_fits(ts: Seq<TokenV>, i: int, s: StmtV) -> bool {
    wf_stmt(s) && printed_at(ts, i, print_stmt(s))
}

/// The statements `ss` are printed at `i`, followed by `end`.
pub open spec fn block_fits(ts: Seq<TokenV>, i: int, ss: Seq<StmtV>) -> bool {
    wf_stmts(ss) && printed_at(ts, i, print_stmts(ss) + seq![TokenV::KwEnd])
}

/// The parameter names `ps` are printed at `i`, followed by `)`.
pub open spec fn params_fit(ts: Seq<TokenV>, i: int, ps: Seq<Seq<char>>) -> bool {
    printed_at(ts, i, print_params(ps) + seq![TokenV::Symbol(')')])
}

pub proof fn lemma_print_stmts_concat(a: Seq<StmtV>, b: Seq<StmtV>)
    ensures
        print_stmts(a + b) == print_stmts(a) + print_stmts(b),
    decreases b.len(),
{
    if b.len() == 0 {
        assert(a + b =~= a);
        assert(print_stmts(a) + print_stmts(b) =~= print_stmts(a));
    } else {
        lemma_print_stmts_concat(a, b.drop_last());
        assert((a + b).drop_last() =~= a + b.drop_last());
        assert((a + b).last() == b.last());
        assert(print_stmts(a + b) =~= print_stmts(a) + print_stmts(b));
    }
}

/// The statements from `k` on print as statement `k`, then the rest.
pub proof fn lemma_print_stmts_at(ss: Seq<StmtV>, k: int)
    requires
        0 <= k <= ss.len(),
    ensures
        print_stmts(ss) == print_stmts(ss.take(k)) + print_stmts(ss.skip(k)),
        k < ss.len() ==> print_stmts(ss.skip(k)) == print_stmt(ss[k]) + print_stmts(ss.skip(k + 1)),
{
    assert(ss =~= ss.take(k) + ss.skip(k));
    lemma_print_stmts_concat(ss.take(k), ss.skip(k));
    if k < ss.len() {
        assert(ss.skip(k) =~= seq![ss[k]] + ss.skip(k + 1));
        lemma_print_stmts_concat(seq![ss[k]], ss.skip(k + 1));
        assert(seq![ss[k]].drop_last() =~= Seq::<StmtV>::empty());
        assert(seq![ss[k]].last() == ss[k]);
        assert(print_stmts(Seq::<StmtV>::empty()) =~= Seq::empty());
        assert(print_stmts(seq![ss[k]]) =~= print_stmt(ss[k]));
    }
}

pub proof fn lemma_wf_stmts_index(ss: Seq<StmtV>, i: int)
    requires
        wf_stmts(ss),
        0 <= i < ss.len(),
    ensures
        wf_stmt(ss[i]),
    decreases ss.len(),
{
    if i < ss.len() - 1 {
        lemma_wf_stmts_index(ss.drop_last(), i);
    }
}

/// A token that can begin a statement.
pub open spec fn starts_statement(t: TokenV) -> bool {
    starts_expression(t) || t is KwConst || t is KwLet || t is KwIf || t is KwReturn
}

pub proof fn lemma_stmt_first_token(s: StmtV)
    requires
        wf_stmt(s),
    ensures
        print_stmt(s).len() >= 1,
        starts_statement(print_stmt(s)[0]),
        print_stmt(s)[0] is KwLet ==> print_stmt(s).len() >= 3 && print_stmt(s)[1] is Identifier,
        s is Expression ==> starts_expression(print_stmt(s)[0]),
{
    match s {
        StmtV::Expression(e) => {
            lemma_expr_first_token(e);
        },
        _ => {},
    }
}

pub proof fn lemma_params_prefix(ps: Seq<Seq<char>>, k: int)
    requires
        1 <= k <= ps.len(),
    ensures
        print_params(ps.take(k)).len() + 2 * (ps.len() - k) == print_params(ps).len(),
        print_params(ps).subrange(0, print_params(ps.take(k)).len() as int) == print_params(
            ps.take(k),
        ),
        k < ps.len() ==> print_params(ps)[print_params(ps.take(k)).len() as int] == TokenV::Symbol(
            ',',
        ) && print_params(ps)[print_params(ps.take(k)).len() + 1 as int] == TokenV::Identifier(ps[k]),
    decreases ps.len() - k,
{
    if k == ps.len() {
        assert(ps.take(k) =~= ps);
        assert(print_params(ps).subrange(0, print_params(ps).len() as int) =~= print_params(ps));
    } else {
        lemma_params_prefix(ps, k + 1);
        let a = ps.take(k + 1);
        assert(a.drop_last() =~= ps.take(k));
        assert(a.last() == ps[k]);
        assert(print_params(a) == print_params(a.drop_last()) + seq![
            TokenV::Symbol(','),
            TokenV::Identifier(a.last()),
        ]);
        let n = print_params(ps.take(k)).len() as int;
        assert(print_params(ps).subrange(0, n) =~= print_params(a).subrange(0, n));
        assert(print_params(ps)[n] == print_params(a)[n]);
        assert(print_params(ps)[n + 1] == print_params(a)[n + 1]);
    }
}

} // verus!
