use vstd::prelude::*;

use crate::ast::{
    args_view, opt_text_view, stmts_view, texts_view, value_view, ExprV, Expression, RuntimeValue,
    Statement, StmtV, ValueV,
};
use crate::grammar::{
    args_fit, block_fits, call_v, eq_op, expr_fits, is_primary, lemma_expr_first_token,
    lemma_params_prefix, lemma_print_args_from, lemma_print_args_split, lemma_print_stmts_at,
    lemma_printed_at_index, lemma_printed_at_split, lemma_stmt_first_token, lemma_wf_args_index,
    lemma_wf_stmts_index, ne_op, op_token, params_fit, primary_fits, print_arg, print_args,
    print_expr, print_params, print_program, print_return_type, print_stmt, print_stmts, printed_at,
    starts_expression, starts_statement, stmt_fits, tok_at, wf_args, wf_expr, wf_stmt, wf_stmts,
};
use crate::descent::{
    descend_arg_list, descend_args, descend_block, descend_call, descend_comparison, descend_expr,
    descend_func, descend_if, descend_more_params, descend_params, descend_primary, descend_program,
    descend_return, descend_stmt, descend_var, expect_identifier_at, expect_keyword_at,
    expect_symbol_at, lemma_descend_steps, Step, SyntaxErrorV,
};
use crate::text::string_from_chars;
use crate::lexer::{
    eof_terminated, lemma_lex_eof_terminated, lex, lex_error_text, token_text, tokens_view, LexError,
    Lexer, Token, TokenV,
};

verus! {

/// Why a source text is not a program.
#[derive(Debug, PartialEq)]
pub enum ParseError {
    Lex(LexError),
    ExpectedIdentifier { found: Token },
    ExpectedSymbol { symbol: char, found: Token },
    ExpectedKeyword { keyword: Token, found: Token },
    UnexpectedToken { found: Token },
}

/// The message that tells a user why a text is not a program.
pub open spec fn parse_error_text(e: ParseError) -> Seq<char> {
    match e {
        ParseError::Lex(l) => lex_error_text(l),
        ParseError::ExpectedIdentifier { found } => "Expected identifier, found "@ + token_text(
            found@,
        ),
        ParseError::ExpectedSymbol { symbol, found } => "Expected symbol '"@ + seq![symbol]
            + "', found "@ + token_text(found@),
        ParseError::ExpectedKeyword { keyword, found } => "Expected "@ + token_text(keyword@)
            + ", found "@ + token_text(found@),
        ParseError::UnexpectedToken { found } => "Unexpected token in expression: "@ + token_text(
            found@,
        ),
    }
}

impl ParseError {
    /// The message that tells a user why a text is not a program.
    pub fn message(&self) -> (r: String)
        ensures
            r@ == parse_error_text(*self),
    {
        match self {
            ParseError::Lex(l) => l.message(),
            ParseError::ExpectedIdentifier { found } => {
                let mut r = String::from_str("Expected identifier, found ");
                r.append(found.text().as_str());
                r
            },
            ParseError::ExpectedSymbol { symbol, found } => {
                let mut one: Vec<char> = Vec::new();
                one.push(*symbol);
                let c = string_from_chars(&one);
                let mut r = String::from_str("Expected symbol '");
                r.append(c.as_str());
                r.append("', found ");
                r.append(found.text().as_str());
                r
            },
            ParseError::ExpectedKeyword { keyword, found } => {
                let mut r = String::from_str("Expected ");
                r.append(keyword.text().as_str());
                r.append(", found ");
                r.append(found.text().as_str());
                r
            },
            ParseError::UnexpectedToken { found } => {
                let mut r = String::from_str("Unexpected token in expression: ");
                r.append(found.text().as_str());
                r
            },
        }
    }
}

/// The mathematical form of a syntax error (a lexer error has none).
pub open spec fn syntax_error_view(e: ParseError) -> SyntaxErrorV {
    match e {
        ParseError::ExpectedIdentifier { found } => SyntaxErrorV::ExpectedIdentifier { found: found@ },
        ParseError::ExpectedSymbol { symbol, found } => SyntaxErrorV::ExpectedSymbol {
            symbol,
            found: found@,
        },
        ParseError::ExpectedKeyword { keyword, found } => SyntaxErrorV::ExpectedKeyword {
            keyword: keyword@,
            found: found@,
        },
        ParseError::UnexpectedToken { found } => SyntaxErrorV::UnexpectedToken { found: found@ },
        ParseError::Lex(_) => SyntaxErrorV::UnexpectedToken { found: TokenV::Eof },
    }
}

/// What a parse step did, in the terms of the descent: where it ended, or
/// its error and where it stopped.
pub open spec fn outcome<T>(r: Result<T, ParseError>, end: int) -> Step {
    match r {
        Ok(_) => Ok(end),
        Err(e) => Err((syntax_error_view(e), end)),
    }
}

/// `s` stands in `ts` from `i` to `j`.
pub open spec fn spans(ts: Seq<TokenV>, i: int, j: int, s: Seq<TokenV>) -> bool {
    0 <= i <= j <= ts.len() && ts.subrange(i, j) == s
}

pub fn clone_token(t: &Token) -> (r: Token)
    ensures
        r@ == t@,
{
    match t {
        Token::KwLet => Token::KwLet,
        Token::KwConst => Token::KwConst,
        Token::KwDo => Token::KwDo,
        Token::KwEnd => Token::KwEnd,
        Token::KwIf => Token::KwIf,
        Token::KwReturn => Token::KwReturn,
        Token::KwTrue => Token::KwTrue,
        Token::KwFalse => Token::KwFalse,
        Token::Identifier(s) => Token::Identifier(s.clone()),
        Token::Number(s) => Token::Number(s.clone()),
        Token::String(s) => Token::String(s.clone()),
        Token::Symbol(c) => Token::Symbol(*c),
        Token::Arrow => Token::Arrow,
        Token::EqEq => Token::EqEq,
        Token::NotEq => Token::NotEq,
        Token::Eof => Token::Eof,
    }
}

pub fn tokens_equal(a: &Token, b: &Token) -> (r: bool)
    ensures
        r == (a@ == b@),
{
    match a {
        Token::Identifier(x) => match b {
            Token::Identifier(y) => x.eq(y),
            _ => false,
        },
        Token::Number(x) => match b {
            Token::Number(y) => x.eq(y),
            _ => false,
        },
        Token::String(x) => match b {
            Token::String(y) => x.eq(y),
            _ => false,
        },
        Token::Symbol(x) => match b {
            Token::Symbol(y) => *x == *y,
            _ => false,
        },
        Token::KwLet => matches!(b, Token::KwLet),
        Token::KwConst => matches!(b, Token::KwConst),
        Token::KwDo => matches!(b, Token::KwDo),
        Token::KwEnd => matches!(b, Token::KwEnd),
        Token::KwIf => matches!(b, Token::KwIf),
        Token::KwReturn => matches!(b, Token::KwReturn),
        Token::KwTrue => matches!(b, Token::KwTrue),
        Token::KwFalse => matches!(b, Token::KwFalse),
        Token::Arrow => matches!(b, Token::Arrow),
        Token::EqEq => matches!(b, Token::EqEq),
        Token::NotEq => matches!(b, Token::NotEq),
        Token::Eof => matches!(b, Token::Eof),
    }
}

pub struct Parser {
    tokens: Vec<Token>,
    pos: usize,
}

impl Parser {
    #[verifier::type_invariant]
    spec fn well_placed(self) -> bool {
        &&& eof_terminated(tokens_view(self.tokens@))
        &&& self.pos < self.tokens@.len()
        &&& self.tokens@.len() <= usize::MAX
    }

    /// The tokens being parsed.
    pub closed spec fn toks(&self) -> Seq<TokenV> {
        tokens_view(self.tokens@)
    }

    /// The position of the current token.
    pub closed spec fn at(&self) -> int {
        self.pos as int
    }

    fn current(&self) -> (r: &Token)
        ensures
            r@ == self.toks()[self.at()],
            self.at() < self.toks().len(),
    {
        proof {
            use_type_invariant(self);
        }
        &self.tokens[self.pos]
    }

    fn is_at_end(&self) -> (r: bool)
        ensures
            r == (self.toks()[self.at()] is Eof),
            r == (self.at() == self.toks().len() - 1),
    {
        proof {
            use_type_invariant(self);
        }
        matches!(self.current(), Token::Eof)
    }

    fn advance(&mut self)
        ensures
            final(self).toks() == old(self).toks(),
            final(self).at() == if old(self).toks()[old(self).at()] is Eof {
                old(self).at()
            } else {
                old(self).at() + 1
            },
    {
        proof {
            use_type_invariant(&*self);
        }
        if !self.is_at_end() {
            self.pos = self.pos + 1;
        }
    }

    fn check(&self, token: &Token) -> (r: bool)
        ensures
            r == (self.toks()[self.at()] == token@),
    {
        tokens_equal(self.current(), token)
    }

    fn check_symbol(&self, ch: char) -> (r: bool)
        ensures
            r == (self.toks()[self.at()] == TokenV::Symbol(ch)),
    {
        match self.current() {
            Token::Symbol(c) => *c == ch,
            _ => false,
        }
    }

    fn match_symbol(&mut self, expected: char) -> (r: bool)
        ensures
            final(self).toks() == old(self).toks(),
            r == (old(self).toks()[old(self).at()] == TokenV::Symbol(expected)),
            final(self).at() == if r {
                old(self).at() + 1
            } else {
                old(self).at()
            },
    {
        if self.check_symbol(expected) {
            self.advance();
            true
        } else {
            false
        }
    }

    fn expect_symbol(&mut self, expected: char) -> (r: Result<(), ParseError>)
        ensures
            r is Err ==> !(r->Err_0 is Lex),
            outcome(r, final(self).at()) == expect_symbol_at(old(self).toks(), old(self).at(), expected),
            final(self).toks() == old(self).toks(),
            r is Ok == (old(self).toks()[old(self).at()] == TokenV::Symbol(expected)),
            final(self).at() == if r is Ok {
                old(self).at() + 1
            } else {
                old(self).at()
            },
    {
        proof {
            use_type_invariant(&*self);
        }
        if self.match_symbol(expected) {
            Ok(())
        } else {
            Err(ParseError::ExpectedSymbol { symbol: expected, found: clone_token(self.current()) })
        }
    }

    fn expect_keyword(&mut self, expected: Token) -> (r: Result<(), ParseError>)
        requires
            !(expected@ is Eof),
        ensures
            r is Err ==> !(r->Err_0 is Lex),
            outcome(r, final(self).at()) == expect_keyword_at(old(self).toks(), old(self).at(), expected@),
            final(self).toks() == old(self).toks(),
            r is Ok == (old(self).toks()[old(self).at()] == expected@),
            final(self).at() == if r is Ok {
                old(self).at() + 1
            } else {
                old(self).at()
            },
    {
        proof {
            use_type_invariant(&*self);
        }
        if self.check(&expected) {
            self.advance();
            Ok(())
        } else {
            Err(ParseError::ExpectedKeyword { keyword: expected, found: clone_token(self.current()) })
        }
    }

    fn expect_identifier(&mut self) -> (r: Result<String, ParseError>)
        ensures
            r is Err ==> !(r->Err_0 is Lex),
            outcome(r, final(self).at()) == expect_identifier_at(old(self).toks(), old(self).at()),
            final(self).toks() == old(self).toks(),
            r is Ok == (old(self).toks()[old(self).at()] is Identifier),
            r matches Ok(name) ==> old(self).toks()[old(self).at()] == TokenV::Identifier(name@),
            final(self).at() == if r is Ok {
                old(self).at() + 1
            } else {
                old(self).at()
            },
    {
        let name = match self.current() {
            Token::Identifier(name) => name.clone(),
            _ => {
                return Err(ParseError::ExpectedIdentifier { found: clone_token(self.current()) });
            },
        };
        self.advance();
        Ok(name)
    }

    fn is_identifier(&self) -> (r: bool)
        ensures
            r == (self.toks()[self.at()] is Identifier),
    {
        matches!(self.current(), Token::Identifier(_))
    }

    fn peek_is_identifier(&self) -> (r: bool)
        ensures
            r == (self.at() + 1 < self.toks().len() && self.toks()[self.at() + 1] is Identifier),
    {
        proof {
            use_type_invariant(self);
        }
        if self.tokens.len() - self.pos > 1 {
            matches!(self.tokens[self.pos + 1], Token::Identifier(_))
        } else {
            false
        }
    }

    fn peek_next_is_symbol(&self, ch: char) -> (r: bool)
        ensures
            r == (self.at() + 1 < self.toks().len() && self.toks()[self.at() + 1] == TokenV::Symbol(
                ch,
            )),
    {
        proof {
            use_type_invariant(self);
        }
        if self.tokens.len() - self.pos > 1 {
            match &self.tokens[self.pos + 1] {
                Token::Symbol(c) => *c == ch,
                _ => false,
            }
        } else {
            false
        }
    }

    fn peek_ahead_is_symbol(&self, ch: char) -> (r: bool)
        ensures
            r == (self.at() + 2 < self.toks().len() && self.toks()[self.at() + 2] == TokenV::Symbol(
                ch,
            )),
    {
        proof {
            use_type_invariant(self);
        }
        if self.tokens.len() - self.pos > 2 {
            match &self.tokens[self.pos + 2] {
                Token::Symbol(c) => *c == ch,
                _ => false,
            }
        } else {
            false
        }
    }
}

impl Parser {
    fn parse_expression(&mut self) -> (r: Result<Expression, ParseError>)
        ensures
            outcome(r, final(self).at()) == descend_expr(old(self).toks(), old(self).at()),
            r is Err ==> !(r->Err_0 is Lex),
            final(self).toks() == old(self).toks(),
            r matches Ok(e) ==> wf_expr(e@) && spans(
                old(self).toks(),
                old(self).at(),
                final(self).at(),
                print_expr(e@),
            ),
            forall|e: ExprV|
                #![trigger expr_fits(old(self).toks(), old(self).at(), e)]
                expr_fits(old(self).toks(), old(self).at(), e) ==> r is Ok && r->Ok_0@ == e
                    && final(self).at() == old(self).at() + print_expr(e).len(),
        decreases old(self).toks().len() - old(self).at(), 3nat,
    {
        proof {
            lemma_descend_steps(self.toks(), self.at());
        }
        proof {
            use_type_invariant(&*self);
        }
        self.parse_comparison()
    }

    #[verifier::rlimit(30)]
    fn parse_comparison(&mut self) -> (r: Result<Expression, ParseError>)
        ensures
            outcome(r, final(self).at()) == descend_comparison(old(self).toks(), old(self).at()),
            r is Err ==> !(r->Err_0 is Lex),
            final(self).toks() == old(self).toks(),
            r matches Ok(e) ==> wf_expr(e@) && spans(
                old(self).toks(),
                old(self).at(),
                final(self).at(),
                print_expr(e@),
            ),
            forall|e: ExprV|
                #![trigger expr_fits(old(self).toks(), old(self).at(), e)]
                expr_fits(old(self).toks(), old(self).at(), e) ==> r is Ok && r->Ok_0@ == e
                    && final(self).at() == old(self).at() + print_expr(e).len(),
        decreases old(self).toks().len() - old(self).at(), 2nat,
    {
        proof {
            lemma_descend_steps(self.toks(), self.at());
        }
        let ghost ts = self.toks();
        let ghost p0 = self.at();
        proof {
            use_type_invariant(&*self);
        }
        let left = match self.parse_primary() {
            Ok(left) => left,
            Err(err) => {
                proof {
                    assert forall|e: ExprV| expr_fits(ts, p0, e) implies false by {
                        Self::lemma_comparison_parts(ts, p0, e);
                        match e {
                            ExprV::BinaryOp { left: l, op, right } => {
                                assert(primary_fits(ts, p0, *l));
                            },
                            _ => {
                                assert(primary_fits(ts, p0, e));
                            },
                        }
                    }
                }
                return Err(err);
            },
        };
        let ghost p1 = self.at();
        proof {
            use_type_invariant(&*self);
        }
        let is_eq = self.check(&Token::EqEq);
        let is_ne = self.check(&Token::NotEq);
        if is_eq || is_ne {
            let op = if is_eq {
                self.advance();
                proof {
                    reveal_strlit("==");
                }
                let op = String::from_str("==");
                assert(op@ =~= eq_op());
                op
            } else {
                self.advance();
                proof {
                    reveal_strlit("!=");
                }
                let op = String::from_str("!=");
                assert(op@ =~= ne_op());
                op
            };
            let ghost p2 = self.at();
            let right = match self.parse_primary() {
                Ok(right) => right,
                Err(err) => {
                    proof {
                        assert forall|e: ExprV| expr_fits(ts, p0, e) implies false by {
                            Self::lemma_comparison_parts(ts, p0, e);
                            match e {
                                ExprV::BinaryOp { left: l, op: o, right: r } => {
                                    assert(primary_fits(ts, p0, *l));
                                    assert(primary_fits(ts, p2, *r));
                                },
                                _ => {
                                    assert(primary_fits(ts, p0, e));
                                },
                            }
                        }
                    }
                    return Err(err);
                },
            };
            let ghost p3 = self.at();
            let e = Expression::BinaryOp { left: Box::new(left), op, right: Box::new(right) };
            proof {
                assert(ts.subrange(p0, p3) =~= ts.subrange(p0, p1) + seq![ts[p1]] + ts.subrange(
                    p2,
                    p3,
                ));
                assert(op_token(e@->op) == ts[p1]);
                assert forall|e2: ExprV| expr_fits(ts, p0, e2) implies e@ == e2 && p3
                    == p0 + print_expr(e2).len() by {
                    Self::lemma_comparison_parts(ts, p0, e2);
                    match e2 {
                        ExprV::BinaryOp { left: l, op: o, right: r } => {
                            assert(primary_fits(ts, p0, *l));
                            assert(primary_fits(ts, p2, *r));
                        },
                        _ => {
                            assert(primary_fits(ts, p0, e2));
                        },
                    }
                }
            }
            Ok(e)
        } else {
            proof {
                assert forall|e2: ExprV| expr_fits(ts, p0, e2) implies left@ == e2 && p1
                    == p0 + print_expr(e2).len() by {
                    Self::lemma_comparison_parts(ts, p0, e2);
                    match e2 {
                        ExprV::BinaryOp { left: l, op: o, right: r } => {
                            assert(primary_fits(ts, p0, *l));
                        },
                        _ => {
                            assert(primary_fits(ts, p0, e2));
                        },
                    }
                }
            }
            Ok(left)
        }
    }

    /// What an expression printed at `p0` is made of: a primary, and where it
    /// is a comparison, an operator and a second primary.
    proof fn lemma_comparison_parts(ts: Seq<TokenV>, p0: int, e: ExprV)
        requires
            expr_fits(ts, p0, e),
        ensures
            is_primary(e) ==> primary_fits(ts, p0, e) && !(tok_at(ts, p0 + print_expr(e).len()) is EqEq)
                && !(tok_at(ts, p0 + print_expr(e).len()) is NotEq),
            e matches ExprV::BinaryOp { left, op, right } ==> {
                &&& primary_fits(ts, p0, *left)
                &&& tok_at(ts, p0 + print_expr(*left).len()) == op_token(op)
                &&& (op_token(op) is EqEq <==> op == eq_op())
                &&& (op_token(op) is NotEq <==> op == ne_op())
                &&& primary_fits(ts, p0 + print_expr(*left).len() + 1, *right)
                &&& print_expr(e).len() == print_expr(*left).len() + 1 + print_expr(*right).len()
            },
    {
        if let ExprV::BinaryOp { left, op, right } = e {
            let pl = print_expr(*left);
            let pr = print_expr(*right);
            assert(print_expr(e) == pl + seq![op_token(op)] + pr);
            lemma_printed_at_split(ts, p0, pl + seq![op_token(op)], pr);
            lemma_printed_at_split(ts, p0, pl, seq![op_token(op)]);
            lemma_printed_at_index(ts, p0 + pl.len(), seq![op_token(op)], 0);
            crate::grammar::lemma_expr_first_token(*right);
        }
    }

    fn parse_primary(&mut self) -> (r: Result<Expression, ParseError>)
        ensures
            outcome(r, final(self).at()) == descend_primary(old(self).toks(), old(self).at()),
            r is Err && !(old(self).toks()[old(self).at()] is Identifier) ==> final(self).at() == old(
                self,
            ).at(),
            r is Err ==> !(r->Err_0 is Lex),
            final(self).toks() == old(self).toks(),
            r matches Ok(e) ==> wf_expr(e@) && is_primary(e@) && spans(
                old(self).toks(),
                old(self).at(),
                final(self).at(),
                print_expr(e@),
            ),
            forall|e: ExprV|
                #![trigger primary_fits(old(self).toks(), old(self).at(), e)]
                primary_fits(old(self).toks(), old(self).at(), e) ==> r is Ok && r->Ok_0@ == e
                    && final(self).at() == old(self).at() + print_expr(e).len(),
        decreases old(self).toks().len() - old(self).at(), 1nat,
    {
        proof {
            lemma_descend_steps(self.toks(), self.at());
        }
        let ghost ts = self.toks();
        let ghost p0 = self.at();
        proof {
            use_type_invariant(&*self);
            assert forall|e: ExprV| primary_fits(ts, p0, e) implies ts[p0] == print_expr(
                e,
            )[0] by {
                lemma_expr_first_token(e);
                lemma_printed_at_index(ts, p0, print_expr(e), 0);
            }
        }
        let t = clone_token(self.current());
        match t {
            Token::Number(n) => {
                self.advance();
                proof {
                    assert(value_view(RuntimeValue::Number(n)) == ValueV::Number(n@));
                }
                let e = Expression::Literal(RuntimeValue::Number(n));
                assert(ts.subrange(p0, p0 + 1) =~= print_expr(e@));
                Ok(e)
            },
            Token::String(v) => {
                self.advance();
                proof {
                    assert(value_view(RuntimeValue::String(v)) == ValueV::Str(v@));
                }
                let e = Expression::Literal(RuntimeValue::String(v));
                assert(ts.subrange(p0, p0 + 1) =~= print_expr(e@));
                Ok(e)
            },
            Token::KwTrue => {
                self.advance();
                proof {
                    assert(value_view(RuntimeValue::Boolean(true)) == ValueV::Boolean(true));
                }
                let e = Expression::Literal(RuntimeValue::Boolean(true));
                assert(ts.subrange(p0, p0 + 1) =~= print_expr(e@));
                Ok(e)
            },
            Token::KwFalse => {
                self.advance();
                proof {
                    assert(value_view(RuntimeValue::Boolean(false)) == ValueV::Boolean(false));
                }
                let e = Expression::Literal(RuntimeValue::Boolean(false));
                assert(ts.subrange(p0, p0 + 1) =~= print_expr(e@));
                Ok(e)
            },
            Token::Identifier(name) => {
                self.advance();
                proof {
                    use_type_invariant(&*self);
                }
                if self.check_symbol('(') {
                    let r = self.parse_call(name);
                    proof {
                        assert forall|e: ExprV| primary_fits(ts, p0, e) implies r is Ok && r->Ok_0@ == e && self.at() == p0 + print_expr(e).len() by {
                            if let ExprV::FunctionCall { name: n2, args } = e {
                                lemma_printed_at_index(ts, p0, print_expr(e), 0);
                                assert(call_v(n2, args) == e);
                                assert(n2 == name@);
                                assert(print_expr(call_v(name@, args)) == print_expr(e));
                                assert(wf_args(args));
                                assert(printed_at(ts, p0, print_expr(call_v(name@, args))));
                            } else {
                                lemma_printed_at_index(ts, p0, print_expr(e), 0);
                                assert(print_expr(e).len() == 1);
                            }
                        }
                    }
                    r
                } else {
                    let e = Expression::Variable(name);
                    assert(ts.subrange(p0, p0 + 1) =~= print_expr(e@));
                    proof {
                        assert forall|e2: ExprV| primary_fits(ts, p0, e2) implies e@ == e2
                            && p0 + 1 == p0 + print_expr(e2).len() by {
                            if let ExprV::FunctionCall { name: n2, args } = e2 {
                                lemma_printed_at_index(ts, p0, print_expr(e2), 1);
                            }
                        }
                    }
                    Ok(e)
                }
            },
            _ => {
                proof {
                    assert forall|e: ExprV| primary_fits(ts, p0, e) implies false by {
                        lemma_expr_first_token(e);
                    }
                }
                Err(ParseError::UnexpectedToken { found: t })
            },
        }
    }

    fn parse_call(&mut self, name: String) -> (r: Result<Expression, ParseError>)
        requires
            old(self).at() >= 1,
            old(self).toks()[old(self).at() - 1] == TokenV::Identifier(name@),
        ensures
            outcome(r, final(self).at()) == descend_call(old(self).toks(), old(self).at()),
            r is Err ==> !(r->Err_0 is Lex),
            final(self).toks() == old(self).toks(),
            r matches Ok(e) ==> wf_expr(e@) && is_primary(e@) && spans(
                old(self).toks(),
                old(self).at() - 1,
                final(self).at(),
                print_expr(e@),
            ),
            forall|args: Seq<(Option<Seq<char>>, ExprV)>|
                wf_args(args) && printed_at(
                    old(self).toks(),
                    old(self).at() - 1,
                    #[trigger] print_expr(call_v(name@, args)),
                ) ==> r is Ok && r->Ok_0@ == call_v(name@, args) && final(self).at() == old(
                    self,
                ).at() - 1 + print_expr(call_v(name@, args)).len(),
        decreases old(self).toks().len() - old(self).at(), 5nat,
    {
        proof {
            lemma_descend_steps(self.toks(), self.at());
        }
        let ghost ts = self.toks();
        let ghost p0 = self.at();
        proof {
            use_type_invariant(&*self);
        }
        match self.expect_symbol('(') {
            Ok(()) => {},
            Err(err) => {
                proof {
                    assert forall|a: Seq<(Option<Seq<char>>, ExprV)>|
                        wf_args(a) && printed_at(
                            ts,
                            p0 - 1,
                            #[trigger] print_expr(call_v(name@, a)),
                        ) implies false by {
                        Self::lemma_call_parts(ts, p0, name@, a);
                    }
                }
                return Err(err);
            },
        }
        let ghost p1 = self.at();
        proof {
            use_type_invariant(&*self);
        }
        let args = match self.parse_arg_list() {
            Ok(args) => args,
            Err(err) => {
                proof {
                    assert forall|a: Seq<(Option<Seq<char>>, ExprV)>|
                        wf_args(a) && printed_at(
                            ts,
                            p0 - 1,
                            #[trigger] print_expr(call_v(name@, a)),
                        ) implies false by {
                        Self::lemma_call_parts(ts, p0, name@, a);
                        assert(args_fit(ts, p1, a));
                    }
                }
                return Err(err);
            },
        };
        let ghost p2 = self.at();
        proof {
            use_type_invariant(&*self);
        }
        match self.expect_symbol(')') {
            Ok(()) => {},
            Err(err) => {
                proof {
                    assert forall|a: Seq<(Option<Seq<char>>, ExprV)>|
                        wf_args(a) && printed_at(
                            ts,
                            p0 - 1,
                            #[trigger] print_expr(call_v(name@, a)),
                        ) implies false by {
                        Self::lemma_call_parts(ts, p0, name@, a);
                        assert(args_fit(ts, p1, a));
                    }
                }
                return Err(err);
            },
        }
        let e = Expression::FunctionCall { name, args };
        proof {
            use_type_invariant(&*self);
            assert(ts.subrange(p0 - 1, p2 + 1) =~= seq![ts[p0 - 1], ts[p0]] + ts.subrange(p1, p2)
                + seq![ts[p2]]);
            assert(e@ == call_v(name@, args_view(args)));
            assert forall|a: Seq<(Option<Seq<char>>, ExprV)>|
                wf_args(a) && printed_at(
                    ts,
                    p0 - 1,
                    #[trigger] print_expr(call_v(name@, a)),
                ) implies e@ == call_v(name@, a) && p2 + 1 == p0 - 1 + print_expr(
                call_v(name@, a),
            ).len() by {
                Self::lemma_call_parts(ts, p0, name@, a);
                assert(args_fit(ts, p1, a));
            }
        }
        Ok(e)
    }

    proof fn lemma_call_parts(
        ts: Seq<TokenV>,
        p0: int,
        name: Seq<char>,
        a: Seq<(Option<Seq<char>>, ExprV)>,
    )
        requires
            printed_at(ts, p0 - 1, print_expr(call_v(name, a))),
        ensures
            ts[p0] == TokenV::Symbol('('),
            printed_at(ts, p0 + 1, print_args(a) + seq![TokenV::Symbol(')')]),
            ts[p0 + 1 + print_args(a).len()] == TokenV::Symbol(')'),
            print_expr(call_v(name, a)).len() == print_args(a).len() + 3,
    {
        let pe = print_expr(call_v(name, a));
        let pa = print_args(a) + seq![TokenV::Symbol(')')];
        assert(pe =~= seq![TokenV::Identifier(name), TokenV::Symbol('(')] + pa);
        lemma_printed_at_split(ts, p0 - 1, seq![TokenV::Identifier(name), TokenV::Symbol('(')], pa);
        lemma_printed_at_index(ts, p0 - 1, pe, 1);
        lemma_printed_at_index(ts, p0 + 1, pa, print_args(a).len() as int);
    }

    fn parse_arg_list(&mut self) -> (r: Result<Vec<(Option<String>, Expression)>, ParseError>)
        ensures
            outcome(r, final(self).at()) == descend_arg_list(old(self).toks(), old(self).at()),
            r is Err ==> !(r->Err_0 is Lex),
            final(self).toks() == old(self).toks(),
            r matches Ok(args) ==> wf_args(args_view(args)) && spans(
                old(self).toks(),
                old(self).at(),
                final(self).at(),
                print_args(args_view(args)),
            ),
            forall|a: Seq<(Option<Seq<char>>, ExprV)>|
                #![trigger args_fit(old(self).toks(), old(self).at(), a)]
                args_fit(old(self).toks(), old(self).at(), a) ==> r is Ok && args_view(r->Ok_0)
                    == a && final(self).at() == old(self).at() + print_args(a).len(),
        decreases old(self).toks().len() - old(self).at(), 4nat,
    {
        proof {
            lemma_descend_steps(self.toks(), self.at());
        }
        let ghost ts = self.toks();
        let ghost p0 = self.at();
        proof {
            use_type_invariant(&*self);
        }
        if self.check_symbol(')') {
            proof {
                assert forall|a: Seq<(Option<Seq<char>>, ExprV)>| args_fit(ts, p0, a) implies a.len()
                    == 0 by {
                    if a.len() > 0 {
                        Self::lemma_arg_at(ts, p0, a, 0);
                    }
                }
                assert(ts.subrange(p0, p0) =~= Seq::<TokenV>::empty());
            }
            let empty: Vec<(Option<String>, Expression)> = Vec::new();
            assert(args_view(empty) =~= Seq::empty());
            return Ok(empty);
        }
        let mut args: Vec<(Option<String>, Expression)> = Vec::new();
        proof {
            assert(args_view(args) =~= Seq::empty());
            assert forall|a: Seq<(Option<Seq<char>>, ExprV)>| args_fit(ts, p0, a) implies 0
                < a.len() && args_view(args) == a.take(0) by {
                if a.len() == 0 {
                    lemma_printed_at_index(ts, p0, print_args(a) + seq![TokenV::Symbol(')')], 0);
                }
                assert(a.take(0) =~= Seq::empty());
            }
        }
        loop
            invariant_except_break
                descend_arg_list(ts, p0) == descend_args(ts, self.at()),
                args.len() > 0 ==> spans(ts, p0, self.at() - 1, print_args(args_view(args)))
                    && ts[self.at() - 1] == TokenV::Symbol(','),
                forall|a: Seq<(Option<Seq<char>>, ExprV)>|
                    #![trigger args_fit(ts, p0, a)]
                    args_fit(ts, p0, a) ==> args.len() < a.len() && args_view(args) == a.take(
                        args.len() as int,
                    ) && self.at() == Self::arg_start(a, p0, args.len() as int),
            invariant
                self.toks() == ts,
                ts == old(self).toks(),
                p0 == old(self).at(),
                p0 <= self.at() < ts.len(),
                wf_args(args_view(args)),
                args.len() == 0 ==> self.at() == p0,
            ensures
                self.toks() == ts,
                descend_arg_list(ts, p0) == Ok::<int, (SyntaxErrorV, int)>(self.at()),
                wf_args(args_view(args)),
                spans(ts, p0, self.at(), print_args(args_view(args))),
                forall|a: Seq<(Option<Seq<char>>, ExprV)>|
                    #![trigger args_fit(ts, p0, a)]
                    args_fit(ts, p0, a) ==> args_view(args) == a && self.at() == p0 + print_args(
                        a,
                    ).len(),
            decreases ts.len() - self.at(),
        {
            let ghost k = args.len() as int;
            let ghost q0 = self.at();
            proof {
                lemma_descend_steps(ts, q0);
            }
            let ghost before = args_view(args);
            proof {
                assert forall|a: Seq<(Option<Seq<char>>, ExprV)>| args_fit(ts, p0, a) implies Self::arg_follows(
                    ts,
                    q0,
                    a,
                    k,
                ) by {
                    Self::lemma_arg_at(ts, p0, a, k);
                }
            }
            let labelled = self.is_identifier() && self.peek_next_is_symbol(':');
            let label = if labelled {
                let l = match self.expect_identifier() {
                    Ok(l) => l,
                    Err(err) => {
                        return Err(err);
                    },
                };
                match self.expect_symbol(':') {
                    Ok(()) => {},
                    Err(err) => {
                        return Err(err);
                    },
                }
                Some(l)
            } else {
                None
            };
            let ghost q1 = self.at();
            proof {
                assert forall|a: Seq<(Option<Seq<char>>, ExprV)>| args_fit(ts, p0, a) implies opt_text_view(
                    label,
                ) == a[k].0 && expr_fits(ts, q1, a[k].1) by {
                    Self::lemma_arg_label(ts, q0, a, k);
                }
            }
            let expr = match self.parse_expression() {
                Ok(e) => e,
                Err(err) => {
                    proof {
                        assert forall|a: Seq<(Option<Seq<char>>, ExprV)>| args_fit(
                            ts,
                            p0,
                            a,
                        ) implies false by {
                            Self::lemma_arg_label(ts, q0, a, k);
                        }
                    }
                    return Err(err);
                },
            };
            let ghost q2 = self.at();
            let ghost item = (opt_text_view(label), expr@);
            args.push((label, expr));
            proof {
                use_type_invariant(&*self);
                assert(args_view(args) =~= before.push(item));
                assert(args_view(args).drop_last() =~= before);
                assert(ts.subrange(q0, q2) == print_arg(item)) by {
                    if labelled {
                        assert(ts.subrange(q0, q2) =~= seq![ts[q0], ts[q0 + 1]] + ts.subrange(
                            q1,
                            q2,
                        ));
                    }
                }
                if k > 0 {
                    assert(ts.subrange(p0, q2) =~= ts.subrange(p0, q0 - 1) + seq![ts[q0 - 1]]
                        + ts.subrange(q0, q2));
                } else {
                    assert(args_view(args) =~= seq![item]);
                }
                assert forall|a: Seq<(Option<Seq<char>>, ExprV)>| args_fit(ts, p0, a) implies a[k]
                    == item && q2 == q0 + print_arg(a[k]).len() by {
                    Self::lemma_arg_label(ts, q0, a, k);
                }
            }
            let more = self.match_symbol(',');
            proof {
                assert forall|a: Seq<(Option<Seq<char>>, ExprV)>| args_fit(ts, p0, a) implies (more
                    <==> k + 1 < a.len()) && args_view(args) == a.take(k + 1) && Self::arg_start(
                    a,
                    p0,
                    k + 1,
                ) == q2 + 1 && (k + 1 == a.len() ==> q2 == p0 + print_args(a).len()) by {
                    Self::lemma_arg_label(ts, q0, a, k);
                    Self::lemma_arg_step(ts, p0, a, k);
                    assert(args_view(args) =~= a.take(k + 1));
                }
            }
            if !more {
                break;
            }
        }
        Ok(args)
    }

    /// Where argument `k` of `a` starts, when `a` is printed at `p0`.
    spec fn arg_start(a: Seq<(Option<Seq<char>>, ExprV)>, p0: int, k: int) -> int {
        if k == 0 {
            p0
        } else {
            p0 + print_args(a.take(k)).len() + 1
        }
    }

    /// Argument `k` of `a` is printed at `q`, followed by a comma where more
    /// arguments follow and by `)` otherwise.
    spec fn arg_follows(ts: Seq<TokenV>, q: int, a: Seq<(Option<Seq<char>>, ExprV)>, k: int) -> bool {
        &&& 0 <= k < a.len()
        &&& wf_expr(a[k].1)
        &&& printed_at(ts, q, print_arg(a[k]))
        &&& tok_at(ts, q + print_arg(a[k]).len()) == if k + 1 < a.len() {
            TokenV::Symbol(',')
        } else {
            TokenV::Symbol(')')
        }
    }

    proof fn lemma_arg_at(ts: Seq<TokenV>, p0: int, a: Seq<(Option<Seq<char>>, ExprV)>, k: int)
        requires
            args_fit(ts, p0, a),
            0 <= k < a.len(),
        ensures
            Self::arg_follows(ts, Self::arg_start(a, p0, k), a, k),
            ts[Self::arg_start(a, p0, k)] == print_arg(a[k])[0],
            !(print_arg(a[k])[0] == TokenV::Symbol(')')),
    {
        let q = Self::arg_start(a, p0, k);
        let tail = if k + 1 < a.len() {
            seq![TokenV::Symbol(',')] + print_args(a.skip(k + 1))
        } else {
            Seq::empty()
        };
        lemma_print_args_from(a, k);
        lemma_wf_args_index(a, k);
        if k == 0 {
            assert(a.skip(0) =~= a);
        } else {
            lemma_print_args_split(a, k);
            assert(print_args(a) + seq![TokenV::Symbol(')')] =~= print_args(a.take(k)) + seq![
                TokenV::Symbol(','),
            ] + (print_args(a.skip(k)) + seq![TokenV::Symbol(')')]));
            lemma_printed_at_split(
                ts,
                p0,
                print_args(a.take(k)) + seq![TokenV::Symbol(',')],
                print_args(a.skip(k)) + seq![TokenV::Symbol(')')],
            );
            assert(print_args(a) + seq![TokenV::Symbol(')')] =~= print_args(a.take(k)) + seq![
                TokenV::Symbol(','),
            ] + (print_args(a.skip(k)) + seq![TokenV::Symbol(')')]));
        }
        assert(printed_at(ts, q, print_args(a.skip(k)) + seq![TokenV::Symbol(')')]));
        assert(print_args(a.skip(k)) + seq![TokenV::Symbol(')')] =~= print_arg(a[k]) + (tail
            + seq![TokenV::Symbol(')')]));
        lemma_printed_at_split(ts, q, print_arg(a[k]), tail + seq![TokenV::Symbol(')')]);
        lemma_printed_at_index(ts, q + print_arg(a[k]).len(), tail + seq![TokenV::Symbol(')')], 0);
        lemma_expr_first_token(a[k].1);
        lemma_printed_at_index(ts, q, print_arg(a[k]), 0);
    }

    /// How argument `k` reads: its label, where it has one, then its
    /// expression, which fits where it stands.
    proof fn lemma_arg_label(ts: Seq<TokenV>, q0: int, a: Seq<(Option<Seq<char>>, ExprV)>, k: int)
        requires
            Self::arg_follows(ts, q0, a, k),
        ensures
            (a[k].0 is Some) == (ts[q0] is Identifier && q0 + 1 < ts.len() && ts[q0 + 1]
                == TokenV::Symbol(':')),
            a[k].0 matches Some(l) ==> ts[q0] == TokenV::Identifier(l),
            expr_fits(ts, q0 + if a[k].0 is Some { 2int } else { 0int }, a[k].1),
            print_arg(a[k]).len() == print_expr(a[k].1).len() + if a[k].0 is Some {
                2int
            } else {
                0int
            },
    {
        let pa = print_arg(a[k]);
        let pe = print_expr(a[k].1);
        lemma_expr_first_token(a[k].1);
        let follow = tok_at(ts, q0 + pa.len());
        match a[k].0 {
            Some(l) => {
                assert(pa == seq![TokenV::Identifier(l), TokenV::Symbol(':')] + pe);
                lemma_printed_at_split(ts, q0, seq![TokenV::Identifier(l), TokenV::Symbol(':')], pe);
                lemma_printed_at_index(ts, q0, pa, 0);
                lemma_printed_at_index(ts, q0, pa, 1);
            },
            None => {
                lemma_printed_at_index(ts, q0, pa, 0);
                if pe.len() > 1 {
                    lemma_printed_at_index(ts, q0, pa, 1);
                }
            },
        }
    }

    proof fn lemma_arg_step(ts: Seq<TokenV>, p0: int, a: Seq<(Option<Seq<char>>, ExprV)>, k: int)
        requires
            args_fit(ts, p0, a),
            0 <= k < a.len(),
        ensures
            Self::arg_start(a, p0, k + 1) == Self::arg_start(a, p0, k) + print_arg(a[k]).len() + 1,
            k + 1 == a.len() ==> Self::arg_start(a, p0, k) + print_arg(a[k]).len() == p0
                + print_args(a).len(),
    {
        if k == 0 {
            assert(a.take(1) =~= seq![a[0]]);
            assert(print_args(a.take(1)) == print_arg(a.take(1)[0]));
        } else {
            assert(a.take(k + 1).drop_last() =~= a.take(k));
            assert(a.take(k + 1).last() == a[k]);
            assert(print_args(a.take(k + 1)) == print_args(a.take(k + 1).drop_last()) + seq![
                TokenV::Symbol(','),
            ] + print_arg(a.take(k + 1).last()));
        }
        if k + 1 == a.len() {
            assert(a.take(k + 1) =~= a);
        }
    }
}

/// `p` is a well-formed program whose printing is the tokens of `source`.
pub open spec fn parses_to(source: Seq<char>, p: Seq<StmtV>) -> bool {
    wf_stmts(p) && lex(source) == Ok::<Seq<TokenV>, LexError>(print_program(p))
}

impl Parser {
    /// Parses a whole source text.
    ///
    /// It succeeds exactly on the texts whose tokens are the printing of a
    /// well-formed program, and then gives that program. A text that cannot be
    /// split into tokens gives the lexer's error; any other text gives the
    /// error at the first token that the descent could not read.
    pub fn parse(source: &str) -> (r: Result<Vec<Statement>, ParseError>)
        ensures
            r matches Ok(stmts) ==> parses_to(source@, stmts_view(stmts)),
            r is Err ==> forall|p: Seq<StmtV>| !parses_to(source@, p),
            forall|p: Seq<StmtV>| #[trigger]
                parses_to(source@, p) ==> (r matches Ok(stmts) && stmts_view(stmts) == p),
            lex(source@) is Err ==> r == Err::<Vec<Statement>, ParseError>(
                ParseError::Lex(lex(source@)->Err_0),
            ),
            lex(source@) is Ok && r is Err ==> !(r->Err_0 is Lex),
            lex(source@) matches Ok(ts) ==> match r {
                Ok(_) => descend_program(ts, 0) is Ok,
                Err(e) => (descend_program(ts, 0) matches Err((x, _)) && x == syntax_error_view(e)),
            },
    {
        let mut lexer = Lexer::new(source);
        let tokens = match lexer.tokenize() {
            Ok(t) => t,
            Err(e) => {
                return Err(ParseError::Lex(e));
            },
        };
        proof {
            lemma_lex_eof_terminated(source@, 0);
            assert(tokens@.len() == tokens.len());
        }
        let mut parser = Parser { tokens, pos: 0 };
        let r = parser.parse_program();
        proof {
            assert forall|p: Seq<StmtV>| r is Err implies !parses_to(source@, p) by {
                if parses_to(source@, p) {
                    assert(print_program(p) == parser.toks());
                }
            }
        }
        r
    }

    fn parse_program(&mut self) -> (r: Result<Vec<Statement>, ParseError>)
        requires
            old(self).at() == 0,
        ensures
            outcome(r, final(self).at()) == descend_program(old(self).toks(), old(self).at()),
            r is Err ==> !(r->Err_0 is Lex),
            final(self).toks() == old(self).toks(),
            r matches Ok(ss) ==> wf_stmts(stmts_view(ss)) && old(self).toks() == print_program(
                stmts_view(ss),
            ),
            forall|ss: Seq<StmtV>|
                #![trigger print_program(ss)]
                wf_stmts(ss) && old(self).toks() == print_program(ss) ==> r is Ok && stmts_view(
                    r->Ok_0,
                ) == ss,
    {
        proof {
            lemma_descend_steps(self.toks(), self.at());
        }
        let ghost ts = self.toks();
        proof {
            use_type_invariant(&*self);
        }
        let mut statements: Vec<Statement> = Vec::new();
        proof {
            assert(stmts_view(statements) =~= Seq::empty());
            assert(ts.subrange(0, 0) =~= print_stmts(Seq::empty()));
            assert forall|ss: Seq<StmtV>| wf_stmts(ss) && ts == print_program(ss) implies stmts_view(
                statements,
            ) == ss.take(0) && 0 == print_stmts(ss.take(0)).len() by {
                assert(ss.take(0) =~= Seq::<StmtV>::empty());
            }
        }
        while !self.is_at_end()
            invariant
                self.toks() == ts,
                ts == old(self).toks(),
                old(self).at() == 0,
                eof_terminated(ts),
                0 <= self.at() < ts.len(),
                wf_stmts(stmts_view(statements)),
                spans(ts, 0, self.at(), print_stmts(stmts_view(statements))),
                descend_program(ts, 0) == descend_program(ts, self.at()),
                forall|ss: Seq<StmtV>|
                    #![trigger print_program(ss)]
                    wf_stmts(ss) && ts == print_program(ss) ==> statements.len() <= ss.len()
                        && stmts_view(statements) == ss.take(statements.len() as int) && self.at()
                        == print_stmts(ss.take(statements.len() as int)).len(),
            decreases ts.len() - self.at(),
        {
            let ghost k = statements.len() as int;
            let ghost q0 = self.at();
            proof {
                use_type_invariant(&*self);
                lemma_descend_steps(ts, q0);
            }
            let ghost before = stmts_view(statements);
            proof {
                assert forall|ss: Seq<StmtV>| wf_stmts(ss) && ts == print_program(ss) implies k
                    < ss.len() && stmt_fits(ts, q0, ss[k]) by {
                    Self::lemma_program_item(ts, ss, k);
                }
            }
            let s = match self.parse_statement() {
                Ok(s) => s,
                Err(err) => {
                    proof {
                        assert forall|ss: Seq<StmtV>|
                            wf_stmts(ss) && ts == print_program(ss) implies #[trigger] print_program(
                            ss,
                        ) != ts by {
                            Self::lemma_program_item(ts, ss, k);
                        }
                    }
                    return Err(err);
                },
            };
            let ghost q1 = self.at();
            proof {
                use_type_invariant(&*self);
            }
            proof {
                lemma_stmt_first_token(s@);
            }
            statements.push(s);
            proof {
                use_type_invariant(&*self);
                assert(stmts_view(statements) =~= before.push(s@));
                assert(stmts_view(statements).drop_last() =~= before);
                assert(ts.subrange(0, q1) =~= ts.subrange(0, q0) + ts.subrange(q0, q1));
                assert forall|ss: Seq<StmtV>| wf_stmts(ss) && ts == print_program(ss) implies stmts_view(
                    statements,
                ) == ss.take(k + 1) && q1 == print_stmts(ss.take(k + 1)).len() by {
                    Self::lemma_program_item(ts, ss, k);
                    assert(ss.take(k + 1).drop_last() =~= ss.take(k));
                    assert(stmts_view(statements) =~= ss.take(k + 1));
                }
            }
        }
        proof {
            lemma_descend_steps(ts, self.at());
            assert(ts =~= ts.subrange(0, self.at()) + seq![ts[self.at()]]);
            assert forall|ss: Seq<StmtV>| wf_stmts(ss) && ts == print_program(ss) implies stmts_view(
                statements,
            ) == ss by {
                let k = statements.len() as int;
                if k < ss.len() {
                    Self::lemma_program_item(ts, ss, k);
                } else {
                    assert(ss.take(k) =~= ss);
                }
            }
        }
        Ok(statements)
    }

    /// Statement `k` of a program printed as `ts` fits where the first `k`
    /// end, when there are more than `k`; otherwise `Eof` stands there.
    proof fn lemma_program_item(ts: Seq<TokenV>, ss: Seq<StmtV>, k: int)
        requires
            wf_stmts(ss),
            ts == print_program(ss),
            0 <= k <= ss.len(),
        ensures
            k < ss.len() ==> stmt_fits(ts, print_stmts(ss.take(k)).len() as int, ss[k])
                && starts_statement(ts[print_stmts(ss.take(k)).len() as int]),
            k == ss.len() ==> ts[print_stmts(ss.take(k)).len() as int] is Eof,
            printed_at(ts, 0, print_stmts(ss.take(k))),
    {
        lemma_print_stmts_at(ss, k);
        let pre = print_stmts(ss.take(k));
        assert(ts =~= pre + (print_stmts(ss.skip(k)) + seq![TokenV::Eof]));
        assert(ts.subrange(0, ts.len() as int) =~= ts);
        assert(printed_at(ts, 0, ts));
        lemma_printed_at_split(ts, 0, pre, print_stmts(ss.skip(k)) + seq![TokenV::Eof]);
        if k < ss.len() {
            lemma_wf_stmts_index(ss, k);
            lemma_stmt_first_token(ss[k]);
            assert(print_stmts(ss.skip(k)) + seq![TokenV::Eof] =~= print_stmt(ss[k]) + (
            print_stmts(ss.skip(k + 1)) + seq![TokenV::Eof]));
            lemma_printed_at_split(
                ts,
                pre.len() as int,
                print_stmt(ss[k]),
                print_stmts(ss.skip(k + 1)) + seq![TokenV::Eof],
            );
            lemma_printed_at_index(ts, pre.len() as int, print_stmt(ss[k]), 0);
        } else {
            assert(ss.skip(k) =~= Seq::<StmtV>::empty());
            assert(print_stmts(Seq::<StmtV>::empty()) =~= Seq::empty());
            lemma_printed_at_index(ts, pre.len() as int, print_stmts(ss.skip(k)) + seq![TokenV::Eof], 0);
        }
    }
}

impl Parser {
    fn parse_statement(&mut self) -> (r: Result<Statement, ParseError>)
        ensures
            outcome(r, final(self).at()) == descend_stmt(old(self).toks(), old(self).at()),
            r is Err ==> !(r->Err_0 is Lex),
            final(self).toks() == old(self).toks(),
            r matches Ok(s) ==> wf_stmt(s@) && spans(
                old(self).toks(),
                old(self).at(),
                final(self).at(),
                print_stmt(s@),
            ),
            forall|s: StmtV|
                #![trigger stmt_fits(old(self).toks(), old(self).at(), s)]
                stmt_fits(old(self).toks(), old(self).at(), s) ==> r is Ok && r->Ok_0@ == s
                    && final(self).at() == old(self).at() + print_stmt(s).len(),
        decreases old(self).toks().len() - old(self).at(), 8nat,
    {
        proof {
            lemma_descend_steps(self.toks(), self.at());
        }
        let ghost ts = self.toks();
        let ghost p0 = self.at();
        proof {
            use_type_invariant(&*self);
        }
        proof {
            use_type_invariant(&*self);
            assert forall|s: StmtV| stmt_fits(ts, p0, s) implies ts[p0] == print_stmt(s)[0] by {
                lemma_stmt_first_token(s);
                lemma_printed_at_index(ts, p0, print_stmt(s), 0);
            }
        }
        let kind: u8 = match self.current() {
            Token::KwConst => 1,
            Token::KwLet => 2,
            Token::KwIf => 3,
            Token::KwReturn => 4,
            _ => 0,
        };
        if kind == 1 {
            proof {
                assert forall|s: StmtV| stmt_fits(ts, p0, s) implies s is VarDeclaration by {
                    lemma_stmt_first_token(s);
                }
            }
            return self.parse_var_declaration(true);
        }
        if kind == 2 {
            if self.peek_is_identifier() && self.peek_ahead_is_symbol('(') {
                let r = self.parse_func_declaration();
                proof {
                    assert forall|s: StmtV| stmt_fits(ts, p0, s) implies s is FuncDeclaration by {
                        lemma_stmt_first_token(s);
                        if s is VarDeclaration {
                            Self::lemma_var_parts(ts, p0, s);
                        }
                    }
                }
                return r;
            } else {
                let r = self.parse_var_declaration(false);
                proof {
                    assert forall|s: StmtV| stmt_fits(ts, p0, s) implies s is VarDeclaration by {
                        lemma_stmt_first_token(s);
                        if s is FuncDeclaration {
                            Self::lemma_func_parts(ts, p0, s);
                        }
                    }
                }
                return r;
            }
        }
        if kind == 3 {
            return self.parse_if_statement();
        }
        if kind == 4 {
            return self.parse_return_statement();
        }
        let expr = match self.parse_expression() {
            Ok(e) => e,
            Err(err) => {
                proof {
                    assert forall|s: StmtV| stmt_fits(ts, p0, s) implies false by {
                        Self::lemma_expression_stmt_parts(ts, p0, s);
                    }
                }
                return Err(err);
            },
        };
        let ghost p1 = self.at();
        proof {
            use_type_invariant(&*self);
        }
        match self.expect_symbol(';') {
            Ok(()) => {},
            Err(err) => {
                proof {
                    assert forall|s: StmtV| stmt_fits(ts, p0, s) implies false by {
                        Self::lemma_expression_stmt_parts(ts, p0, s);
                    }
                }
                return Err(err);
            },
        }
        let st = Statement::Expression(expr);
        proof {
            use_type_invariant(&*self);
            assert(ts.subrange(p0, p1 + 1) =~= ts.subrange(p0, p1) + seq![ts[p1]]);
            assert forall|s: StmtV| stmt_fits(ts, p0, s) implies st@ == s && p1 + 1 == p0
                + print_stmt(s).len() by {
                Self::lemma_expression_stmt_parts(ts, p0, s);
            }
        }
        Ok(st)
    }

    proof fn lemma_expression_stmt_parts(ts: Seq<TokenV>, p0: int, s: StmtV)
        requires
            stmt_fits(ts, p0, s),
            !starts_statement(ts[p0]) || starts_expression(ts[p0]),
            !(ts[p0] is KwConst || ts[p0] is KwLet || ts[p0] is KwIf || ts[p0] is KwReturn),
        ensures
            s matches StmtV::Expression(e) && expr_fits(ts, p0, e) && ts[p0 + print_expr(e).len()]
                == TokenV::Symbol(';') && print_stmt(s).len() == print_expr(e).len() + 1,
    {
        lemma_stmt_first_token(s);
        lemma_printed_at_index(ts, p0, print_stmt(s), 0);
        if let StmtV::Expression(e) = s {
            let pe = print_expr(e);
            lemma_printed_at_split(ts, p0, pe, seq![TokenV::Symbol(';')]);
            lemma_printed_at_index(ts, p0 + pe.len(), seq![TokenV::Symbol(';')], 0);
        }
    }

    proof fn lemma_var_parts(ts: Seq<TokenV>, p0: int, s: StmtV)
        requires
            stmt_fits(ts, p0, s),
            s is VarDeclaration,
        ensures
            s matches StmtV::VarDeclaration { immutable, name, value } && ts[p0] == (if immutable {
                TokenV::KwConst
            } else {
                TokenV::KwLet
            }) && ts[p0 + 1] == TokenV::Identifier(name) && ts[p0 + 2] == TokenV::Symbol('=')
                && expr_fits(ts, p0 + 3, value) && ts[p0 + 3 + print_expr(value).len()]
                == TokenV::Symbol(';') && print_stmt(s).len() == print_expr(value).len() + 4,
    {
        if let StmtV::VarDeclaration { immutable, name, value } = s {
            let kw = if immutable {
                TokenV::KwConst
            } else {
                TokenV::KwLet
            };
            let h = seq![kw, TokenV::Identifier(name), TokenV::Symbol('=')];
            let pv = print_expr(value);
            let t = seq![TokenV::Symbol(';')];
            assert(print_stmt(s) == h + pv + t);
            lemma_printed_at_split(ts, p0, h + pv, t);
            lemma_printed_at_split(ts, p0, h, pv);
            lemma_printed_at_index(ts, p0, h, 0);
            lemma_printed_at_index(ts, p0, h, 1);
            lemma_printed_at_index(ts, p0, h, 2);
            lemma_printed_at_index(ts, p0 + 3 + pv.len(), t, 0);
        }
    }

    fn parse_var_declaration(&mut self, immutable: bool) -> (r: Result<Statement, ParseError>)
        requires
            old(self).toks()[old(self).at()] == if immutable {
                TokenV::KwConst
            } else {
                TokenV::KwLet
            },
        ensures
            outcome(r, final(self).at()) == descend_var(old(self).toks(), old(self).at()),
            r is Err ==> !(r->Err_0 is Lex),
            final(self).toks() == old(self).toks(),
            r matches Ok(s) ==> wf_stmt(s@) && spans(
                old(self).toks(),
                old(self).at(),
                final(self).at(),
                print_stmt(s@),
            ),
            forall|s: StmtV|
                #![trigger stmt_fits(old(self).toks(), old(self).at(), s)]
                stmt_fits(old(self).toks(), old(self).at(), s) && s is VarDeclaration ==> r is Ok
                    && r->Ok_0@ == s && final(self).at() == old(self).at() + print_stmt(s).len(),
        decreases old(self).toks().len() - old(self).at(), 7nat,
    {
        proof {
            lemma_descend_steps(self.toks(), self.at());
        }
        let ghost ts = self.toks();
        let ghost p0 = self.at();
        proof {
            use_type_invariant(&*self);
        }
        self.advance();
        let name = match self.expect_identifier() {
            Ok(n) => n,
            Err(err) => {
                proof {
                    assert forall|s: StmtV| stmt_fits(ts, p0, s) && s is VarDeclaration implies false by {
                        Self::lemma_var_parts(ts, p0, s);
                    }
                }
                return Err(err);
            },
        };
        match self.expect_symbol('=') {
            Ok(()) => {},
            Err(err) => {
                proof {
                    assert forall|s: StmtV| stmt_fits(ts, p0, s) && s is VarDeclaration implies false by {
                        Self::lemma_var_parts(ts, p0, s);
                    }
                }
                return Err(err);
            },
        }
        proof {
            use_type_invariant(&*self);
        }
        let value = match self.parse_expression() {
            Ok(e) => e,
            Err(err) => {
                proof {
                    assert forall|s: StmtV| stmt_fits(ts, p0, s) && s is VarDeclaration implies false by {
                        Self::lemma_var_parts(ts, p0, s);
                        if let StmtV::VarDeclaration { immutable: i2, name: n2, value: v2 } = s {
                            assert(expr_fits(ts, p0 + 3, v2));
                        }
                    }
                }
                return Err(err);
            },
        };
        let ghost p1 = self.at();
        proof {
            use_type_invariant(&*self);
        }
        match self.expect_symbol(';') {
            Ok(()) => {},
            Err(err) => {
                proof {
                    assert forall|s: StmtV| stmt_fits(ts, p0, s) && s is VarDeclaration implies false by {
                        Self::lemma_var_parts(ts, p0, s);
                        if let StmtV::VarDeclaration { immutable: i2, name: n2, value: v2 } = s {
                            assert(expr_fits(ts, p0 + 3, v2));
                        }
                    }
                }
                return Err(err);
            },
        }
        let st = Statement::VarDeclaration { immutable, name, value };
        proof {
            use_type_invariant(&*self);
            assert(ts.subrange(p0, p1 + 1) =~= seq![ts[p0], ts[p0 + 1], ts[p0 + 2]] + ts.subrange(
                p0 + 3,
                p1,
            ) + seq![ts[p1]]);
            assert forall|s: StmtV| stmt_fits(ts, p0, s) && s is VarDeclaration implies st@ == s && p1
                + 1 == p0 + print_stmt(s).len() by {
                Self::lemma_var_parts(ts, p0, s);
                if let StmtV::VarDeclaration { immutable: i2, name: n2, value: v2 } = s {
                    assert(expr_fits(ts, p0 + 3, v2));
                }
            }
        }
        Ok(st)
    }

    proof fn lemma_return_parts(ts: Seq<TokenV>, p0: int, s: StmtV)
        requires
            stmt_fits(ts, p0, s),
            s is Return,
        ensures
            s matches StmtV::Return(e) && ts[p0] == TokenV::KwReturn && expr_fits(ts, p0 + 1, e)
                && ts[p0 + 1 + print_expr(e).len()] == TokenV::Symbol(';') && print_stmt(s).len()
                == print_expr(e).len() + 2,
    {
        if let StmtV::Return(e) = s {
            let h = seq![TokenV::KwReturn];
            let pe = print_expr(e);
            let t = seq![TokenV::Symbol(';')];
            assert(print_stmt(s) == h + pe + t);
            lemma_printed_at_split(ts, p0, h + pe, t);
            lemma_printed_at_split(ts, p0, h, pe);
            lemma_printed_at_index(ts, p0, h, 0);
            lemma_printed_at_index(ts, p0 + 1 + pe.len(), t, 0);
        }
    }

    fn parse_return_statement(&mut self) -> (r: Result<Statement, ParseError>)
        requires
            old(self).toks()[old(self).at()] == TokenV::KwReturn,
        ensures
            outcome(r, final(self).at()) == descend_return(old(self).toks(), old(self).at()),
            r is Err ==> !(r->Err_0 is Lex),
            final(self).toks() == old(self).toks(),
            r matches Ok(s) ==> wf_stmt(s@) && spans(
                old(self).toks(),
                old(self).at(),
                final(self).at(),
                print_stmt(s@),
            ),
            forall|s: StmtV|
                #![trigger stmt_fits(old(self).toks(), old(self).at(), s)]
                stmt_fits(old(self).toks(), old(self).at(), s) ==> r is Ok && r->Ok_0@ == s
                    && final(self).at() == old(self).at() + print_stmt(s).len(),
        decreases old(self).toks().len() - old(self).at(), 7nat,
    {
        proof {
            lemma_descend_steps(self.toks(), self.at());
        }
        let ghost ts = self.toks();
        let ghost p0 = self.at();
        proof {
            use_type_invariant(&*self);
        }
        proof {
            assert forall|s: StmtV| stmt_fits(ts, p0, s) implies s is Return by {
                lemma_stmt_first_token(s);
                lemma_printed_at_index(ts, p0, print_stmt(s), 0);
            }
        }
        self.advance();
        let value = match self.parse_expression() {
            Ok(e) => e,
            Err(err) => {
                proof {
                    assert forall|s: StmtV| stmt_fits(ts, p0, s) implies false by {
                        Self::lemma_return_parts(ts, p0, s);
                    }
                }
                return Err(err);
            },
        };
        let ghost p1 = self.at();
        proof {
            use_type_invariant(&*self);
        }
        match self.expect_symbol(';') {
            Ok(()) => {},
            Err(err) => {
                proof {
                    assert forall|s: StmtV| stmt_fits(ts, p0, s) implies false by {
                        Self::lemma_return_parts(ts, p0, s);
                    }
                }
                return Err(err);
            },
        }
        let st = Statement::Return(value);
        proof {
            use_type_invariant(&*self);
            assert(ts.subrange(p0, p1 + 1) =~= seq![ts[p0]] + ts.subrange(p0 + 1, p1) + seq![
                ts[p1],
            ]);
            assert forall|s: StmtV| stmt_fits(ts, p0, s) implies st@ == s && p1 + 1 == p0
                + print_stmt(s).len() by {
                Self::lemma_return_parts(ts, p0, s);
            }
        }
        Ok(st)
    }
}

impl Parser {
    proof fn lemma_if_parts(ts: Seq<TokenV>, p0: int, s: StmtV)
        requires
            stmt_fits(ts, p0, s),
            s is IfStatement,
        ensures
            s matches StmtV::IfStatement { condition, then_branch } && ts[p0] == TokenV::KwIf
                && expr_fits(ts, p0 + 1, condition) && ts[p0 + 1 + print_expr(condition).len()]
                == TokenV::KwDo && block_fits(ts, p0 + 2 + print_expr(condition).len(), then_branch)
                && ts[p0 + 2 + print_expr(condition).len() + print_stmts(then_branch).len()]
                == TokenV::KwEnd && ts[p0 + 3 + print_expr(condition).len() + print_stmts(
                then_branch,
            ).len()] == TokenV::Symbol(';') && print_stmt(s).len() == print_expr(condition).len()
                + print_stmts(then_branch).len() + 4,
    {
        if let StmtV::IfStatement { condition, then_branch } = s {
            let pe = print_expr(condition);
            let pb = print_stmts(then_branch);
            let rest = pb + seq![TokenV::KwEnd, TokenV::Symbol(';')];
            assert(print_stmt(s) =~= seq![TokenV::KwIf] + pe + (seq![TokenV::KwDo] + rest));
            lemma_printed_at_split(ts, p0, seq![TokenV::KwIf] + pe, seq![TokenV::KwDo] + rest);
            lemma_printed_at_split(ts, p0, seq![TokenV::KwIf], pe);
            lemma_printed_at_index(ts, p0, seq![TokenV::KwIf], 0);
            let d = p0 + 1 + pe.len();
            lemma_printed_at_split(ts, d, seq![TokenV::KwDo], rest);
            lemma_printed_at_index(ts, d, seq![TokenV::KwDo], 0);
            assert(rest =~= (pb + seq![TokenV::KwEnd]) + seq![TokenV::Symbol(';')]);
            lemma_printed_at_split(ts, d + 1, pb + seq![TokenV::KwEnd], seq![TokenV::Symbol(';')]);
            lemma_printed_at_split(ts, d + 1, pb, seq![TokenV::KwEnd]);
            lemma_printed_at_index(ts, d + 1 + pb.len(), seq![TokenV::KwEnd], 0);
            lemma_printed_at_index(ts, d + 2 + pb.len(), seq![TokenV::Symbol(';')], 0);
        }
    }

    fn parse_if_statement(&mut self) -> (r: Result<Statement, ParseError>)
        requires
            old(self).toks()[old(self).at()] == TokenV::KwIf,
        ensures
            outcome(r, final(self).at()) == descend_if(old(self).toks(), old(self).at()),
            r is Err ==> !(r->Err_0 is Lex),
            final(self).toks() == old(self).toks(),
            r matches Ok(s) ==> wf_stmt(s@) && spans(
                old(self).toks(),
                old(self).at(),
                final(self).at(),
                print_stmt(s@),
            ),
            forall|s: StmtV|
                #![trigger stmt_fits(old(self).toks(), old(self).at(), s)]
                stmt_fits(old(self).toks(), old(self).at(), s) ==> r is Ok && r->Ok_0@ == s
                    && final(self).at() == old(self).at() + print_stmt(s).len(),
        decreases old(self).toks().len() - old(self).at(), 7nat,
    {
        proof {
            lemma_descend_steps(self.toks(), self.at());
        }
        let ghost ts = self.toks();
        let ghost p0 = self.at();
        proof {
            use_type_invariant(&*self);
        }
        proof {
            assert forall|s: StmtV| stmt_fits(ts, p0, s) implies s is IfStatement by {
                lemma_stmt_first_token(s);
                lemma_printed_at_index(ts, p0, print_stmt(s), 0);
            }
        }
        self.advance();
        let condition = match self.parse_expression() {
            Ok(e) => e,
            Err(err) => {
                proof {
                    assert forall|s: StmtV| stmt_fits(ts, p0, s) implies false by {
                        Self::lemma_if_parts(ts, p0, s);
                    }
                }
                return Err(err);
            },
        };
        let ghost p1 = self.at();
        proof {
            use_type_invariant(&*self);
        }
        match self.expect_keyword(Token::KwDo) {
            Ok(()) => {},
            Err(err) => {
                proof {
                    assert forall|s: StmtV| stmt_fits(ts, p0, s) implies false by {
                        Self::lemma_if_parts(ts, p0, s);
                    }
                }
                return Err(err);
            },
        }
        proof {
            use_type_invariant(&*self);
        }
        let then_branch = match self.parse_block() {
            Ok(b) => b,
            Err(err) => {
                proof {
                    assert forall|s: StmtV| stmt_fits(ts, p0, s) implies false by {
                        Self::lemma_if_parts(ts, p0, s);
                        if let StmtV::IfStatement { condition: c, then_branch: b } = s {
                            assert(block_fits(ts, p1 + 1, b));
                        }
                    }
                }
                return Err(err);
            },
        };
        let ghost p2 = self.at();
        proof {
            use_type_invariant(&*self);
        }
        match self.expect_keyword(Token::KwEnd) {
            Ok(()) => {},
            Err(err) => {
                proof {
                    assert forall|s: StmtV| stmt_fits(ts, p0, s) implies false by {
                        Self::lemma_if_parts(ts, p0, s);
                        if let StmtV::IfStatement { condition: c, then_branch: b } = s {
                            assert(block_fits(ts, p1 + 1, b));
                        }
                    }
                }
                return Err(err);
            },
        }
        match self.expect_symbol(';') {
            Ok(()) => {},
            Err(err) => {
                proof {
                    assert forall|s: StmtV| stmt_fits(ts, p0, s) implies false by {
                        Self::lemma_if_parts(ts, p0, s);
                        if let StmtV::IfStatement { condition: c, then_branch: b } = s {
                            assert(block_fits(ts, p1 + 1, b));
                        }
                    }
                }
                return Err(err);
            },
        }
        let st = Statement::IfStatement { condition, then_branch };
        proof {
            use_type_invariant(&*self);
            assert(ts.subrange(p0, p2 + 2) =~= seq![ts[p0]] + ts.subrange(p0 + 1, p1) + seq![ts[p1]]
                + ts.subrange(p1 + 1, p2) + seq![ts[p2], ts[p2 + 1]]);
            assert forall|s: StmtV| stmt_fits(ts, p0, s) implies st@ == s && p2 + 2 == p0
                + print_stmt(s).len() by {
                Self::lemma_if_parts(ts, p0, s);
                if let StmtV::IfStatement { condition: c, then_branch: b } = s {
                    assert(block_fits(ts, p1 + 1, b));
                }
            }
        }
        Ok(st)
    }

    fn parse_block(&mut self) -> (r: Result<Vec<Statement>, ParseError>)
        ensures
            outcome(r, final(self).at()) == descend_block(old(self).toks(), old(self).at()),
            r is Err ==> !(r->Err_0 is Lex),
            final(self).toks() == old(self).toks(),
            r matches Ok(ss) ==> wf_stmts(stmts_view(ss)) && spans(
                old(self).toks(),
                old(self).at(),
                final(self).at(),
                print_stmts(stmts_view(ss)),
            ),
            forall|ss: Seq<StmtV>|
                #![trigger block_fits(old(self).toks(), old(self).at(), ss)]
                block_fits(old(self).toks(), old(self).at(), ss) ==> r is Ok && stmts_view(r->Ok_0)
                    == ss && final(self).at() == old(self).at() + print_stmts(ss).len(),
        decreases old(self).toks().len() - old(self).at(), 9nat,
    {
        proof {
            lemma_descend_steps(self.toks(), self.at());
        }
        let ghost ts = self.toks();
        let ghost p0 = self.at();
        proof {
            use_type_invariant(&*self);
        }
        let mut statements: Vec<Statement> = Vec::new();
        proof {
            assert(stmts_view(statements) =~= Seq::empty());
            assert(ts.subrange(p0, p0) =~= print_stmts(Seq::empty()));
            assert forall|ss: Seq<StmtV>| block_fits(ts, p0, ss) implies stmts_view(statements)
                == ss.take(0) && p0 == p0 + print_stmts(ss.take(0)).len() by {
                assert(ss.take(0) =~= Seq::<StmtV>::empty());
            }
        }
        while !self.check(&Token::KwEnd) && !self.is_at_end()
            invariant
                self.toks() == ts,
                ts == old(self).toks(),
                p0 == old(self).at(),
                eof_terminated(ts),
                p0 <= self.at() < ts.len(),
                wf_stmts(stmts_view(statements)),
                spans(ts, p0, self.at(), print_stmts(stmts_view(statements))),
                descend_block(ts, p0) == descend_block(ts, self.at()),
                forall|ss: Seq<StmtV>|
                    #![trigger block_fits(ts, p0, ss)]
                    block_fits(ts, p0, ss) ==> statements.len() <= ss.len() && stmts_view(statements)
                        == ss.take(statements.len() as int) && self.at() == p0 + print_stmts(
                        ss.take(statements.len() as int),
                    ).len(),
            decreases ts.len() - self.at(),
        {
            let ghost k = statements.len() as int;
            let ghost q0 = self.at();
            proof {
                use_type_invariant(&*self);
                lemma_descend_steps(ts, q0);
            }
            let ghost before = stmts_view(statements);
            proof {
                assert forall|ss: Seq<StmtV>| block_fits(ts, p0, ss) implies k < ss.len() && stmt_fits(
                    ts,
                    q0,
                    ss[k],
                ) by {
                    Self::lemma_block_item(ts, p0, ss, k);
                }
            }
            let s = match self.parse_statement() {
                Ok(s) => s,
                Err(err) => {
                    proof {
                        assert forall|ss: Seq<StmtV>| block_fits(ts, p0, ss) implies false by {
                            Self::lemma_block_item(ts, p0, ss, k);
                        }
                    }
                    return Err(err);
                },
            };
            let ghost q1 = self.at();
            proof {
                use_type_invariant(&*self);
            }
            proof {
                lemma_stmt_first_token(s@);
            }
            statements.push(s);
            proof {
                use_type_invariant(&*self);
                assert(stmts_view(statements) =~= before.push(s@));
                assert(stmts_view(statements).drop_last() =~= before);
                assert(ts.subrange(p0, q1) =~= ts.subrange(p0, q0) + ts.subrange(q0, q1));
                assert forall|ss: Seq<StmtV>| block_fits(ts, p0, ss) implies stmts_view(statements)
                    == ss.take(k + 1) && q1 == p0 + print_stmts(ss.take(k + 1)).len() by {
                    Self::lemma_block_item(ts, p0, ss, k);
                    assert(ss.take(k + 1).drop_last() =~= ss.take(k));
                    assert(stmts_view(statements) =~= ss.take(k + 1));
                }
            }
        }
        proof {
            lemma_descend_steps(ts, self.at());
            assert forall|ss: Seq<StmtV>| block_fits(ts, p0, ss) implies stmts_view(statements)
                == ss && self.at() == p0 + print_stmts(ss).len() by {
                let k = statements.len() as int;
                if k < ss.len() {
                    Self::lemma_block_item(ts, p0, ss, k);
                } else {
                    assert(ss.take(k) =~= ss);
                }
            }
        }
        Ok(statements)
    }

    proof fn lemma_block_item(ts: Seq<TokenV>, p0: int, ss: Seq<StmtV>, k: int)
        requires
            block_fits(ts, p0, ss),
            0 <= k <= ss.len(),
        ensures
            k < ss.len() ==> stmt_fits(ts, p0 + print_stmts(ss.take(k)).len(), ss[k])
                && starts_statement(ts[p0 + print_stmts(ss.take(k)).len()]),
            k == ss.len() ==> ts[p0 + print_stmts(ss.take(k)).len()] is KwEnd,
    {
        lemma_print_stmts_at(ss, k);
        let pre = print_stmts(ss.take(k));
        assert(print_stmts(ss) + seq![TokenV::KwEnd] =~= pre + (print_stmts(ss.skip(k)) + seq![
            TokenV::KwEnd,
        ]));
        lemma_printed_at_split(ts, p0, pre, print_stmts(ss.skip(k)) + seq![TokenV::KwEnd]);
        if k < ss.len() {
            lemma_wf_stmts_index(ss, k);
            lemma_stmt_first_token(ss[k]);
            assert(print_stmts(ss.skip(k)) + seq![TokenV::KwEnd] =~= print_stmt(ss[k]) + (
            print_stmts(ss.skip(k + 1)) + seq![TokenV::KwEnd]));
            lemma_printed_at_split(
                ts,
                p0 + pre.len(),
                print_stmt(ss[k]),
                print_stmts(ss.skip(k + 1)) + seq![TokenV::KwEnd],
            );
            lemma_printed_at_index(ts, p0 + pre.len(), print_stmt(ss[k]), 0);
        } else {
            assert(ss.skip(k) =~= Seq::<StmtV>::empty());
            assert(print_stmts(Seq::<StmtV>::empty()) =~= Seq::empty());
            lemma_printed_at_index(
                ts,
                p0 + pre.len(),
                print_stmts(ss.skip(k)) + seq![TokenV::KwEnd],
                0,
            );
        }
    }
}

impl Parser {
    proof fn lemma_func_parts(ts: Seq<TokenV>, p0: int, s: StmtV)
        requires
            stmt_fits(ts, p0, s),
            s is FuncDeclaration,
        ensures
            s matches StmtV::FuncDeclaration { name, params, return_type, body } && {
                let q = p0 + 3 + print_params(params).len();
                let d = q + 1 + print_return_type(return_type).len();
                let e = d + 1 + print_stmts(body).len();
                &&& ts[p0] == TokenV::KwLet
                &&& ts[p0 + 1] == TokenV::Identifier(name)
                &&& ts[p0 + 2] == TokenV::Symbol('(')
                &&& params_fit(ts, p0 + 3, params)
                &&& ts[q] == TokenV::Symbol(')')
                &&& (return_type matches Some(t) ==> ts[q + 1] == TokenV::Arrow && ts[q + 2]
                    == TokenV::Identifier(t))
                &&& ts[d] == TokenV::KwDo
                &&& block_fits(ts, d + 1, body)
                &&& ts[e] == TokenV::KwEnd
                &&& ts[e + 1] == TokenV::Symbol(';')
                &&& print_stmt(s).len() == e + 2 - p0
            },
    {
        if let StmtV::FuncDeclaration { name, params, return_type, body } = s {
            let x1 = seq![TokenV::KwLet, TokenV::Identifier(name), TokenV::Symbol('(')];
            let x2 = print_params(params);
            let x3 = seq![TokenV::Symbol(')')];
            let x4 = print_return_type(return_type);
            let x5 = seq![TokenV::KwDo];
            let x6 = print_stmts(body);
            let x7 = seq![TokenV::KwEnd, TokenV::Symbol(';')];
            let r3 = x5 + (x6 + x7);
            let r2 = x4 + r3;
            assert(print_stmt(s) =~= x1 + (x2 + x3 + r2));
            lemma_printed_at_split(ts, p0, x1, x2 + x3 + r2);
            lemma_printed_at_index(ts, p0, x1, 0);
            lemma_printed_at_index(ts, p0, x1, 1);
            lemma_printed_at_index(ts, p0, x1, 2);
            let a = p0 + 3;
            lemma_printed_at_split(ts, a, x2 + x3, r2);
            lemma_printed_at_split(ts, a, x2, x3);
            lemma_printed_at_index(ts, a + x2.len(), x3, 0);
            let q = a + x2.len();
            lemma_printed_at_split(ts, q + 1, x4, r3);
            if return_type is Some {
                lemma_printed_at_index(ts, q + 1, x4, 0);
                lemma_printed_at_index(ts, q + 1, x4, 1);
            }
            let d = q + 1 + x4.len();
            lemma_printed_at_split(ts, d, x5, x6 + x7);
            lemma_printed_at_index(ts, d, x5, 0);
            assert(x6 + x7 =~= (x6 + seq![TokenV::KwEnd]) + seq![TokenV::Symbol(';')]);
            lemma_printed_at_split(ts, d + 1, x6 + seq![TokenV::KwEnd], seq![TokenV::Symbol(';')]);
            lemma_printed_at_split(ts, d + 1, x6, seq![TokenV::KwEnd]);
            lemma_printed_at_index(ts, d + 1 + x6.len(), seq![TokenV::KwEnd], 0);
            lemma_printed_at_index(ts, d + 2 + x6.len(), seq![TokenV::Symbol(';')], 0);
        }
    }

    #[verifier::rlimit(60)]
    fn parse_func_declaration(&mut self) -> (r: Result<Statement, ParseError>)
        requires
            old(self).toks()[old(self).at()] == TokenV::KwLet,
        ensures
            outcome(r, final(self).at()) == descend_func(old(self).toks(), old(self).at()),
            r is Err ==> !(r->Err_0 is Lex),
            final(self).toks() == old(self).toks(),
            r matches Ok(s) ==> wf_stmt(s@) && spans(
                old(self).toks(),
                old(self).at(),
                final(self).at(),
                print_stmt(s@),
            ),
            forall|s: StmtV|
                #![trigger stmt_fits(old(self).toks(), old(self).at(), s)]
                stmt_fits(old(self).toks(), old(self).at(), s) && s is FuncDeclaration ==> r is Ok
                    && r->Ok_0@ == s && final(self).at() == old(self).at() + print_stmt(s).len(),
        decreases old(self).toks().len() - old(self).at(), 7nat,
    {
        proof {
            lemma_descend_steps(self.toks(), self.at());
        }
        let ghost ts = self.toks();
        let ghost p0 = self.at();
        proof {
            use_type_invariant(&*self);
        }
        self.advance();
        let name = match self.expect_identifier() {
            Ok(n) => n,
            Err(err) => {
                proof {
                    assert forall|s: StmtV| stmt_fits(ts, p0, s) && s is FuncDeclaration implies false by {
                        Self::lemma_func_parts(ts, p0, s);
                    }
                }
                return Err(err);
            },
        };
        match self.expect_symbol('(') {
            Ok(()) => {},
            Err(err) => {
                proof {
                    assert forall|s: StmtV| stmt_fits(ts, p0, s) && s is FuncDeclaration implies false by {
                        Self::lemma_func_parts(ts, p0, s);
                    }
                }
                return Err(err);
            },
        }
        proof {
            use_type_invariant(&*self);
        }
        let params = match self.parse_param_list() {
            Ok(ps) => ps,
            Err(err) => {
                proof {
                    assert forall|s: StmtV| stmt_fits(ts, p0, s) && s is FuncDeclaration implies false by {
                        Self::lemma_func_parts(ts, p0, s);
                        if let StmtV::FuncDeclaration { name: n, params: ps, return_type: rt, body: b } = s {
                            assert(params_fit(ts, p0 + 3, ps));
                        }
                    }
                }
                return Err(err);
            },
        };
        let ghost q = self.at();
        proof {
            use_type_invariant(&*self);
        }
        match self.expect_symbol(')') {
            Ok(()) => {},
            Err(err) => {
                proof {
                    assert forall|s: StmtV| stmt_fits(ts, p0, s) && s is FuncDeclaration implies false by {
                        Self::lemma_func_parts(ts, p0, s);
                        if let StmtV::FuncDeclaration { name: n, params: ps, return_type: rt, body: b } = s {
                            assert(params_fit(ts, p0 + 3, ps));
                        }
                    }
                }
                return Err(err);
            },
        }
        proof {
            use_type_invariant(&*self);
        }
        let has_type = self.check(&Token::Arrow);
        let return_type = if has_type {
            self.advance();
            match self.expect_identifier() {
                Ok(t) => Some(t),
                Err(err) => {
                    proof {
                        assert forall|s: StmtV| stmt_fits(ts, p0, s) && s is FuncDeclaration implies false by {
                            Self::lemma_func_parts(ts, p0, s);
                            if let StmtV::FuncDeclaration { name: n, params: ps, return_type: rt, body: b } = s {
                                assert(params_fit(ts, p0 + 3, ps));
                            }
                        }
                    }
                    return Err(err);
                },
            }
        } else {
            None
        };
        let ghost d = self.at();
        proof {
            use_type_invariant(&*self);
        }
        match self.expect_keyword(Token::KwDo) {
            Ok(()) => {},
            Err(err) => {
                proof {
                    assert forall|s: StmtV| stmt_fits(ts, p0, s) && s is FuncDeclaration implies false by {
                        Self::lemma_func_parts(ts, p0, s);
                        if let StmtV::FuncDeclaration { name: n, params: ps, return_type: rt, body: b } = s {
                            assert(params_fit(ts, p0 + 3, ps));
                        }
                    }
                }
                return Err(err);
            },
        }
        proof {
            use_type_invariant(&*self);
        }
        let body = match self.parse_block() {
            Ok(b) => b,
            Err(err) => {
                proof {
                    assert forall|s: StmtV| stmt_fits(ts, p0, s) && s is FuncDeclaration implies false by {
                        Self::lemma_func_parts(ts, p0, s);
                        if let StmtV::FuncDeclaration { name: n, params: ps, return_type: rt, body: b } = s {
                            assert(params_fit(ts, p0 + 3, ps));
                            assert(block_fits(ts, d + 1, b));
                        }
                    }
                }
                return Err(err);
            },
        };
        let ghost e = self.at();
        proof {
            use_type_invariant(&*self);
        }
        match self.expect_keyword(Token::KwEnd) {
            Ok(()) => {},
            Err(err) => {
                proof {
                    assert forall|s: StmtV| stmt_fits(ts, p0, s) && s is FuncDeclaration implies false by {
                        Self::lemma_func_parts(ts, p0, s);
                        if let StmtV::FuncDeclaration { name: n, params: ps, return_type: rt, body: b } = s {
                            assert(params_fit(ts, p0 + 3, ps));
                            assert(block_fits(ts, d + 1, b));
                        }
                    }
                }
                return Err(err);
            },
        }
        match self.expect_symbol(';') {
            Ok(()) => {},
            Err(err) => {
                proof {
                    assert forall|s: StmtV| stmt_fits(ts, p0, s) && s is FuncDeclaration implies false by {
                        Self::lemma_func_parts(ts, p0, s);
                        if let StmtV::FuncDeclaration { name: n, params: ps, return_type: rt, body: b } = s {
                            assert(params_fit(ts, p0 + 3, ps));
                            assert(block_fits(ts, d + 1, b));
                        }
                    }
                }
                return Err(err);
            },
        }
        let ghost rt_view = opt_text_view(return_type);
        let st = Statement::FuncDeclaration { name, params, return_type, body };
        proof {
            use_type_invariant(&*self);
            assert(ts.subrange(q + 1, d) =~= print_return_type(rt_view));
            assert(ts.subrange(p0, e + 2) =~= seq![ts[p0], ts[p0 + 1], ts[p0 + 2]] + ts.subrange(
                p0 + 3,
                q,
            ) + seq![ts[q]] + ts.subrange(q + 1, d) + seq![ts[d]] + ts.subrange(d + 1, e) + seq![
                ts[e],
                ts[e + 1],
            ]);
            assert forall|s: StmtV| stmt_fits(ts, p0, s) && s is FuncDeclaration implies st@ == s && e
                + 2 == p0 + print_stmt(s).len() by {
                Self::lemma_func_parts(ts, p0, s);
                if let StmtV::FuncDeclaration { name: n, params: ps, return_type: rt, body: b } = s {
                    assert(params_fit(ts, p0 + 3, ps));
                    assert(block_fits(ts, d + 1, b));
                }
            }
        }
        Ok(st)
    }

    fn parse_param_list(&mut self) -> (r: Result<Vec<String>, ParseError>)
        ensures
            outcome(r, final(self).at()) == descend_params(old(self).toks(), old(self).at()),
            r is Err ==> !(r->Err_0 is Lex),
            final(self).toks() == old(self).toks(),
            r matches Ok(ps) ==> spans(
                old(self).toks(),
                old(self).at(),
                final(self).at(),
                print_params(texts_view(ps)),
            ),
            forall|ps: Seq<Seq<char>>|
                #![trigger params_fit(old(self).toks(), old(self).at(), ps)]
                params_fit(old(self).toks(), old(self).at(), ps) ==> r is Ok && texts_view(r->Ok_0)
                    == ps && final(self).at() == old(self).at() + print_params(ps).len(),
    {
        proof {
            lemma_descend_steps(self.toks(), self.at());
        }
        let ghost ts = self.toks();
        let ghost p0 = self.at();
        proof {
            use_type_invariant(&*self);
        }
        if self.check_symbol(')') {
            let empty: Vec<String> = Vec::new();
            proof {
                assert(texts_view(empty) =~= Seq::empty());
                assert(ts.subrange(p0, p0) =~= Seq::<TokenV>::empty());
                assert forall|ps: Seq<Seq<char>>| params_fit(ts, p0, ps) implies ps.len() == 0 by {
                    if ps.len() > 0 {
                        Self::lemma_param_first(ts, p0, ps);
                    }
                    assert(ps =~= Seq::<Seq<char>>::empty());
                }
            }
            return Ok(empty);
        }
        proof {
            assert forall|ps: Seq<Seq<char>>| params_fit(ts, p0, ps) implies ps.len() > 0 && ts[p0]
                == TokenV::Identifier(ps[0]) by {
                if ps.len() == 0 {
                    lemma_printed_at_index(ts, p0, print_params(ps) + seq![TokenV::Symbol(')')], 0);
                } else {
                    Self::lemma_param_first(ts, p0, ps);
                }
            }
        }
        let first = match self.expect_identifier() {
            Ok(n) => n,
            Err(err) => {
                return Err(err);
            },
        };
        let mut params: Vec<String> = Vec::new();
        params.push(first);
        proof {
            assert(texts_view(params) =~= seq![first@]);
            assert(ts.subrange(p0, p0 + 1) =~= print_params(texts_view(params)));
            assert forall|ps: Seq<Seq<char>>| params_fit(ts, p0, ps) implies 1 <= ps.len()
                && texts_view(params) == ps.take(1) && p0 + 1 == p0 + print_params(ps.take(1)).len() by {
                assert(ps.take(1) =~= seq![ps[0]]);
            }
        }
        loop
            invariant
                self.toks() == ts,
                ts == old(self).toks(),
                p0 == old(self).at(),
                p0 < self.at() < ts.len(),
                params.len() >= 1,
                descend_params(ts, p0) == descend_more_params(ts, self.at()),
                spans(ts, p0, self.at(), print_params(texts_view(params))),
                forall|ps: Seq<Seq<char>>|
                    #![trigger params_fit(ts, p0, ps)]
                    params_fit(ts, p0, ps) ==> params.len() <= ps.len() && texts_view(params)
                        == ps.take(params.len() as int) && self.at() == p0 + print_params(
                        ps.take(params.len() as int),
                    ).len(),
            ensures
                self.toks() == ts,
                descend_params(ts, p0) == Ok::<int, (SyntaxErrorV, int)>(self.at()),
                spans(ts, p0, self.at(), print_params(texts_view(params))),
                forall|ps: Seq<Seq<char>>|
                    #![trigger params_fit(ts, p0, ps)]
                    params_fit(ts, p0, ps) ==> texts_view(params) == ps && self.at() == p0
                        + print_params(ps).len(),
            decreases ts.len() - self.at(),
        {
            let ghost k = params.len() as int;
            let ghost q0 = self.at();
            proof {
                use_type_invariant(&*self);
                lemma_descend_steps(ts, q0);
            }
            let ghost before = texts_view(params);
            proof {
                assert forall|ps: Seq<Seq<char>>| params_fit(ts, p0, ps) implies (k < ps.len() <==> ts[q0]
                    == TokenV::Symbol(',')) && (k < ps.len() ==> ts[q0 + 1] == TokenV::Identifier(
                    ps[k],
                )) by {
                    Self::lemma_param_next(ts, p0, ps, k);
                }
            }
            let more = self.match_symbol(',');
            if !more {
                proof {
                    assert forall|ps: Seq<Seq<char>>| params_fit(ts, p0, ps) implies texts_view(params)
                        == ps && q0 == p0 + print_params(ps).len() by {
                        Self::lemma_param_next(ts, p0, ps, k);
                        assert(ps.take(k) =~= ps);
                    }
                }
                break;
            }
            let p = match self.expect_identifier() {
                Ok(p) => p,
                Err(err) => {
                    proof {
                        assert forall|ps: Seq<Seq<char>>| params_fit(ts, p0, ps) implies false by {
                            Self::lemma_param_next(ts, p0, ps, k);
                        }
                    }
                    return Err(err);
                },
            };
            params.push(p);
            proof {
                use_type_invariant(&*self);
                assert(texts_view(params) =~= before.push(p@));
                assert(texts_view(params).drop_last() =~= before);
                assert(ts.subrange(p0, q0 + 2) =~= ts.subrange(p0, q0) + seq![ts[q0], ts[q0 + 1]]);
                assert forall|ps: Seq<Seq<char>>| params_fit(ts, p0, ps) implies texts_view(params)
                    == ps.take(k + 1) && q0 + 2 == p0 + print_params(ps.take(k + 1)).len() by {
                    Self::lemma_param_next(ts, p0, ps, k);
                    assert(ps.take(k + 1).drop_last() =~= ps.take(k));
                    assert(texts_view(params) =~= ps.take(k + 1));
                }
            }
        }
        Ok(params)
    }

    proof fn lemma_param_first(ts: Seq<TokenV>, p0: int, ps: Seq<Seq<char>>)
        requires
            params_fit(ts, p0, ps),
            ps.len() > 0,
        ensures
            ts[p0] == TokenV::Identifier(ps[0]),
    {
        lemma_params_prefix(ps, 1);
        assert(ps.take(1) =~= seq![ps[0]]);
        assert(print_params(ps.take(1)) == seq![TokenV::Identifier(ps[0])]);
        let pp = print_params(ps);
        assert(pp.subrange(0, 1)[0] == pp[0]);
        assert((pp + seq![TokenV::Symbol(')')])[0] == pp[0]);
        lemma_printed_at_index(ts, p0, pp + seq![TokenV::Symbol(')')], 0);
    }

    proof fn lemma_param_next(ts: Seq<TokenV>, p0: int, ps: Seq<Seq<char>>, k: int)
        requires
            params_fit(ts, p0, ps),
            1 <= k <= ps.len(),
        ensures
            k < ps.len() ==> ts[p0 + print_params(ps.take(k)).len()] == TokenV::Symbol(',')
                && ts[p0 + print_params(ps.take(k)).len() + 1] == TokenV::Identifier(ps[k]),
            k == ps.len() ==> ts[p0 + print_params(ps.take(k)).len()] == TokenV::Symbol(')'),
    {
        lemma_params_prefix(ps, k);
        let whole = print_params(ps) + seq![TokenV::Symbol(')')];
        let n = print_params(ps.take(k)).len() as int;
        lemma_printed_at_index(ts, p0, whole, n);
        if k < ps.len() {
            lemma_printed_at_index(ts, p0, whole, n + 1);
        } else {
            assert(ps.take(k) =~= ps);
        }
    }
}

} // verus!
