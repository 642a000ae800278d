use vstd::prelude::*;

use crate::grammar::tok_at;
use crate::lexer::TokenV;

verus! {

// The parser reads tokens from left to right, deciding at each token what it
// expects next. These functions follow that reading: each takes the position
// where a piece of the program starts and gives the position just past it,
// or the error at the first token that does not fit, with that token's
// position: where the parser stands when it gives up.

/// A syntax error: what was expected, and the token found instead.
pub enum SyntaxErrorV {
    ExpectedIdentifier { found: TokenV },
    ExpectedSymbol { symbol: char, found: TokenV },
    ExpectedKeyword { keyword: TokenV, found: TokenV },
    UnexpectedToken { found: TokenV },
}

/// Where a piece ends, or why it could not be read and the position of the
/// token where the reading stopped.
pub type Step = Result<int, (SyntaxErrorV, int)>;

/// What a reading gives at a position outside the tokens: it never starts
/// there.
pub open spec fn off_the_tokens(i: int) -> Step {
    Err((SyntaxErrorV::UnexpectedToken { found: TokenV::Eof }, i))
}

pub open spec fn expect_symbol_at(ts: Seq<TokenV>, i: int, c: char) -> Step {
    if tok_at(ts, i) == TokenV::Symbol(c) {
        Ok(i + 1)
    } else {
        Err((SyntaxErrorV::ExpectedSymbol { symbol: c, found: tok_at(ts, i) }, i))
    }
}

pub open spec fn expect_keyword_at(ts: Seq<TokenV>, i: int, k: TokenV) -> Step {
    if tok_at(ts, i) == k {
        Ok(i + 1)
    } else {
        Err((SyntaxErrorV::ExpectedKeyword { keyword: k, found: tok_at(ts, i) }, i))
    }
}

pub open spec fn expect_identifier_at(ts: Seq<TokenV>, i: int) -> Step {
    if tok_at(ts, i) is Identifier {
        Ok(i + 1)
    } else {
        Err((SyntaxErrorV::ExpectedIdentifier { found: tok_at(ts, i) }, i))
    }
}

/// Whether `j`, the end of a piece read from `i`, lies in the tokens and not
/// before `i`.
pub open spec fn ends_within(ts: Seq<TokenV>, i: int, j: int) -> bool {
    i <= j < ts.len()
}

pub closed spec fn descend_expr(ts: Seq<TokenV>, i: int) -> Step
    decreases ts.len() - i, 7nat,
{
    step_expr(ts, i)
}

pub open spec fn step_expr(ts: Seq<TokenV>, i: int) -> Step
    decreases ts.len() - i, 6nat,
{
    if !(0 <= i < ts.len()) {
        off_the_tokens(i)
    } else {
        descend_comparison(ts, i)
    }
}

pub closed spec fn descend_comparison(ts: Seq<TokenV>, i: int) -> Step
    decreases ts.len() - i, 5nat,
{
    step_comparison(ts, i)
}

pub open spec fn step_comparison(ts: Seq<TokenV>, i: int) -> Step
    decreases ts.len() - i, 4nat,
{
    if !(0 <= i < ts.len()) {
        off_the_tokens(i)
    } else {
        match descend_primary(ts, i) {
            Err(e) => Err(e),
            Ok(j) => if !ends_within(ts, i, j) {
                off_the_tokens(i)
            } else if tok_at(ts, j) is EqEq || tok_at(ts, j) is NotEq {
                descend_primary(ts, j + 1)
            } else {
                Ok(j)
            },
        }
    }
}

pub closed spec fn descend_primary(ts: Seq<TokenV>, i: int) -> Step
    decreases ts.len() - i, 3nat,
{
    step_primary(ts, i)
}

pub open spec fn step_primary(ts: Seq<TokenV>, i: int) -> Step
    decreases ts.len() - i, 2nat,
{
    if !(0 <= i < ts.len()) {
        off_the_tokens(i)
    } else {
        match tok_at(ts, i) {
            TokenV::Number(_) => Ok(i + 1),
            TokenV::Str(_) => Ok(i + 1),
            TokenV::KwTrue => Ok(i + 1),
            TokenV::KwFalse => Ok(i + 1),
            TokenV::Identifier(_) => if tok_at(ts, i + 1) == TokenV::Symbol('(') {
                descend_call(ts, i + 1)
            } else {
                Ok(i + 1)
            },
            _ => Err((SyntaxErrorV::UnexpectedToken { found: tok_at(ts, i) }, i)),
        }
    }
}

/// A call's arguments in brackets, from the opening bracket.
pub closed spec fn descend_call(ts: Seq<TokenV>, i: int) -> Step
    decreases ts.len() - i, 13nat,
{
    step_call(ts, i)
}

pub open spec fn step_call(ts: Seq<TokenV>, i: int) -> Step
    decreases ts.len() - i, 12nat,
{
    if !(0 <= i < ts.len()) {
        off_the_tokens(i)
    } else {
        match expect_symbol_at(ts, i, '(') {
            Err(e) => Err(e),
            Ok(j) => match descend_arg_list(ts, j) {
                Err(e) => Err(e),
                Ok(k) => if !ends_within(ts, j, k) {
                    off_the_tokens(i)
                } else {
                    expect_symbol_at(ts, k, ')')
                },
            },
        }
    }
}

pub closed spec fn descend_arg_list(ts: Seq<TokenV>, i: int) -> Step
    decreases ts.len() - i, 11nat,
{
    step_arg_list(ts, i)
}

pub open spec fn step_arg_list(ts: Seq<TokenV>, i: int) -> Step
    decreases ts.len() - i, 10nat,
{
    if !(0 <= i < ts.len()) {
        off_the_tokens(i)
    } else if tok_at(ts, i) == TokenV::Symbol(')') {
        Ok(i)
    } else {
        descend_args(ts, i)
    }
}

/// Arguments separated by commas, each with or without a `label:`.
pub closed spec fn descend_args(ts: Seq<TokenV>, i: int) -> Step
    decreases ts.len() - i, 9nat,
{
    step_args(ts, i)
}

pub open spec fn step_args(ts: Seq<TokenV>, i: int) -> Step
    decreases ts.len() - i, 8nat,
{
    if !(0 <= i < ts.len()) {
        off_the_tokens(i)
    } else {
        let start = if tok_at(ts, i) is Identifier && tok_at(ts, i + 1) == TokenV::Symbol(':') {
            i + 2
        } else {
            i
        };
        match descend_expr(ts, start) {
            Err(e) => Err(e),
            Ok(j) => if !ends_within(ts, start, j) {
                off_the_tokens(i)
            } else if tok_at(ts, j) == TokenV::Symbol(',') {
                descend_args(ts, j + 1)
            } else {
                Ok(j)
            },
        }
    }
}

pub closed spec fn descend_stmt(ts: Seq<TokenV>, i: int) -> Step
    decreases ts.len() - i, 23nat,
{
    step_stmt(ts, i)
}

pub open spec fn step_stmt(ts: Seq<TokenV>, i: int) -> Step
    decreases ts.len() - i, 22nat,
{
    if !(0 <= i < ts.len()) {
        off_the_tokens(i)
    } else {
        match tok_at(ts, i) {
            TokenV::KwConst => descend_var(ts, i),
            TokenV::KwLet => if tok_at(ts, i + 1) is Identifier && tok_at(ts, i + 2) == TokenV::Symbol(
                '(',
            ) {
                descend_func(ts, i)
            } else {
                descend_var(ts, i)
            },
            TokenV::KwIf => descend_if(ts, i),
            TokenV::KwReturn => descend_return(ts, i),
            _ => match descend_expr(ts, i) {
                Err(e) => Err(e),
                Ok(j) => if !ends_within(ts, i, j) {
                    off_the_tokens(i)
                } else {
                    expect_symbol_at(ts, j, ';')
                },
            },
        }
    }
}

/// `const name = value;` or `let name = value;`, from the keyword.
pub closed spec fn descend_var(ts: Seq<TokenV>, i: int) -> Step
    decreases ts.len() - i, 21nat,
{
    step_var(ts, i)
}

pub open spec fn step_var(ts: Seq<TokenV>, i: int) -> Step
    decreases ts.len() - i, 20nat,
{
    if !(0 <= i < ts.len()) {
        off_the_tokens(i)
    } else {
        match expect_identifier_at(ts, i + 1) {
            Err(e) => Err(e),
            Ok(j) => match expect_symbol_at(ts, j, '=') {
                Err(e) => Err(e),
                Ok(k) => match descend_expr(ts, k) {
                    Err(e) => Err(e),
                    Ok(m) => if !ends_within(ts, k, m) {
                        off_the_tokens(i)
                    } else {
                        expect_symbol_at(ts, m, ';')
                    },
                },
            },
        }
    }
}

/// `return value;`, from the keyword.
pub closed spec fn descend_return(ts: Seq<TokenV>, i: int) -> Step
    decreases ts.len() - i, 21nat,
{
    step_return(ts, i)
}

pub open spec fn step_return(ts: Seq<TokenV>, i: int) -> Step
    decreases ts.len() - i, 20nat,
{
    if !(0 <= i < ts.len()) {
        off_the_tokens(i)
    } else {
        match descend_expr(ts, i + 1) {
            Err(e) => Err(e),
            Ok(j) => if !ends_within(ts, i + 1, j) {
                off_the_tokens(i)
            } else {
                expect_symbol_at(ts, j, ';')
            },
        }
    }
}

/// `if condition do ... end;`, from the keyword.
pub closed spec fn descend_if(ts: Seq<TokenV>, i: int) -> Step
    decreases ts.len() - i, 21nat,
{
    step_if(ts, i)
}

pub open spec fn step_if(ts: Seq<TokenV>, i: int) -> Step
    decreases ts.len() - i, 20nat,
{
    if !(0 <= i < ts.len()) {
        off_the_tokens(i)
    } else {
        match descend_expr(ts, i + 1) {
            Err(e) => Err(e),
            Ok(j) => if !ends_within(ts, i + 1, j) {
                off_the_tokens(i)
            } else {
                match expect_keyword_at(ts, j, TokenV::KwDo) {
                    Err(e) => Err(e),
                    Ok(k) => match descend_block(ts, k) {
                        Err(e) => Err(e),
                        Ok(m) => if !ends_within(ts, k, m) {
                            off_the_tokens(i)
                        } else {
                            match expect_keyword_at(ts, m, TokenV::KwEnd) {
                                Err(e) => Err(e),
                                Ok(n) => expect_symbol_at(ts, n, ';'),
                            }
                        },
                    },
                }
            },
        }
    }
}

/// `let name(params) -> type do ... end;`, from the keyword.
pub closed spec fn descend_func(ts: Seq<TokenV>, i: int) -> Step
    decreases ts.len() - i, 21nat,
{
    step_func(ts, i)
}

pub open spec fn step_func(ts: Seq<TokenV>, i: int) -> Step
    decreases ts.len() - i, 20nat,
{
    if !(0 <= i < ts.len()) {
        off_the_tokens(i)
    } else {
        match expect_identifier_at(ts, i + 1) {
            Err(e) => Err(e),
            Ok(j) => match expect_symbol_at(ts, j, '(') {
                Err(e) => Err(e),
                Ok(k) => match descend_params(ts, k) {
                    Err(e) => Err(e),
                    Ok(m) => if !ends_within(ts, k, m) {
                        off_the_tokens(i)
                    } else {
                        match expect_symbol_at(ts, m, ')') {
                            Err(e) => Err(e),
                            Ok(n) => {
                                let typed = if tok_at(ts, n) is Arrow {
                                    expect_identifier_at(ts, n + 1)
                                } else {
                                    Ok(n)
                                };
                                match typed {
                                    Err(e) => Err(e),
                                    Ok(q) => match expect_keyword_at(ts, q, TokenV::KwDo) {
                                        Err(e) => Err(e),
                                        Ok(u) => match descend_block(ts, u) {
                                            Err(e) => Err(e),
                                            Ok(w) => if !ends_within(ts, u, w) {
                                                off_the_tokens(i)
                                            } else {
                                                match expect_keyword_at(ts, w, TokenV::KwEnd) {
                                                    Err(e) => Err(e),
                                                    Ok(x) => expect_symbol_at(ts, x, ';'),
                                                }
                                            },
                                        },
                                    },
                                }
                            },
                        }
                    },
                },
            },
        }
    }
}

/// A function's parameter names, separated by commas.
pub open spec fn descend_params(ts: Seq<TokenV>, i: int) -> Step {
    if tok_at(ts, i) == TokenV::Symbol(')') {
        Ok(i)
    } else {
        match expect_identifier_at(ts, i) {
            Err(e) => Err(e),
            Ok(j) => descend_more_params(ts, j),
        }
    }
}

pub closed spec fn descend_more_params(ts: Seq<TokenV>, i: int) -> Step
    decreases ts.len() - i, 1nat,
{
    step_more_params(ts, i)
}

pub open spec fn step_more_params(ts: Seq<TokenV>, i: int) -> Step
    decreases ts.len() - i, 0nat,
{
    if !(0 <= i < ts.len()) {
        off_the_tokens(i)
    } else if tok_at(ts, i) == TokenV::Symbol(',') {
        match expect_identifier_at(ts, i + 1) {
            Err(e) => Err(e),
            Ok(j) => descend_more_params(ts, j),
        }
    } else {
        Ok(i)
    }
}

/// Statements up to `end` (or the end of the tokens).
pub closed spec fn descend_block(ts: Seq<TokenV>, i: int) -> Step
    decreases ts.len() - i, 25nat,
{
    step_block(ts, i)
}

pub open spec fn step_block(ts: Seq<TokenV>, i: int) -> Step
    decreases ts.len() - i, 24nat,
{
    if !(0 <= i < ts.len()) {
        off_the_tokens(i)
    } else if tok_at(ts, i) is KwEnd || tok_at(ts, i) is Eof {
        Ok(i)
    } else {
        match descend_stmt(ts, i) {
            Err(e) => Err(e),
            Ok(j) => if !(i < j < ts.len()) {
                off_the_tokens(i)
            } else {
                descend_block(ts, j)
            },
        }
    }
}

/// Statements up to the end of the tokens.
pub closed spec fn descend_program(ts: Seq<TokenV>, i: int) -> Step
    decreases ts.len() - i, 27nat,
{
    step_program(ts, i)
}

pub open spec fn step_program(ts: Seq<TokenV>, i: int) -> Step
    decreases ts.len() - i, 26nat,
{
    if !(0 <= i < ts.len()) {
        off_the_tokens(i)
    } else if tok_at(ts, i) is Eof {
        Ok(i)
    } else {
        match descend_stmt(ts, i) {
            Err(e) => Err(e),
            Ok(j) => if !(i < j < ts.len()) {
                off_the_tokens(i)
            } else {
                descend_program(ts, j)
            },
        }
    }
}

/// Each reading is its step: one level of it, unfolded at `i`.
pub proof fn lemma_descend_steps(ts: Seq<TokenV>, i: int)
    ensures
        descend_expr(ts, i) == step_expr(ts, i),
        descend_comparison(ts, i) == step_comparison(ts, i),
        descend_primary(ts, i) == step_primary(ts, i),
        descend_call(ts, i) == step_call(ts, i),
        descend_arg_list(ts, i) == step_arg_list(ts, i),
        descend_args(ts, i) == step_args(ts, i),
        descend_stmt(ts, i) == step_stmt(ts, i),
        descend_var(ts, i) == step_var(ts, i),
        descend_return(ts, i) == step_return(ts, i),
        descend_if(ts, i) == step_if(ts, i),
        descend_func(ts, i) == step_func(ts, i),
        descend_more_params(ts, i) == step_more_params(ts, i),
        descend_block(ts, i) == step_block(ts, i),
        descend_program(ts, i) == step_program(ts, i),
{
}

} // verus!
