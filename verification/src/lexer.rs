use vstd::prelude::*;

use crate::text::{chars_of, decimal, decimal_text, push_decimal, string_from_chars};

verus! {

#[derive(Debug, PartialEq)]
pub enum Token {
    KwLet,
    KwConst,
    KwDo,
    KwEnd,
    KwIf,
    KwReturn,
    KwTrue,
    KwFalse,
    Identifier(String),
    /// A numeric literal, as its canonical decimal text (see [`canonical_number`]).
    Number(String),
    String(String),
    Symbol(char),
    Arrow,
    EqEq,
    NotEq,
    Eof,
}

/// The mathematical form of a [`Token`].
pub enum TokenV {
    KwLet,
    KwConst,
    KwDo,
    KwEnd,
    KwIf,
    KwReturn,
    KwTrue,
    KwFalse,
    Identifier(Seq<char>),
    Number(Seq<char>),
    Str(Seq<char>),
    Symbol(char),
    Arrow,
    EqEq,
    NotEq,
    Eof,
}

impl View for Token {
    type V = TokenV;

    open spec fn view(&self) -> TokenV {
        match self {
            Token::KwLet => TokenV::KwLet,
            Token::KwConst => TokenV::KwConst,
            Token::KwDo => TokenV::KwDo,
            Token::KwEnd => TokenV::KwEnd,
            Token::KwIf => TokenV::KwIf,
            Token::KwReturn => TokenV::KwReturn,
            Token::KwTrue => TokenV::KwTrue,
            Token::KwFalse => TokenV::KwFalse,
            Token::Identifier(s) => TokenV::Identifier(s@),
            Token::Number(s) => TokenV::Number(s@),
            Token::String(s) => TokenV::Str(s@),
            Token::Symbol(c) => TokenV::Symbol(*c),
            Token::Arrow => TokenV::Arrow,
            Token::EqEq => TokenV::EqEq,
            Token::NotEq => TokenV::NotEq,
            Token::Eof => TokenV::Eof,
        }
    }
}

pub open spec fn tokens_view(ts: Seq<Token>) -> Seq<TokenV> {
    ts.map_values(|t: Token| t@)
}

/// Why the source text could not be split into tokens.
#[derive(Debug, PartialEq, Eq)]
pub enum LexError {
    UnexpectedCharacter { ch: char, position: usize },
    UnterminatedString,
}

/// The message that tells a user why the text could not be split.
pub open spec fn lex_error_text(e: LexError) -> Seq<char> {
    match e {
        LexError::UnexpectedCharacter { ch, position } => "Unexpected character '"@ + seq![ch]
            + "' at position "@ + decimal(position as nat),
        LexError::UnterminatedString => "Unterminated string literal"@,
    }
}

impl LexError {
    /// The message that tells a user why the text could not be split.
    pub fn message(&self) -> (r: String)
        ensures
            r@ == lex_error_text(*self),
    {
        match self {
            LexError::UnexpectedCharacter { ch, position } => {
                let mut one: Vec<char> = Vec::new();
                one.push(*ch);
                let c = string_from_chars(&one);
                let p = decimal_text(*position);
                let mut r = String::from_str("Unexpected character '");
                r.append(c.as_str());
                r.append("' at position ");
                r.append(p.as_str());
                r
            },
            LexError::UnterminatedString => String::from_str("Unterminated string literal"),
        }
    }
}

/// A character as it shows inside a quoted string: `"` and `\` escaped, and
/// the tab, line feed, carriage return and null characters written as
/// escapes.
pub open spec fn escaped_in_string(c: char) -> Seq<char> {
    if c == '"' {
        seq!['\\', '"']
    } else {
        escaped_common(c)
    }
}

/// A character as it shows inside single quotes: `'` escaped instead of `"`.
pub open spec fn escaped_in_char(c: char) -> Seq<char> {
    if c == '\'' {
        seq!['\\', '\'']
    } else {
        escaped_common(c)
    }
}

pub open spec fn escaped_common(c: char) -> Seq<char> {
    if c == '\\' {
        seq!['\\', '\\']
    } else if c == '\n' {
        seq!['\\', 'n']
    } else if c == '\r' {
        seq!['\\', 'r']
    } else if c == '\t' {
        seq!['\\', 't']
    } else if c == '\0' {
        seq!['\\', '0']
    } else {
        seq![c]
    }
}

/// A text as it shows in double quotes.
pub open spec fn quoted_text(s: Seq<char>) -> Seq<char>
    decreases s.len(),
{
    if s.len() == 0 {
        Seq::empty()
    } else {
        quoted_text(s.drop_last()) + escaped_in_string(s.last())
    }
}

/// The position of the first character of `w` from `i` on that is not `0`
/// (the length where there is none).
pub open spec fn first_nonzero(w: Seq<char>, i: nat) -> nat
    decreases w.len() - i,
{
    if i >= w.len() || w[i as int] != '0' {
        i
    } else {
        first_nonzero(w, i + 1)
    }
}

/// Significant digits written with a dot after the first: `25` is `2.5`.
pub open spec fn mantissa(d: Seq<char>) -> Seq<char> {
    if d.len() <= 1 {
        d
    } else {
        seq![d[0], '.'] + d.skip(1)
    }
}

/// A number as a floating-point value shows in a syntax error. From `1e16`
/// up, and below `1e-4` (but above zero), it is written with an exponent:
/// its significant digits with a dot after the first, `e`, and the power of
/// ten (`1e16`, `2.5e16`, `1.2e-5`). Otherwise it is written in full, with
/// `.0` where it is whole (`8080.0`, `0.5`).
pub open spec fn number_text(n: Seq<char>) -> Seq<char> {
    let d = dot_index(n, 0);
    let int_part = n.take(d as int);
    let frac = if d < n.len() {
        n.skip(d + 1 as int)
    } else {
        Seq::empty()
    };
    let z = first_nonzero(frac, 0);
    if int_part.len() >= 17 {
        mantissa(trim_trailing_zeros(int_part + frac)) + seq!['e'] + decimal((int_part.len() - 1) as nat)
    } else if int_part == seq!['0'] && 4 <= z && z < frac.len() {
        mantissa(trim_trailing_zeros(frac.skip(z as int))) + seq!['e', '-'] + decimal(z + 1)
    } else if n.contains('.') {
        n
    } else {
        n + ".0"@
    }
}

/// How a token is shown in a syntax error.
pub open spec fn token_text(t: TokenV) -> Seq<char> {
    match t {
        TokenV::KwLet => "KwLet"@,
        TokenV::KwConst => "KwConst"@,
        TokenV::KwDo => "KwDo"@,
        TokenV::KwEnd => "KwEnd"@,
        TokenV::KwIf => "KwIf"@,
        TokenV::KwReturn => "KwReturn"@,
        TokenV::KwTrue => "KwTrue"@,
        TokenV::KwFalse => "KwFalse"@,
        TokenV::Identifier(s) => "Identifier(\""@ + quoted_text(s) + "\")"@,
        TokenV::Number(n) => "Number("@ + number_text(n) + ")"@,
        TokenV::Str(s) => "String(\""@ + quoted_text(s) + "\")"@,
        TokenV::Symbol(c) => "Symbol('"@ + escaped_in_char(c) + "')"@,
        TokenV::Arrow => "Arrow"@,
        TokenV::EqEq => "EqEq"@,
        TokenV::NotEq => "NotEq"@,
        TokenV::Eof => "Eof"@,
    }
}

fn push_escaped(out: &mut Vec<char>, c: char, in_string: bool)
    ensures
        final(out)@ == old(out)@ + if in_string {
            escaped_in_string(c)
        } else {
            escaped_in_char(c)
        },
{
    let ghost before = out@;
    if in_string && c == '"' {
        out.push('\\');
        out.push('"');
    } else if !in_string && c == '\'' {
        out.push('\\');
        out.push('\'');
    } else if c == '\\' {
        out.push('\\');
        out.push('\\');
    } else if c == '\n' {
        out.push('\\');
        out.push('n');
    } else if c == '\r' {
        out.push('\\');
        out.push('r');
    } else if c == '\t' {
        out.push('\\');
        out.push('t');
    } else if c == '\0' {
        out.push('\\');
        out.push('0');
    } else {
        out.push(c);
    }
    assert(out@ =~= before + if in_string {
        escaped_in_string(c)
    } else {
        escaped_in_char(c)
    });
}

fn copy_range(w: &Vec<char>, a: usize, b: usize, out: &mut Vec<char>)
    requires
        a <= b <= w@.len(),
    ensures
        final(out)@ == old(out)@ + w@.subrange(a as int, b as int),
{
    let ghost start = out@;
    let mut k = a;
    while k < b
        invariant
            a <= k <= b <= w@.len(),
            out@ == start + w@.subrange(a as int, k as int),
        decreases b - k,
    {
        out.push(w[k]);
        assert(w@.subrange(a as int, k + 1) =~= w@.subrange(a as int, k as int).push(w@[k as int]));
        k = k + 1;
    }
}

fn drop_trailing_zeros(v: &mut Vec<char>)
    ensures
        final(v)@ == trim_trailing_zeros(old(v)@),
{
    while v.len() > 0 && v[v.len() - 1] == '0'
        invariant
            trim_trailing_zeros(v@) == trim_trailing_zeros(old(v)@),
        decreases v.len(),
    {
        let ghost before = v@;
        v.pop();
        assert(v@ =~= before.drop_last());
    }
}

fn push_mantissa(d: &Vec<char>, out: &mut Vec<char>)
    ensures
        final(out)@ == old(out)@ + mantissa(d@),
{
    let ghost start = out@;
    if d.len() <= 1 {
        copy_range(d, 0, d.len(), out);
        assert(d@.subrange(0, d@.len() as int) =~= d@);
    } else {
        out.push(d[0]);
        out.push('.');
        copy_range(d, 1, d.len(), out);
        assert(out@ =~= start + mantissa(d@));
    }
}

/// A number as a floating-point value shows in a syntax error.
fn float_text(n: &String) -> (r: String)
    ensures
        r@ == number_text(n@),
{
    let w = chars_of(n.as_str());
    let len = w.len();
    let mut d: usize = 0;
    while d < len && w[d] != '.'
        invariant
            w@ == n@,
            len == w@.len(),
            d <= len,
            dot_index(w@, d as nat) == dot_index(w@, 0),
            forall|j: int| 0 <= j < d ==> w@[j] != '.',
        decreases len - d,
    {
        d = d + 1;
    }
    let fs: usize = if d < len {
        d + 1
    } else {
        len
    };
    let ghost frac = if d < len {
        w@.skip(d + 1)
    } else {
        Seq::<char>::empty()
    };
    assert(frac =~= w@.subrange(fs as int, len as int));
    let mut z: usize = fs;
    while z < len && w[z] == '0'
        invariant
            fs <= z <= len,
            len == w@.len(),
            frac == w@.subrange(fs as int, len as int),
            first_nonzero(frac, (z - fs) as nat) == first_nonzero(frac, 0),
        decreases len - z,
    {
        z = z + 1;
    }
    let ghost zr = (z - fs) as nat;
    assert(first_nonzero(frac, zr) == zr);
    assert(w@.take(d as int) =~= w@.subrange(0, d as int));
    if d >= 17 {
        let mut digits: Vec<char> = Vec::new();
        copy_range(&w, 0, d, &mut digits);
        copy_range(&w, fs, len, &mut digits);
        assert(digits@ =~= w@.take(d as int) + frac);
        drop_trailing_zeros(&mut digits);
        let mut out: Vec<char> = Vec::new();
        push_mantissa(&digits, &mut out);
        out.push('e');
        push_decimal(d - 1, &mut out);
        assert(out@ =~= number_text(n@));
        string_from_chars(&out)
    } else if d == 1 && w[0] == '0' && z - fs >= 4 && z < len {
        assert(w@.take(d as int) =~= seq!['0']);
        let mut digits: Vec<char> = Vec::new();
        copy_range(&w, z, len, &mut digits);
        assert(digits@ =~= frac.skip(zr as int));
        drop_trailing_zeros(&mut digits);
        let mut out: Vec<char> = Vec::new();
        push_mantissa(&digits, &mut out);
        out.push('e');
        out.push('-');
        push_decimal(z - fs + 1, &mut out);
        assert(out@ =~= number_text(n@));
        string_from_chars(&out)
    } else {
        proof {
            if w@.take(d as int) == seq!['0'] {
                assert(w@.take(d as int).len() == 1);
                assert(w@.take(d as int)[0] == w@[0]);
            }
            if d < len {
                assert(n@[d as int] == '.');
            } else {
                assert forall|j: int| 0 <= j < n@.len() implies n@[j] != '.' by {}
            }
        }
        if d < len {
            n.clone()
        } else {
            let mut r = n.clone();
            r.append(".0");
            r
        }
    }
}

fn quote_text(s: &String) -> (r: String)
    ensures
        r@ == quoted_text(s@),
{
    let chars = chars_of(s.as_str());
    let mut out: Vec<char> = Vec::new();
    let mut i: usize = 0;
    assert(chars@.take(0) =~= Seq::<char>::empty());
    while i < chars.len()
        invariant
            chars@ == s@,
            i <= chars@.len(),
            out@ == quoted_text(chars@.take(i as int)),
        decreases chars.len() - i,
    {
        push_escaped(&mut out, chars[i], true);
        assert(chars@.take(i + 1).drop_last() =~= chars@.take(i as int));
        i = i + 1;
    }
    assert(chars@.take(i as int) =~= chars@);
    string_from_chars(&out)
}

impl Token {
    /// How the token is shown in a syntax error.
    pub fn text(&self) -> (r: String)
        ensures
            r@ == token_text(self@),
    {
        match self {
            Token::KwLet => String::from_str("KwLet"),
            Token::KwConst => String::from_str("KwConst"),
            Token::KwDo => String::from_str("KwDo"),
            Token::KwEnd => String::from_str("KwEnd"),
            Token::KwIf => String::from_str("KwIf"),
            Token::KwReturn => String::from_str("KwReturn"),
            Token::KwTrue => String::from_str("KwTrue"),
            Token::KwFalse => String::from_str("KwFalse"),
            Token::Identifier(s) => {
                let q = quote_text(s);
                let mut r = String::from_str("Identifier(\"");
                r.append(q.as_str());
                r.append("\")");
                r
            },
            Token::Number(n) => {
                let t = float_text(n);
                let mut r = String::from_str("Number(");
                r.append(t.as_str());
                r.append(")");
                r
            },
            Token::String(s) => {
                let q = quote_text(s);
                let mut r = String::from_str("String(\"");
                r.append(q.as_str());
                r.append("\")");
                r
            },
            Token::Symbol(c) => {
                let mut out: Vec<char> = Vec::new();
                push_escaped(&mut out, *c, false);
                let e = string_from_chars(&out);
                let mut r = String::from_str("Symbol('");
                r.append(e.as_str());
                r.append("')");
                r
            },
            Token::Arrow => String::from_str("Arrow"),
            Token::EqEq => String::from_str("EqEq"),
            Token::NotEq => String::from_str("NotEq"),
            Token::Eof => String::from_str("Eof"),
        }
    }
}

// ---------------------------------------------------------------------------
// Character classes
// ---------------------------------------------------------------------------

/// The Unicode `White_Space` property, as `char::is_whitespace` documents it.
pub open spec fn spec_is_whitespace(c: char) -> bool {
    ||| ('\u{9}' <= c && c <= '\u{d}')
    ||| c == ' '
    ||| c == '\u{85}'
    ||| c == '\u{a0}'
    ||| c == '\u{1680}'
    ||| ('\u{2000}' <= c && c <= '\u{200a}')
    ||| c == '\u{2028}'
    ||| c == '\u{2029}'
    ||| c == '\u{202f}'
    ||| c == '\u{205f}'
    ||| c == '\u{3000}'
}

pub open spec fn spec_is_digit(c: char) -> bool {
    '0' <= c && c <= '9'
}

pub open spec fn spec_is_alpha(c: char) -> bool {
    ('a' <= c && c <= 'z') || ('A' <= c && c <= 'Z')
}

pub open spec fn spec_is_ident_start(c: char) -> bool {
    spec_is_alpha(c) || c == '_'
}

pub open spec fn spec_is_ident_char(c: char) -> bool {
    spec_is_alpha(c) || spec_is_digit(c) || c == '_'
}

pub open spec fn spec_is_number_char(c: char) -> bool {
    spec_is_digit(c) || c == '.'
}

/// The one-character symbols: `=;,():<>+-*/`.
pub open spec fn spec_is_symbol(c: char) -> bool {
    c == '=' || c == ';' || c == ',' || c == '(' || c == ')' || c == ':' || c == '<' || c == '>'
        || c == '+' || c == '-' || c == '*' || c == '/'
}

pub fn is_whitespace(c: char) -> (r: bool)
    ensures
        r == spec_is_whitespace(c),
{
    ('\u{9}' <= c && c <= '\u{d}') || c == ' ' || c == '\u{85}' || c == '\u{a0}' || c == '\u{1680}'
        || ('\u{2000}' <= c && c <= '\u{200a}') || c == '\u{2028}' || c == '\u{2029}'
        || c == '\u{202f}' || c == '\u{205f}' || c == '\u{3000}'
}

fn is_digit(c: char) -> (r: bool)
    ensures
        r == spec_is_digit(c),
{
    '0' <= c && c <= '9'
}

fn is_ident_start(c: char) -> (r: bool)
    ensures
        r == spec_is_ident_start(c),
{
    ('a' <= c && c <= 'z') || ('A' <= c && c <= 'Z') || c == '_'
}

fn is_ident_char(c: char) -> (r: bool)
    ensures
        r == spec_is_ident_char(c),
{
    ('a' <= c && c <= 'z') || ('A' <= c && c <= 'Z') || ('0' <= c && c <= '9') || c == '_'
}

fn is_symbol(c: char) -> (r: bool)
    ensures
        r == spec_is_symbol(c),
{
    c == '=' || c == ';' || c == ',' || c == '(' || c == ')' || c == ':' || c == '<' || c == '>'
        || c == '+' || c == '-' || c == '*' || c == '/'
}

// ---------------------------------------------------------------------------
// The lexical grammar
// ---------------------------------------------------------------------------

/// The character at `i`, or `'\0'` past the end.
pub open spec fn char_at(s: Seq<char>, i: int) -> char {
    if 0 <= i < s.len() {
        s[i]
    } else {
        '\0'
    }
}

/// The first position at or after `q` that holds a newline, or the end.
pub open spec fn line_end(s: Seq<char>, q: nat) -> nat
    decreases s.len() - q,
{
    if q >= s.len() || s[q as int] == '\n' {
        q
    } else {
        line_end(s, q + 1)
    }
}

/// The first position at or after `p` that is neither whitespace nor inside
/// a `//` comment.
pub open spec fn skip_trivia(s: Seq<char>, p: nat) -> nat
    decreases s.len() - p,
{
    if p < s.len() && spec_is_whitespace(s[p as int]) {
        skip_trivia(s, p + 1)
    } else if p + 1 < s.len() && s[p as int] == '/' && s[p + 1 as int] == '/' {
        proof {
            lemma_line_end_bounds(s, p + 2);
        }
        skip_trivia(s, line_end(s, p + 2))
    } else {
        p
    }
}

/// The end of the longest run of digits and dots that starts at `p`.
pub open spec fn number_end(s: Seq<char>, p: nat) -> nat
    decreases s.len() - p,
{
    if p < s.len() && spec_is_number_char(s[p as int]) {
        number_end(s, p + 1)
    } else {
        p
    }
}

/// The end of the longest run of identifier characters that starts at `p`.
pub open spec fn ident_end(s: Seq<char>, p: nat) -> nat
    decreases s.len() - p,
{
    if p < s.len() && spec_is_ident_char(s[p as int]) {
        ident_end(s, p + 1)
    } else {
        p
    }
}

/// The contents of a string literal whose body starts at `p` (just past the
/// opening quote), and the position just past the closing quote; `None`
/// where no closing quote follows. A backslash takes the next character as it
/// stands.
pub open spec fn string_body(s: Seq<char>, p: nat) -> Option<(Seq<char>, nat)>
    decreases s.len() - p,
{
    if p >= s.len() {
        None
    } else if s[p as int] == '"' {
        Some((Seq::empty(), p + 1))
    } else if s[p as int] == '\\' && p + 1 < s.len() {
        match string_body(s, p + 2) {
            Some((v, e)) => Some((seq![s[p + 1 as int]] + v, e)),
            None => None,
        }
    } else {
        match string_body(s, p + 1) {
            Some((v, e)) => Some((seq![s[p as int]] + v, e)),
            None => None,
        }
    }
}

/// The token that a word of identifier characters stands for.
pub open spec fn keyword_or_identifier(w: Seq<char>) -> TokenV {
    if w == seq!['l', 'e', 't'] {
        TokenV::KwLet
    } else if w == seq!['c', 'o', 'n', 's', 't'] {
        TokenV::KwConst
    } else if w == seq!['d', 'o'] {
        TokenV::KwDo
    } else if w == seq!['e', 'n', 'd'] {
        TokenV::KwEnd
    } else if w == seq!['i', 'f'] {
        TokenV::KwIf
    } else if w == seq!['r', 'e', 't', 'u', 'r', 'n'] {
        TokenV::KwReturn
    } else if w == seq!['t', 'r', 'u', 'e'] || w == seq!['T', 'r', 'u', 'e'] {
        TokenV::KwTrue
    } else if w == seq!['f', 'a', 'l', 's', 'e'] || w == seq!['F', 'a', 'l', 's', 'e'] {
        TokenV::KwFalse
    } else {
        TokenV::Identifier(w)
    }
}

/// How many dots `w` holds.
pub open spec fn dot_count(w: Seq<char>) -> nat
    decreases w.len(),
{
    if w.len() == 0 {
        0
    } else {
        dot_count(w.drop_last()) + if w.last() == '.' {
            1nat
        } else {
            0nat
        }
    }
}

/// The position of the first dot in `w` at or after `i`, or the length of `w`.
pub open spec fn dot_index(w: Seq<char>, i: nat) -> nat
    decreases w.len() - i,
{
    if i >= w.len() || w[i as int] == '.' {
        i
    } else {
        dot_index(w, i + 1)
    }
}

pub open spec fn trim_leading_zeros(w: Seq<char>) -> Seq<char>
    decreases w.len(),
{
    if w.len() > 0 && w[0] == '0' {
        trim_leading_zeros(w.drop_first())
    } else {
        w
    }
}

pub open spec fn trim_trailing_zeros(w: Seq<char>) -> Seq<char>
    decreases w.len(),
{
    if w.len() > 0 && w.last() == '0' {
        trim_trailing_zeros(w.drop_last())
    } else {
        w
    }
}

/// The canonical decimal text of the value that a run of digits and dots
/// denotes: `0` where it holds two dots or more (no number); otherwise the
/// integer part without leading zeros (`0` where that leaves nothing),
/// followed, where the fraction without trailing zeros is not empty, by a dot
/// and that fraction.
pub open spec fn canonical_number(w: Seq<char>) -> Seq<char> {
    if dot_count(w) >= 2 {
        seq!['0']
    } else {
        let d = dot_index(w, 0);
        let int_part = trim_leading_zeros(w.take(d as int));
        let frac = if d < w.len() {
            trim_trailing_zeros(w.skip(d + 1 as int))
        } else {
            Seq::empty()
        };
        let int_text = if int_part.len() == 0 {
            seq!['0']
        } else {
            int_part
        };
        if frac.len() == 0 {
            int_text
        } else {
            int_text + seq!['.'] + frac
        }
    }
}

/// The digit of a decimal text in the place of `10^k`: for `k >= 0` the
/// `k`-th digit left of the dot (of the end, where there is no dot), for
/// `k < 0` the `-k`-th digit right of it; `0` where the text has no digit
/// there.
pub open spec fn place_digit(t: Seq<char>, k: int) -> char {
    let d = dot_index(t, 0) as int;
    if k >= 0 {
        if d - 1 - k >= 0 {
            t[d - 1 - k]
        } else {
            '0'
        }
    } else if d < t.len() && d - k < t.len() {
        t[d - k]
    } else {
        '0'
    }
}

proof fn lemma_dot_index_bounds(w: Seq<char>, i: nat)
    requires
        i <= w.len(),
    ensures
        i <= dot_index(w, i) <= w.len(),
        forall|j: int| i <= j < dot_index(w, i) ==> w[j] != '.',
        dot_index(w, i) < w.len() ==> w[dot_index(w, i) as int] == '.',
    decreases w.len() - i,
{
    if i < w.len() && w[i as int] != '.' {
        lemma_dot_index_bounds(w, i + 1);
    }
}

/// A text without dots has its dot index at its end.
proof fn lemma_dot_index_no_dot(w: Seq<char>, i: nat)
    requires
        i <= w.len(),
        forall|j: int| i <= j < w.len() ==> w[j] != '.',
    ensures
        dot_index(w, i) == w.len(),
    decreases w.len() - i,
{
    if i < w.len() {
        lemma_dot_index_no_dot(w, i + 1);
    }
}

/// A text `a . b` with no dot in `a` has its dot index at `a.len()`.
proof fn lemma_dot_index_split(a: Seq<char>, b: Seq<char>, i: nat)
    requires
        i <= a.len(),
        forall|j: int| i <= j < a.len() ==> a[j] != '.',
    ensures
        dot_index(a + seq!['.'] + b, i) == a.len(),
    decreases a.len() - i,
{
    let t = a + seq!['.'] + b;
    if i < a.len() {
        assert(t[i as int] == a[i as int]);
        lemma_dot_index_split(a, b, i + 1);
    } else {
        assert(t[i as int] == '.');
    }
}

proof fn lemma_dot_count_at_least_one(w: Seq<char>, a: int)
    requires
        0 <= a < w.len(),
        w[a] == '.',
    ensures
        dot_count(w) >= 1,
    decreases w.len(),
{
    if a < w.len() - 1 {
        assert(w.drop_last()[a] == w[a]);
        lemma_dot_count_at_least_one(w.drop_last(), a);
    }
}

/// Two dots make a dot count of two or more.
proof fn lemma_dot_count_two(w: Seq<char>, a: int, b: int)
    requires
        0 <= a < b < w.len(),
        w[a] == '.',
        w[b] == '.',
    ensures
        dot_count(w) >= 2,
    decreases w.len(),
{
    assert(w.drop_last()[a] == w[a]);
    if b == w.len() - 1 {
        lemma_dot_count_at_least_one(w.drop_last(), a);
    } else {
        assert(w.drop_last()[b] == w[b]);
        lemma_dot_count_two(w.drop_last(), a, b);
    }
}

/// Leading zeros are all that trimming them takes away.
proof fn lemma_trim_leading(s: Seq<char>)
    ensures
        trim_leading_zeros(s).len() <= s.len(),
        trim_leading_zeros(s) == s.skip(s.len() - trim_leading_zeros(s).len()),
        forall|j: int| 0 <= j < s.len() - trim_leading_zeros(s).len() ==> s[j] == '0',
        trim_leading_zeros(s).len() > 0 ==> trim_leading_zeros(s)[0] != '0',
    decreases s.len(),
{
    if s.len() > 0 && s[0] == '0' {
        lemma_trim_leading(s.drop_first());
        let t = trim_leading_zeros(s.drop_first());
        assert(s.drop_first().skip(s.drop_first().len() - t.len()) =~= s.skip(s.len() - t.len()));
        assert forall|j: int| 0 <= j < s.len() - t.len() implies s[j] == '0' by {
            if j > 0 {
                assert(s[j] == s.drop_first()[j - 1]);
            }
        }
    } else {
        assert(s.skip(0) =~= s);
    }
}

/// Trailing zeros are all that trimming them takes away.
proof fn lemma_trim_trailing(s: Seq<char>)
    ensures
        trim_trailing_zeros(s).len() <= s.len(),
        trim_trailing_zeros(s) == s.take(trim_trailing_zeros(s).len() as int),
        forall|j: int| trim_trailing_zeros(s).len() <= j < s.len() ==> s[j] == '0',
    decreases s.len(),
{
    if s.len() > 0 && s.last() == '0' {
        lemma_trim_trailing(s.drop_last());
        let t = trim_trailing_zeros(s.drop_last());
        assert(s.drop_last().take(t.len() as int) =~= s.take(t.len() as int));
        assert forall|j: int| t.len() <= j < s.len() implies s[j] == '0' by {
            if j < s.len() - 1 {
                assert(s[j] == s.drop_last()[j]);
            }
        }
    } else {
        assert(s.take(s.len() as int) =~= s);
    }
}

/// The text of a number keeps its value: in every decimal place, the
/// canonical text has the digit that the source text has there. Leading
/// zeros of the whole part and trailing zeros of the fraction are the only
/// digits that go, and they stand for nothing.
pub proof fn lemma_canonical_number_keeps_value(w: Seq<char>, k: int)
    requires
        dot_count(w) <= 1,
    ensures
        place_digit(canonical_number(w), k) == place_digit(w, k),
{
    let d = dot_index(w, 0);
    lemma_dot_index_bounds(w, 0);
    let ip = w.take(d as int);
    let t = trim_leading_zeros(ip);
    lemma_trim_leading(ip);
    let it = if t.len() == 0 {
        seq!['0']
    } else {
        t
    };
    let f0 = if d < w.len() {
        w.skip(d + 1 as int)
    } else {
        Seq::<char>::empty()
    };
    let f = trim_trailing_zeros(f0);
    lemma_trim_trailing(f0);
    let r = canonical_number(w);
    // No dot in the whole part, nor (with one dot at most) in the fraction.
    assert forall|j: int| 0 <= j < it.len() implies it[j] != '.' by {
        if t.len() > 0 {
            assert(it[j] == ip[ip.len() - t.len() + j]);
        }
    }
    if d < w.len() {
        assert forall|j: int| 0 <= j < f0.len() implies f0[j] != '.' by {
            if f0[j] == '.' {
                assert(w[d + 1 + j] == '.');
                lemma_dot_count_two(w, d as int, d + 1 + j);
            }
        }
    }
    if f.len() == 0 {
        assert(r == it);
        lemma_dot_index_no_dot(it, 0);
    } else {
        assert(r == it + seq!['.'] + f);
        lemma_dot_index_split(it, f, 0);
    }
    let dr = dot_index(r, 0) as int;
    assert(dr == it.len());
    if k >= 0 {
        if t.len() > 0 {
            if d - 1 - k >= 0 && t.len() - 1 - k < 0 {
                assert(ip[d - 1 - k] == '0');
            }
            if t.len() - 1 - k >= 0 {
                assert(r[dr - 1 - k] == it[dr - 1 - k]);
                assert(it[dr - 1 - k] == ip[ip.len() - t.len() + (t.len() - 1 - k)]);
            }
        } else {
            if d - 1 - k >= 0 {
                assert(ip[d - 1 - k] == '0');
            }
            if k == 0 {
                assert(r[0] == '0');
            }
        }
    } else {
        let m = -k - 1;
        if d < w.len() && d - k < w.len() {
            assert(w[d - k] == f0[m]);
        }
        if f.len() > 0 {
            if m < f.len() {
                assert(r[dr - k] == f[m]);
                assert(f[m] == f0[m]);
            }
        }
    }
}

/// The token that starts at `p` (a position past any trivia) and the position
/// just past it.
pub open spec fn scan_token(s: Seq<char>, p: nat) -> Result<(TokenV, nat), LexError> {
    if p >= s.len() {
        Ok((TokenV::Eof, p))
    } else {
        let c = s[p as int];
        if spec_is_digit(c) {
            let e = number_end(s, p);
            Ok((TokenV::Number(canonical_number(s.subrange(p as int, e as int))), e))
        } else if c == '"' {
            match string_body(s, p + 1) {
                Some((v, e)) => Ok((TokenV::Str(v), e)),
                None => Err(LexError::UnterminatedString),
            }
        } else if spec_is_ident_start(c) {
            let e = ident_end(s, p);
            Ok((keyword_or_identifier(s.subrange(p as int, e as int)), e))
        } else if c == '-' && char_at(s, p + 1 as int) == '>' {
            Ok((TokenV::Arrow, p + 2))
        } else if c == '=' && char_at(s, p + 1 as int) == '=' {
            Ok((TokenV::EqEq, p + 2))
        } else if c == '!' && char_at(s, p + 1 as int) == '=' {
            Ok((TokenV::NotEq, p + 2))
        } else if spec_is_symbol(c) {
            Ok((TokenV::Symbol(c), p + 1))
        } else {
            Err(LexError::UnexpectedCharacter { ch: c, position: p as usize })
        }
    }
}

/// The tokens of `s` from position `p` on, ending with `Eof`, or the first
/// error met.
pub open spec fn lex_from(s: Seq<char>, p: nat) -> Result<Seq<TokenV>, LexError>
    decreases s.len() - p,
{
    let q = skip_trivia(s, p);
    match scan_token(s, q) {
        Err(e) => Err(e),
        Ok((t, r)) => {
            if t is Eof {
                Ok(seq![t])
            } else {
                proof {
                    lemma_skip_trivia_bounds(s, p);
                    lemma_scan_token_advances(s, q);
                }
                match lex_from(s, r) {
                    Ok(ts) => Ok(seq![t] + ts),
                    Err(e) => Err(e),
                }
            }
        },
    }
}

/// The tokens of the whole text `s`.
pub open spec fn lex(s: Seq<char>) -> Result<Seq<TokenV>, LexError> {
    lex_from(s, 0)
}

pub open spec fn prepend_tokens(pre: Seq<TokenV>, r: Result<Seq<TokenV>, LexError>) -> Result<
    Seq<TokenV>,
    LexError,
> {
    match r {
        Ok(ts) => Ok(pre + ts),
        Err(e) => Err(e),
    }
}

// ---------------------------------------------------------------------------
// Lemmas on the lexical grammar
// ---------------------------------------------------------------------------

pub proof fn lemma_line_end_bounds(s: Seq<char>, q: nat)
    ensures
        q <= line_end(s, q),
        q <= s.len() ==> line_end(s, q) <= s.len(),
    decreases s.len() - q,
{
    if !(q >= s.len() || s[q as int] == '\n') {
        lemma_line_end_bounds(s, q + 1);
    }
}

pub proof fn lemma_skip_trivia_bounds(s: Seq<char>, p: nat)
    ensures
        p <= skip_trivia(s, p),
        p <= s.len() ==> skip_trivia(s, p) <= s.len(),
    decreases s.len() - p,
{
    if p < s.len() && spec_is_whitespace(s[p as int]) {
        lemma_skip_trivia_bounds(s, p + 1);
    } else if p + 1 < s.len() && s[p as int] == '/' && s[p + 1 as int] == '/' {
        lemma_line_end_bounds(s, p + 2);
        lemma_skip_trivia_bounds(s, line_end(s, p + 2));
    }
}

pub proof fn lemma_number_end_bounds(s: Seq<char>, p: nat)
    ensures
        p <= number_end(s, p),
        p <= s.len() ==> number_end(s, p) <= s.len(),
    decreases s.len() - p,
{
    if p < s.len() && spec_is_number_char(s[p as int]) {
        lemma_number_end_bounds(s, p + 1);
    }
}

pub proof fn lemma_ident_end_bounds(s: Seq<char>, p: nat)
    ensures
        p <= ident_end(s, p),
        p <= s.len() ==> ident_end(s, p) <= s.len(),
    decreases s.len() - p,
{
    if p < s.len() && spec_is_ident_char(s[p as int]) {
        lemma_ident_end_bounds(s, p + 1);
    }
}

pub proof fn lemma_string_body_bounds(s: Seq<char>, p: nat)
    ensures
        string_body(s, p) matches Some((v, e)) ==> p < e <= s.len(),
    decreases s.len() - p,
{
    if p >= s.len() {
    } else if s[p as int] == '"' {
    } else if s[p as int] == '\\' && p + 1 < s.len() {
        lemma_string_body_bounds(s, p + 2);
    } else {
        lemma_string_body_bounds(s, p + 1);
    }
}

/// The tokens of a text end with `Eof`, and only there.
pub open spec fn eof_terminated(ts: Seq<TokenV>) -> bool {
    &&& ts.len() > 0
    &&& ts.last() is Eof
    &&& forall|i: int| 0 <= i < ts.len() - 1 ==> !(#[trigger] ts[i] is Eof)
}

pub proof fn lemma_lex_eof_terminated(s: Seq<char>, p: nat)
    ensures
        lex_from(s, p) matches Ok(ts) ==> eof_terminated(ts),
    decreases s.len() - p,
{
    let q = skip_trivia(s, p);
    if let Ok((t, r)) = scan_token(s, q) {
        if !(t is Eof) {
            lemma_skip_trivia_bounds(s, p);
            lemma_scan_token_advances(s, q);
            lemma_lex_eof_terminated(s, r);
            if let Ok(ts) = lex_from(s, r) {
                let all = seq![t] + ts;
                assert forall|i: int| 0 <= i < all.len() - 1 implies !(#[trigger] all[i] is Eof) by {
                    if i > 0 {
                        assert(all[i] == ts[i - 1]);
                    }
                }
            }
        }
    }
}

/// Every token but `Eof` takes at least one character.
pub proof fn lemma_scan_token_advances(s: Seq<char>, p: nat)
    ensures
        scan_token(s, p) matches Ok((t, r)) ==> (t is Eof || (p < r && r <= s.len())),
{
    if p < s.len() {
        let c = s[p as int];
        lemma_number_end_bounds(s, p);
        lemma_ident_end_bounds(s, p);
        lemma_string_body_bounds(s, p + 1);
        if spec_is_digit(c) {
            assert(number_end(s, p) == number_end(s, p + 1));
            lemma_number_end_bounds(s, p + 1);
        } else if spec_is_ident_start(c) {
            assert(ident_end(s, p) == ident_end(s, p + 1));
            lemma_ident_end_bounds(s, p + 1);
        }
    }
}

pub open spec fn prefix_string_body(v: Seq<char>, o: Option<(Seq<char>, nat)>) -> Option<
    (Seq<char>, nat),
> {
    match o {
        Some((x, e)) => Some((v + x, e)),
        None => None,
    }
}

pub open spec fn lex_result_view(r: Result<Vec<Token>, LexError>) -> Result<Seq<TokenV>, LexError> {
    match r {
        Ok(ts) => Ok(tokens_view(ts@)),
        Err(e) => Err(e),
    }
}

// ---------------------------------------------------------------------------
// Numbers
// ---------------------------------------------------------------------------

/// The canonical decimal text of a run of digits and dots.
#[verifier::rlimit(30)]
pub fn canonical_number_text(w: &Vec<char>) -> (r: Vec<char>)
    ensures
        r@ == canonical_number(w@),
{
    let n = w.len();
    let mut dots: usize = 0;
    let mut i: usize = 0;
    while i < n
        invariant
            n == w@.len(),
            i <= n,
            dots as nat == dot_count(w@.take(i as int)),
            dots <= i,
        decreases n - i,
    {
        assert(w@.take(i + 1).drop_last() =~= w@.take(i as int));
        if w[i] == '.' {
            dots = dots + 1;
        }
        i = i + 1;
    }
    assert(w@.take(n as int) =~= w@);
    if dots >= 2 {
        let mut r = Vec::new();
        r.push('0');
        assert(r@ =~= seq!['0']);
        return r;
    }
    let mut d: usize = 0;
    while d < n && w[d] != '.'
        invariant
            n == w@.len(),
            d <= n,
            dot_index(w@, d as nat) == dot_index(w@, 0),
        decreases n - d,
    {
        d = d + 1;
    }
    let mut a: usize = 0;
    while a < d && w[a] == '0'
        invariant
            n == w@.len(),
            d <= n,
            a <= d,
            trim_leading_zeros(w@.subrange(a as int, d as int)) == trim_leading_zeros(
                w@.take(d as int),
            ),
        decreases d - a,
    {
        assert(w@.subrange(a as int, d as int).drop_first() =~= w@.subrange(a + 1, d as int));
        a = a + 1;
    }
    assert(w@.take(d as int) =~= w@.subrange(0, d as int));
    assert(trim_leading_zeros(w@.subrange(a as int, d as int)) == w@.subrange(a as int, d as int));
    let mut b: usize = n;
    if d < n {
        while b > d + 1 && w[b - 1] == '0'
            invariant
                n == w@.len(),
                d < n,
                d + 1 <= b <= n,
                trim_trailing_zeros(w@.subrange(d + 1, b as int)) == trim_trailing_zeros(
                    w@.skip(d + 1),
                ),
            decreases b,
        {
            assert(w@.subrange(d + 1, b as int).drop_last() =~= w@.subrange(d + 1, b - 1));
            b = b - 1;
        }
        assert(w@.skip(d + 1) =~= w@.subrange(d + 1, n as int));
        assert(trim_trailing_zeros(w@.subrange(d + 1, b as int)) == w@.subrange(d + 1, b as int));
    }
    let mut r: Vec<char> = Vec::new();
    if a == d {
        r.push('0');
        assert(r@ =~= seq!['0']);
    } else {
        let mut k = a;
        while k < d
            invariant
                n == w@.len(),
                a <= k <= d <= n,
                r@ =~= w@.subrange(a as int, k as int),
            decreases d - k,
        {
            r.push(w[k]);
            k = k + 1;
        }
    }
    let ghost int_text = r@;
    if d < n && b > d + 1 {
        r.push('.');
        let mut k = d + 1;
        while k < b
            invariant
                n == w@.len(),
                d + 1 <= k <= b <= n,
                r@ =~= int_text + seq!['.'] + w@.subrange(d + 1, k as int),
            decreases b - k,
        {
            r.push(w[k]);
            k = k + 1;
        }
    }
    r
}

// ---------------------------------------------------------------------------
// The lexer
// ---------------------------------------------------------------------------

pub struct Lexer {
    input: Vec<char>,
    pos: usize,
}

impl Lexer {
    #[verifier::type_invariant]
    spec fn position_in_input(self) -> bool {
        self.pos <= self.input.len()
    }

    /// The text being split.
    pub closed spec fn input(&self) -> Seq<char> {
        self.input@
    }

    /// The position of the next character to read.
    pub closed spec fn position(&self) -> nat {
        self.pos as nat
    }

    pub fn new(input: &str) -> (r: Self)
        ensures
            r.input() == input@,
            r.position() == 0,
    {
        broadcast use vstd::string::group_string_axioms;

        let mut chars: Vec<char> = Vec::new();
        for c in it: input.chars()
            invariant
                chars@ == it.seq().take(it.index() as int),
        {
            chars.push(c);
        }
        Lexer { input: chars, pos: 0 }
    }

    /// Splits the rest of the input into tokens, ending with `Eof`.
    pub fn tokenize(&mut self) -> (r: Result<Vec<Token>, LexError>)
        ensures
            final(self).input() == old(self).input(),
            lex_result_view(r) == lex_from(old(self).input(), old(self).position()),
    {
        proof {
            use_type_invariant(&*self);
        }
        let ghost s = self.input@;
        let ghost start = self.pos as nat;
        let mut tokens: Vec<Token> = Vec::new();
        loop
            invariant
                s == old(self).input@,
                start == old(self).pos,
                self.input@ == s,
                self.pos <= s.len(),
                lex_from(s, start) == prepend_tokens(tokens_view(tokens@), lex_from(s, self.pos as nat)),
            decreases s.len() - self.pos,
        {
            let ghost before = self.pos as nat;
            let token = match self.next_token() {
                Ok(t) => t,
                Err(e) => {
                    return Err(e);
                },
            };
            proof {
                use_type_invariant(&*self);
                lemma_skip_trivia_bounds(s, before);
                lemma_scan_token_advances(s, skip_trivia(s, before));
            }
            let is_eof = match token {
                Token::Eof => true,
                _ => false,
            };
            let ghost prev = tokens_view(tokens@);
            tokens.push(token);
            assert(tokens_view(tokens@) =~= prev + seq![token@]);
            if is_eof {
                assert(lex_from(s, before) == Ok::<Seq<TokenV>, LexError>(seq![TokenV::Eof]));
                return Ok(tokens);
            }
            assert(prev + (seq![token@] + lex_from(s, self.pos as nat)->Ok_0) =~= tokens_view(tokens@)
                + lex_from(s, self.pos as nat)->Ok_0);
        }
    }

    /// Skips trivia and reads one token.
    pub fn next_token(&mut self) -> (r: Result<Token, LexError>)
        ensures
            final(self).input() == old(self).input(),
            r matches Ok(t) && !(t@ is Eof) ==> old(self).position() < final(self).position()
                <= final(self).input().len(),
            r matches Ok(t) && t@ is Eof ==> final(self).position() == final(self).input().len(),
            ({
                let s = old(self).input();
                match scan_token(s, skip_trivia(s, old(self).position())) {
                    Ok((t, e)) => r matches Ok(tok) && tok@ == t && final(self).position() == e,
                    Err(err) => r == Err::<Token, LexError>(err),
                }
            }),
    {
        proof {
            use_type_invariant(&*self);
            let s = self.input();
            lemma_skip_trivia_bounds(s, self.position());
            lemma_scan_token_advances(s, skip_trivia(s, self.position()));
        }
        self.skip_whitespace_and_comments();
        proof {
            use_type_invariant(&*self);
        }
        if self.pos >= self.input.len() {
            return Ok(Token::Eof);
        }
        let ch = self.input[self.pos];
        if is_digit(ch) {
            return Ok(self.read_number());
        }
        if ch == '"' {
            return self.read_string();
        }
        if is_ident_start(ch) {
            return Ok(self.read_identifier_or_keyword());
        }
        if ch == '-' && self.peek_char(1) == '>' {
            self.pos = self.pos + 2;
            return Ok(Token::Arrow);
        }
        if ch == '=' && self.peek_char(1) == '=' {
            self.pos = self.pos + 2;
            return Ok(Token::EqEq);
        }
        if ch == '!' && self.peek_char(1) == '=' {
            self.pos = self.pos + 2;
            return Ok(Token::NotEq);
        }
        if is_symbol(ch) {
            self.pos = self.pos + 1;
            return Ok(Token::Symbol(ch));
        }
        Err(LexError::UnexpectedCharacter { ch, position: self.pos })
    }

    fn read_number(&mut self) -> (t: Token)
        requires
            old(self).position() < old(self).input().len(),
        ensures
            final(self).input() == old(self).input(),
            ({
                let s = old(self).input();
                let e = number_end(s, old(self).position());
                final(self).position() == e && t@ == TokenV::Number(
                    canonical_number(s.subrange(old(self).position() as int, e as int)),
                )
            }),
    {
        proof {
            use_type_invariant(&*self);
        }
        let ghost s = self.input@;
        let start = self.pos;
        while self.pos < self.input.len() && self.is_number_char(self.input[self.pos])
            invariant
                self.input@ == s,
                start <= self.pos <= s.len(),
                number_end(s, self.pos as nat) == number_end(s, start as nat),
            decreases s.len() - self.pos,
        {
            self.pos = self.pos + 1;
        }
        let mut text: Vec<char> = Vec::new();
        let mut k = start;
        while k < self.pos
            invariant
                self.input@ == s,
                start <= k <= self.pos <= s.len(),
                text@ =~= s.subrange(start as int, k as int),
            decreases self.pos - k,
        {
            text.push(self.input[k]);
            k = k + 1;
        }
        let value = canonical_number_text(&text);
        Token::Number(string_from_chars(&value))
    }

    fn read_string(&mut self) -> (r: Result<Token, LexError>)
        requires
            old(self).position() < old(self).input().len(),
        ensures
            final(self).input() == old(self).input(),
            match string_body(old(self).input(), old(self).position() + 1) {
                Some((v, e)) => r matches Ok(tok) && tok@ == TokenV::Str(v) && final(self).position()
                    == e,
                None => r == Err::<Token, LexError>(LexError::UnterminatedString),
            },
    {
        proof {
            use_type_invariant(&*self);
        }
        let ghost s = self.input@;
        let ghost start = self.pos as nat;
        self.pos = self.pos + 1;
        let mut value: Vec<char> = Vec::new();
        while self.pos < self.input.len()
            invariant
                s == old(self).input@,
                start == old(self).pos,
                self.input@ == s,
                start < self.pos <= s.len(),
                string_body(s, start + 1) == prefix_string_body(
                    value@,
                    string_body(s, self.pos as nat),
                ),
            decreases s.len() - self.pos,
        {
            let ch = self.input[self.pos];
            if ch == '"' {
                self.pos = self.pos + 1;
                assert(value@ + Seq::<char>::empty() =~= value@);
                return Ok(Token::String(string_from_chars(&value)));
            }
            if ch == '\\' && self.pos + 1 < self.input.len() {
                self.pos = self.pos + 1;
                let ghost before = value@;
                value.push(self.input[self.pos]);
                self.pos = self.pos + 1;
                proof {
                    let o = string_body(s, self.pos as nat);
                    if let Some((x, e)) = o {
                        assert(before + (seq![s[self.pos - 1]] + x) =~= value@ + x);
                    }
                }
                continue;
            }
            let ghost before = value@;
            value.push(ch);
            self.pos = self.pos + 1;
            proof {
                let o = string_body(s, self.pos as nat);
                if let Some((x, e)) = o {
                    assert(before + (seq![ch] + x) =~= value@ + x);
                }
            }
        }
        Err(LexError::UnterminatedString)
    }

    fn read_identifier_or_keyword(&mut self) -> (t: Token)
        requires
            old(self).position() < old(self).input().len(),
        ensures
            final(self).input() == old(self).input(),
            ({
                let s = old(self).input();
                let e = ident_end(s, old(self).position());
                final(self).position() == e && t@ == keyword_or_identifier(
                    s.subrange(old(self).position() as int, e as int),
                )
            }),
    {
        proof {
            use_type_invariant(&*self);
        }
        let ghost s = self.input@;
        let start = self.pos;
        while self.pos < self.input.len() && is_ident_char(self.input[self.pos])
            invariant
                self.input@ == s,
                start <= self.pos <= s.len(),
                ident_end(s, self.pos as nat) == ident_end(s, start as nat),
            decreases s.len() - self.pos,
        {
            self.pos = self.pos + 1;
        }
        let mut text: Vec<char> = Vec::new();
        let mut k = start;
        while k < self.pos
            invariant
                self.input@ == s,
                start <= k <= self.pos <= s.len(),
                text@ =~= s.subrange(start as int, k as int),
            decreases self.pos - k,
        {
            text.push(self.input[k]);
            k = k + 1;
        }
        keyword_or_identifier_token(text)
    }

    /// Moves past whitespace and `//` comments.
    pub fn skip_whitespace_and_comments(&mut self)
        ensures
            final(self).input() == old(self).input(),
            final(self).position() == skip_trivia(old(self).input(), old(self).position()),
    {
        proof {
            use_type_invariant(&*self);
        }
        let ghost s = self.input@;
        let ghost start = self.pos as nat;
        loop
            invariant
                s == old(self).input@,
                start == old(self).pos,
                self.input@ == s,
                self.pos <= s.len(),
                skip_trivia(s, self.pos as nat) == skip_trivia(s, start),
            ensures
                self.input@ == s,
                self.pos == skip_trivia(s, start),
            decreases s.len() - self.pos,
        {
            let ghost iteration = self.pos;
            while self.pos < self.input.len() && is_whitespace(self.input[self.pos])
                invariant
                    self.input@ == s,
                    iteration <= self.pos <= s.len(),
                    skip_trivia(s, self.pos as nat) == skip_trivia(s, start),
                decreases s.len() - self.pos,
            {
                self.pos = self.pos + 1;
            }
            if self.pos < self.input.len() && self.pos + 1 < self.input.len() && self.input[self.pos]
                == '/' && self.input[self.pos + 1] == '/' {
                let ghost comment = self.pos as nat;
                self.pos = self.pos + 2;
                while self.pos < self.input.len() && self.input[self.pos] != '\n'
                    invariant
                        self.input@ == s,
                        iteration <= comment,
                        comment + 2 <= self.pos <= s.len(),
                        line_end(s, self.pos as nat) == line_end(s, comment + 2),
                    decreases s.len() - self.pos,
                {
                    self.pos = self.pos + 1;
                }
                continue;
            }
            break;
        }
    }

    /// The character `offset` places ahead, or `'\0'` past the end.
    pub fn peek_char(&self, offset: usize) -> (c: char)
        requires
            self.position() + offset <= usize::MAX,
        ensures
            c == char_at(self.input(), self.position() + offset),
    {
        let idx = self.pos + offset;
        if idx < self.input.len() {
            self.input[idx]
        } else {
            '\0'
        }
    }

    /// Whether `ch` can stand in a number: an ASCII digit or a dot.
    pub fn is_number_char(&self, ch: char) -> (r: bool)
        ensures
            r == spec_is_number_char(ch),
    {
        is_digit(ch) || ch == '.'
    }
}

fn keyword_or_identifier_token(w: Vec<char>) -> (t: Token)
    ensures
        t@ == keyword_or_identifier(w@),
{
    let n = w.len();
    if n == 3 && w[0] == 'l' && w[1] == 'e' && w[2] == 't' {
        assert(w@ =~= seq!['l', 'e', 't']);
        return Token::KwLet;
    }
    if n == 5 && w[0] == 'c' && w[1] == 'o' && w[2] == 'n' && w[3] == 's' && w[4] == 't' {
        assert(w@ =~= seq!['c', 'o', 'n', 's', 't']);
        return Token::KwConst;
    }
    if n == 2 && w[0] == 'd' && w[1] == 'o' {
        assert(w@ =~= seq!['d', 'o']);
        return Token::KwDo;
    }
    if n == 3 && w[0] == 'e' && w[1] == 'n' && w[2] == 'd' {
        assert(w@ =~= seq!['e', 'n', 'd']);
        return Token::KwEnd;
    }
    if n == 2 && w[0] == 'i' && w[1] == 'f' {
        assert(w@ =~= seq!['i', 'f']);
        return Token::KwIf;
    }
    if n == 6 && w[0] == 'r' && w[1] == 'e' && w[2] == 't' && w[3] == 'u' && w[4] == 'r' && w[5]
        == 'n' {
        assert(w@ =~= seq!['r', 'e', 't', 'u', 'r', 'n']);
        return Token::KwReturn;
    }
    if n == 4 && (w[0] == 't' || w[0] == 'T') && w[1] == 'r' && w[2] == 'u' && w[3] == 'e' {
        if w[0] == 't' {
            assert(w@ =~= seq!['t', 'r', 'u', 'e']);
        } else {
            assert(w@ =~= seq!['T', 'r', 'u', 'e']);
        }
        return Token::KwTrue;
    }
    if n == 5 && (w[0] == 'f' || w[0] == 'F') && w[1] == 'a' && w[2] == 'l' && w[3] == 's' && w[4]
        == 'e' {
        if w[0] == 'f' {
            assert(w@ =~= seq!['f', 'a', 'l', 's', 'e']);
        } else {
            assert(w@ =~= seq!['F', 'a', 'l', 's', 'e']);
        }
        return Token::KwFalse;
    }
    Token::Identifier(string_from_chars(&w))
}

} // verus!
