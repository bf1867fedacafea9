//! Splitting one line of source into tokens.
use vstd::prelude::*;

use crate::text::string_from_chars;

verus! {

#[derive(Debug, Clone, Copy, PartialEq, Eq, Structural)]
pub enum Symbol {
    LParen,
    RParen,
    LBracket,
    RBracket,
    LBrace,
    RBrace,
    Comma,
    Colon,
    DoubleColon,
    Dot,
    Plus,
    Minus,
    Star,
    Slash,
    Percent,
    EqEq,
    NotEq,
    Less,
    Greater,
    LessEq,
    GreaterEq,
    AndAnd,
    OrOr,
    Bang,
    Assign,
    Arrow,
    FatArrow,
    PlusAssign,
    MinusAssign,
    PlusPlus,
    MinusMinus,
    Question,
    BangQuestion,
    Hash,
}

#[derive(Debug, PartialEq, Eq)]
pub enum TokenKind {
    Ident(String),
    Int(i64),
    Float(String),
    Str(String),
    Sym(Symbol),
}

/// A token and the 1-based column it starts at.
#[derive(Debug, PartialEq, Eq)]
pub struct Token {
    pub kind: TokenKind,
    pub column: usize,
}

pub open spec fn is_ident_start_spec(c: char) -> bool {
    ('a' <= c && c <= 'z') || ('A' <= c && c <= 'Z') || c == '_'
}

pub open spec fn is_digit_spec(c: char) -> bool {
    '0' <= c && c <= '9'
}

pub open spec fn is_ident_char_spec(c: char) -> bool {
    is_ident_start_spec(c) || is_digit_spec(c)
}

pub open spec fn is_space_spec(c: char) -> bool {
    c == ' ' || c == '\t' || c == '\r'
}

/// A token as plain values.
pub enum TokenView {
    Ident(Seq<char>),
    Int(i64),
    Float(Seq<char>),
    Str(Seq<char>),
    Sym(Symbol),
}

pub open spec fn kind_view(k: TokenKind) -> TokenView {
    match k {
        TokenKind::Ident(s) => TokenView::Ident(s@),
        TokenKind::Int(v) => TokenView::Int(v),
        TokenKind::Float(s) => TokenView::Float(s@),
        TokenKind::Str(s) => TokenView::Str(s@),
        TokenKind::Sym(s) => TokenView::Sym(s),
    }
}

/// A token's kind and its 1-based column.
pub open spec fn token_view(t: Token) -> (TokenView, int) {
    (kind_view(t.kind), t.column as int)
}

pub open spec fn tokens_view(ts: Seq<Token>) -> Seq<(TokenView, int)> {
    ts.map_values(|t: Token| token_view(t))
}

/// The end of the run of identifier characters of `s` that starts at `i`,
/// stopping at `end`.
pub open spec fn ident_run(s: Seq<char>, i: int, end: int) -> int
    decreases end - i,
{
    if i < end && is_ident_char_spec(s[i]) {
        ident_run(s, i + 1, end)
    } else {
        i
    }
}

/// The end of the run of decimal digits of `s` that starts at `i`.
pub open spec fn digit_run(s: Seq<char>, i: int, end: int) -> int
    decreases end - i,
{
    if i < end && is_digit_spec(s[i]) {
        digit_run(s, i + 1, end)
    } else {
        i
    }
}

/// The first `"` of `s` at or after `i`, or `end` when there is none.
pub open spec fn quote_run(s: Seq<char>, i: int, end: int) -> int
    decreases end - i,
{
    if i < end && s[i] != '"' {
        quote_run(s, i + 1, end)
    } else {
        i
    }
}

pub proof fn lemma_ident_run(s: Seq<char>, i: int, end: int)
    requires
        i <= end,
    ensures
        i <= ident_run(s, i, end) <= end,
        i < end && is_ident_char_spec(s[i]) ==> i < ident_run(s, i, end),
    decreases end - i,
{
    if i < end && is_ident_char_spec(s[i]) {
        lemma_ident_run(s, i + 1, end);
    }
}

pub proof fn lemma_digit_run(s: Seq<char>, i: int, end: int)
    requires
        i <= end,
    ensures
        i <= digit_run(s, i, end) <= end,
        i < end && is_digit_spec(s[i]) ==> i < digit_run(s, i, end),
    decreases end - i,
{
    if i < end && is_digit_spec(s[i]) {
        lemma_digit_run(s, i + 1, end);
    }
}

pub proof fn lemma_quote_run(s: Seq<char>, i: int, end: int)
    requires
        i <= end,
    ensures
        i <= quote_run(s, i, end) <= end,
    decreases end - i,
{
    if i < end && s[i] != '"' {
        lemma_quote_run(s, i + 1, end);
    }
}

/// The value of a decimal digit.
pub open spec fn digit_value(c: char) -> int {
    if c == '0' { 0 } else if c == '1' { 1 } else if c == '2' { 2 } else if c == '3' { 3 } else if c == '4' { 4 }
    else if c == '5' { 5 } else if c == '6' { 6 } else if c == '7' { 7 } else if c == '8' { 8 } else { 9 }
}

/// The number that the decimal digits `s` write.
pub open spec fn digits_number(s: Seq<char>) -> int
    decreases s.len(),
{
    if s.len() == 0 {
        0
    } else {
        digits_number(s.drop_last()) * 10 + digit_value(s.last())
    }
}

pub proof fn lemma_digits_number_grows(s: Seq<char>, k: int)
    requires
        0 <= k <= s.len(),
    ensures
        0 <= digits_number(s.subrange(0, k)) <= digits_number(s),
    decreases s.len() - k,
{
    if k < s.len() {
        lemma_digits_number_grows(s, k + 1);
        let a = s.subrange(0, k + 1);
        assert(a.drop_last() =~= s.subrange(0, k));
        lemma_digits_number_nonneg(s.subrange(0, k));
    } else {
        assert(s.subrange(0, k) =~= s);
        lemma_digits_number_nonneg(s);
    }
}

pub proof fn lemma_digits_number_nonneg(s: Seq<char>)
    ensures
        digits_number(s) >= 0,
    decreases s.len(),
{
    if s.len() > 0 {
        lemma_digits_number_nonneg(s.drop_last());
    }
}

/// The symbol written by the one character `c`, if any.
pub open spec fn one_char_symbol(c: char) -> Option<Symbol> {
    if c == '(' { Some(Symbol::LParen) }
    else if c == ')' { Some(Symbol::RParen) }
    else if c == '[' { Some(Symbol::LBracket) }
    else if c == ']' { Some(Symbol::RBracket) }
    else if c == '{' { Some(Symbol::LBrace) }
    else if c == '}' { Some(Symbol::RBrace) }
    else if c == ',' { Some(Symbol::Comma) }
    else if c == ':' { Some(Symbol::Colon) }
    else if c == '.' { Some(Symbol::Dot) }
    else if c == '+' { Some(Symbol::Plus) }
    else if c == '-' { Some(Symbol::Minus) }
    else if c == '*' { Some(Symbol::Star) }
    else if c == '/' { Some(Symbol::Slash) }
    else if c == '%' { Some(Symbol::Percent) }
    else if c == '<' { Some(Symbol::Less) }
    else if c == '>' { Some(Symbol::Greater) }
    else if c == '!' { Some(Symbol::Bang) }
    else if c == '=' { Some(Symbol::Assign) }
    else if c == '?' { Some(Symbol::Question) }
    else if c == '#' { Some(Symbol::Hash) }
    else { None }
}

/// The symbol written by the two characters `a` `b`, if any.
pub open spec fn two_char_symbol(a: char, b: char) -> Option<Symbol> {
    if a == ':' && b == ':' { Some(Symbol::DoubleColon) }
    else if a == '=' && b == '=' { Some(Symbol::EqEq) }
    else if a == '!' && b == '=' { Some(Symbol::NotEq) }
    else if a == '!' && b == '?' { Some(Symbol::BangQuestion) }
    else if a == '<' && b == '=' { Some(Symbol::LessEq) }
    else if a == '>' && b == '=' { Some(Symbol::GreaterEq) }
    else if a == '&' && b == '&' { Some(Symbol::AndAnd) }
    else if a == '|' && b == '|' { Some(Symbol::OrOr) }
    else if a == '-' && b == '>' { Some(Symbol::Arrow) }
    else if a == '=' && b == '>' { Some(Symbol::FatArrow) }
    else if a == '+' && b == '=' { Some(Symbol::PlusAssign) }
    else if a == '-' && b == '=' { Some(Symbol::MinusAssign) }
    else if a == '+' && b == '+' { Some(Symbol::PlusPlus) }
    else if a == '-' && b == '-' { Some(Symbol::MinusMinus) }
    else { None }
}

pub open spec fn prepend(t: (TokenView, int), rest: Option<Seq<(TokenView, int)>>) -> Option<Seq<(TokenView, int)>> {
    match rest {
        Some(r) => Some(seq![t] + r),
        None => None,
    }
}

/// `done` followed by `rest`, or `None` where `rest` is `None`.
pub open spec fn after_tokens(done: Seq<(TokenView, int)>, rest: Option<Seq<(TokenView, int)>>) -> Option<Seq<(TokenView, int)>> {
    match rest {
        Some(r) => Some(done + r),
        None => None,
    }
}

pub proof fn lemma_push_token(done: Seq<Token>, t: Token, rest: Option<Seq<(TokenView, int)>>)
    ensures
        after_tokens(tokens_view(done.push(t)), rest) == after_tokens(tokens_view(done), prepend(token_view(t), rest)),
{
    assert(tokens_view(done.push(t)) =~= tokens_view(done).push(token_view(t)));
    match rest {
        Some(r) => {
            assert(tokens_view(done.push(t)) + r =~= tokens_view(done) + (seq![token_view(t)] + r));
        },
        None => {},
    }
}

/// The tokens of `s[i..end]`, each with its 1-based column, or `None` when
/// a character cannot start a token, a string is not closed or an integer
/// does not fit in an `i64`. Spaces separate tokens; a symbol of two
/// characters is preferred to one of one.
pub open spec fn lex(s: Seq<char>, i: int, end: int) -> Option<Seq<(TokenView, int)>>
    decreases end - i,
{
    if i >= end {
        Some(Seq::empty())
    } else {
        let c = s[i];
        if is_space_spec(c) {
            lex(s, i + 1, end)
        } else if is_ident_start_spec(c) {
            let j = ident_run(s, i, end);
            proof {
                lemma_ident_run(s, i, end);
            }
            prepend((TokenView::Ident(s.subrange(i, j)), i + 1), lex(s, j, end))
        } else if is_digit_spec(c) {
            let j = digit_run(s, i, end);
            proof {
                lemma_digit_run(s, i, end);
            }
            if j + 1 < end && s[j] == '.' && is_digit_spec(s[j + 1]) {
                let k = digit_run(s, j + 1, end);
                proof {
                    lemma_digit_run(s, j + 1, end);
                }
                prepend((TokenView::Float(s.subrange(i, k)), i + 1), lex(s, k, end))
            } else if digits_number(s.subrange(i, j)) <= i64::MAX {
                prepend((TokenView::Int(digits_number(s.subrange(i, j)) as i64), i + 1), lex(s, j, end))
            } else {
                None
            }
        } else if c == '"' {
            let j = quote_run(s, i + 1, end);
            proof {
                lemma_quote_run(s, i + 1, end);
            }
            if j >= end {
                None
            } else {
                prepend((TokenView::Str(s.subrange(i + 1, j)), i + 1), lex(s, j + 1, end))
            }
        } else if i + 1 < end && two_char_symbol(c, s[i + 1]) is Some {
            prepend((TokenView::Sym(two_char_symbol(c, s[i + 1])->0), i + 1), lex(s, i + 2, end))
        } else if one_char_symbol(c) is Some {
            prepend((TokenView::Sym(one_char_symbol(c)->0), i + 1), lex(s, i + 1, end))
        } else {
            None
        }
    }
}

pub fn is_ident_start(c: char) -> (r: bool)
    ensures
        r == is_ident_start_spec(c),
{
    ('a' <= c && c <= 'z') || ('A' <= c && c <= 'Z') || c == '_'
}

pub fn is_digit(c: char) -> (r: bool)
    ensures
        r == is_digit_spec(c),
{
    '0' <= c && c <= '9'
}

pub fn is_ident_char(c: char) -> (r: bool)
    ensures
        r == is_ident_char_spec(c),
{
    is_ident_start(c) || is_digit(c)
}

pub fn is_space(c: char) -> (r: bool)
    ensures
        r == is_space_spec(c),
{
    c == ' ' || c == '\t' || c == '\r'
}

/// The end of the identifier that starts at `start`.
pub fn scan_ident(line: &Vec<char>, start: usize) -> (end: usize)
    requires
        start <= line.len(),
    ensures
        end == ident_run(line@, start as int, line.len() as int),
        start <= end <= line.len(),
{
    let mut end = start;
    while end < line.len() && is_ident_char(line[end])
        invariant
            start <= end <= line.len(),
            ident_run(line@, end as int, line.len() as int) == ident_run(line@, start as int, line.len() as int),
        decreases line.len() - end,
    {
        end = end + 1;
    }
    end
}

/// The value of the digits `line[start..end]`, or `None` when it does not
/// fit in an `i64`.
fn digits_value(line: &Vec<char>, start: usize, end: usize) -> (r: Option<i64>)
    requires
        start <= end <= line.len(),
    ensures
        match r {
            Some(v) => v == digits_number(line@.subrange(start as int, end as int)),
            None => digits_number(line@.subrange(start as int, end as int)) > i64::MAX,
        },
{
    let mut value: i64 = 0;
    let mut i = start;
    let ghost whole = line@.subrange(start as int, end as int);
    assert(line@.subrange(start as int, start as int) =~= Seq::<char>::empty());
    while i < end
        invariant
            start <= i <= end <= line.len(),
            value >= 0,
            whole == line@.subrange(start as int, end as int),
            value == digits_number(line@.subrange(start as int, i as int)),
        decreases end - i,
    {
        let ghost before = line@.subrange(start as int, i as int);
        let ghost after = line@.subrange(start as int, i + 1);
        assert(after.drop_last() =~= before);
        assert(after.last() == line@[i as int]);
        let c = line[i];
        let digit: i64 = if c == '0' { 0 } else if c == '1' { 1 } else if c == '2' { 2 } else if c
            == '3' { 3 } else if c == '4' { 4 } else if c == '5' { 5 } else if c == '6' { 6 } else if c
            == '7' { 7 } else if c == '8' { 8 } else { 9 };
        assert(digit == digit_value(line@[i as int]));
        assert(0 <= digit <= 9);
        if value > (i64::MAX - digit) / 10 {
            proof {
                let m: int = i64::MAX as int;
                let d: int = digit as int;
                let v: int = value as int;
                assert(v * 10 + d > m) by (nonlinear_arith)
                    requires v > (m - d) / 10, 0 <= d <= 9, m > 100;
                assert(whole.subrange(0, i + 1 - start) =~= after);
                lemma_digits_number_grows(whole, i + 1 - start);
            }
            return None;
        }
        proof {
            let m: int = i64::MAX as int;
            let d: int = digit as int;
            let v: int = value as int;
            assert(v * 10 + d <= m) by (nonlinear_arith)
                requires v <= (m - d) / 10, 0 <= d <= 9, m > 100, v >= 0;
        }
        value = value * 10 + digit;
        i = i + 1;
    }
    Some(value)
}

fn one_symbol(c: char) -> (r: Option<Symbol>)
    ensures
        r == one_char_symbol(c),
{
    if c == '(' {
        Some(Symbol::LParen)
    } else if c == ')' {
        Some(Symbol::RParen)
    } else if c == '[' {
        Some(Symbol::LBracket)
    } else if c == ']' {
        Some(Symbol::RBracket)
    } else if c == '{' {
        Some(Symbol::LBrace)
    } else if c == '}' {
        Some(Symbol::RBrace)
    } else if c == ',' {
        Some(Symbol::Comma)
    } else if c == ':' {
        Some(Symbol::Colon)
    } else if c == '.' {
        Some(Symbol::Dot)
    } else if c == '+' {
        Some(Symbol::Plus)
    } else if c == '-' {
        Some(Symbol::Minus)
    } else if c == '*' {
        Some(Symbol::Star)
    } else if c == '/' {
        Some(Symbol::Slash)
    } else if c == '%' {
        Some(Symbol::Percent)
    } else if c == '<' {
        Some(Symbol::Less)
    } else if c == '>' {
        Some(Symbol::Greater)
    } else if c == '!' {
        Some(Symbol::Bang)
    } else if c == '=' {
        Some(Symbol::Assign)
    } else if c == '?' {
        Some(Symbol::Question)
    } else if c == '#' {
        Some(Symbol::Hash)
    } else {
        None
    }
}

fn two_symbol(a: char, b: char) -> (r: Option<Symbol>)
    ensures
        r == two_char_symbol(a, b),
{
    if a == ':' && b == ':' {
        Some(Symbol::DoubleColon)
    } else if a == '=' && b == '=' {
        Some(Symbol::EqEq)
    } else if a == '!' && b == '=' {
        Some(Symbol::NotEq)
    } else if a == '!' && b == '?' {
        Some(Symbol::BangQuestion)
    } else if a == '<' && b == '=' {
        Some(Symbol::LessEq)
    } else if a == '>' && b == '=' {
        Some(Symbol::GreaterEq)
    } else if a == '&' && b == '&' {
        Some(Symbol::AndAnd)
    } else if a == '|' && b == '|' {
        Some(Symbol::OrOr)
    } else if a == '-' && b == '>' {
        Some(Symbol::Arrow)
    } else if a == '=' && b == '>' {
        Some(Symbol::FatArrow)
    } else if a == '+' && b == '=' {
        Some(Symbol::PlusAssign)
    } else if a == '-' && b == '=' {
        Some(Symbol::MinusAssign)
    } else if a == '+' && b == '+' {
        Some(Symbol::PlusPlus)
    } else if a == '-' && b == '-' {
        Some(Symbol::MinusMinus)
    } else {
        None
    }
}

/// The tokens of `line[start..end]`, or `None` when a character cannot
/// start a token. Columns are 1-based positions in `line`.
pub fn tokenize(line: &Vec<char>, start: usize, end: usize) -> (r: Option<Vec<Token>>)
    requires
        start <= end <= line.len(),
    ensures
        match r {
            Some(ts) => lex(line@, start as int, end as int) == Some(tokens_view(ts@)),
            None => lex(line@, start as int, end as int) is None,
        },
{
    let mut tokens: Vec<Token> = Vec::new();
    let mut i = start;
    let ghost s = line@;
    assert(tokens_view(tokens@) =~= Seq::empty());
    assert(lex(s, start as int, end as int) == after_tokens(tokens_view(tokens@), lex(s, i as int, end as int)));
    while i < end
        invariant
            start <= i <= end <= line.len(),
            s == line@,
            lex(s, start as int, end as int) == after_tokens(tokens_view(tokens@), lex(s, i as int, end as int)),
        decreases end - i,
    {
        let c = line[i];
        let column = i + 1;
        if is_space(c) {
            i = i + 1;
        } else if is_ident_start(c) {
            let mut j = i;
            while j < end && is_ident_char(line[j])
                invariant
                    i <= j <= end,
                    end <= line.len(),
                    s == line@,
                    ident_run(s, j as int, end as int) == ident_run(s, i as int, end as int),
                decreases end - j,
            {
                j = j + 1;
            }
            proof {
                lemma_ident_run(s, i as int, end as int);
            }
            if j == i {
                return None;
            }
            let t = Token { kind: TokenKind::Ident(string_from_chars(line, i, j)), column };
            proof {
                lemma_push_token(tokens@, t, lex(s, j as int, end as int));
            }
            tokens.push(t);
            i = j;
        } else if is_digit(c) {
            let mut j = i;
            while j < end && is_digit(line[j])
                invariant
                    i <= j <= end,
                    end <= line.len(),
                    s == line@,
                    digit_run(s, j as int, end as int) == digit_run(s, i as int, end as int),
                decreases end - j,
            {
                j = j + 1;
            }
            proof {
                lemma_digit_run(s, i as int, end as int);
            }
            if j < end && j + 1 < end && line[j] == '.' && is_digit(line[j + 1]) {
                let mut k = j + 1;
                while k < end && is_digit(line[k])
                    invariant
                        j < k <= end,
                        end <= line.len(),
                        s == line@,
                        digit_run(s, k as int, end as int) == digit_run(s, j + 1, end as int),
                    decreases end - k,
                {
                    k = k + 1;
                }
                proof {
                    lemma_digit_run(s, j + 1, end as int);
                }
                let t = Token { kind: TokenKind::Float(string_from_chars(line, i, k)), column };
                proof {
                    lemma_push_token(tokens@, t, lex(s, k as int, end as int));
                }
                tokens.push(t);
                i = k;
            } else {
                match digits_value(line, i, j) {
                    Some(v) => {
                        let t = Token { kind: TokenKind::Int(v), column };
                        proof {
                            lemma_push_token(tokens@, t, lex(s, j as int, end as int));
                        }
                        tokens.push(t)
                    },
                    None => {
                        return None;
                    },
                }
                if j == i {
                    return None;
                }
                i = j;
            }
        } else if c == '"' {
            let mut j = i + 1;
            while j < end && line[j] != '"'
                invariant
                    i < j <= end,
                    end <= line.len(),
                    s == line@,
                    quote_run(s, j as int, end as int) == quote_run(s, i + 1, end as int),
                decreases end - j,
            {
                j = j + 1;
            }
            if j >= end {
                return None;
            }
            let t = Token { kind: TokenKind::Str(string_from_chars(line, i + 1, j)), column };
            proof {
                lemma_push_token(tokens@, t, lex(s, j + 1, end as int));
            }
            tokens.push(t);
            i = j + 1;
        } else {
            let two = if i + 1 < end {
                two_symbol(c, line[i + 1])
            } else {
                None
            };
            match two {
                Some(sym) => {
                    let t = Token { kind: TokenKind::Sym(sym), column };
                    proof {
                        lemma_push_token(tokens@, t, lex(s, i + 2, end as int));
                    }
                    tokens.push(t);
                    i = i + 2;
                },
                None => match one_symbol(c) {
                    Some(sym) => {
                        let t = Token { kind: TokenKind::Sym(sym), column };
                        proof {
                            lemma_push_token(tokens@, t, lex(s, i + 1, end as int));
                        }
                        tokens.push(t);
                        i = i + 1;
                    },
                    None => {
                        return None;
                    },
                },
            }
        }
    }
    assert(tokens_view(tokens@) + Seq::<(TokenView, int)>::empty() =~= tokens_view(tokens@));
    Some(tokens)
}

} // verus!
