//! Expressions and type names, parsed from the tokens of one line.
use vstd::prelude::*;

use crate::parsed::{
    entries_view, expr_view, exprs_view, fields_view, BinaryOperator, DictKey, DictKeyType, DictLiteralEntry, ExprView, Expression, KeyView, PrimitiveType, QualifiedName, StructLiteralField, TypeName, TypeView,
    UnaryOperator,
};
use crate::parser::lexer::{kind_view, tokens_view, Symbol, Token, TokenKind, TokenView};
use crate::source::SourceSpan;
use crate::text::{owned, str_eq};

verus! {

/// The file and line that the tokens come from.
pub struct LineContext {
    pub source_filename: Option<String>,
    pub line: usize,
}

/// The place of column `column` on the line of `ctx`.
pub open spec fn at_column(ctx: LineContext, column: usize) -> SourceSpan {
    SourceSpan { source_filename: ctx.source_filename, line: ctx.line, column }
}

/// The identifiers among tokens `from..to` of `v`, in order, each with its
/// place on the line of `ctx`.
pub open spec fn ident_items(v: Seq<(TokenView, int)>, from: int, to: int, ctx: LineContext) -> Seq<(Seq<char>, SourceSpan)>
    decreases to - from,
{
    if to <= from {
        Seq::empty()
    } else {
        ident_items(v, from, to - 1, ctx) + match ident_of(v, to - 1) {
            Some(n) => seq![(n, at_column(ctx, column_of(v, to - 1) as usize))],
            None => Seq::empty(),
        }
    }
}

impl LineContext {
    pub fn span_at(&self, column: usize) -> (r: SourceSpan)
        ensures
            r == at_column(*self, column),
            r.source_filename == self.source_filename,
            r.line == self.line,
            r.column == column,
    {
        let source_filename = match &self.source_filename {
            Some(name) => Some(name.clone()),
            None => None,
        };
        SourceSpan::new(source_filename, self.line, column)
    }
}

/// Whether token `pos` of `ts` is the symbol `s`.
pub open spec fn sym_at(ts: Seq<(TokenView, int)>, pos: int, s: Symbol) -> bool {
    0 <= pos < ts.len() && ts[pos].0 == TokenView::Sym(s)
}

/// The name of the identifier at token `pos` of `ts`, if it is one.
pub open spec fn ident_of(ts: Seq<(TokenView, int)>, pos: int) -> Option<Seq<char>> {
    if 0 <= pos < ts.len() {
        match ts[pos].0 {
            TokenView::Ident(name) => Some(name),
            _ => None,
        }
    } else {
        None
    }
}

pub open spec fn opt_text(o: Option<String>) -> Option<Seq<char>> {
    match o {
        Some(s) => Some(s@),
        None => None,
    }
}

/// Whether token `pos` is the symbol `s`.
pub fn is_sym(tokens: &Vec<Token>, pos: usize, s: Symbol) -> (r: bool)
    ensures
        r == sym_at(tokens_view(tokens@), pos as int, s),
        r ==> pos < tokens.len(),
{
    if pos < tokens.len() {
        match &tokens[pos].kind {
            TokenKind::Sym(t) => *t == s,
            _ => false,
        }
    } else {
        false
    }
}

/// Whether token `pos` is the identifier `word`.
pub fn is_word(tokens: &Vec<Token>, pos: usize, word: &str) -> (r: bool)
    ensures
        r == (ident_of(tokens_view(tokens@), pos as int) == Some(word@)),
        r ==> pos < tokens.len(),
{
    if pos < tokens.len() {
        match &tokens[pos].kind {
            TokenKind::Ident(name) => str_eq(name.as_str(), word),
            _ => false,
        }
    } else {
        false
    }
}

/// The identifier at token `pos`.
pub fn ident_at(tokens: &Vec<Token>, pos: usize) -> (r: Option<String>)
    ensures
        opt_text(r) == ident_of(tokens_view(tokens@), pos as int),
        r is Some ==> pos < tokens.len(),
{
    if pos < tokens.len() {
        match &tokens[pos].kind {
            TokenKind::Ident(name) => Some(name.clone()),
            _ => None,
        }
    } else {
        None
    }
}

/// The column of token `pos` of `v`, or 1 past its end.
pub open spec fn column_of(v: Seq<(TokenView, int)>, pos: int) -> int {
    if 0 <= pos < v.len() {
        v[pos].1
    } else {
        1
    }
}

pub fn column_at(tokens: &Vec<Token>, pos: usize) -> (r: usize)
    ensures
        r as int == column_of(tokens_view(tokens@), pos as int),
{
    if pos < tokens.len() {
        tokens[pos].column
    } else {
        1
    }
}

/// The binary operator that the token `k` writes at precedence `level`
/// (1 = multiplicative ... 6 = or), if any.
pub open spec fn binary_operator_of(k: TokenView, level: int) -> Option<BinaryOperator> {
    match k {
        TokenView::Sym(s) => {
            if level == 1 {
                if s == Symbol::Star { Some(BinaryOperator::Multiply) }
                else if s == Symbol::Slash { Some(BinaryOperator::Divide) }
                else if s == Symbol::Percent { Some(BinaryOperator::Modulo) }
                else { None }
            } else if level == 2 {
                if s == Symbol::Plus { Some(BinaryOperator::Add) }
                else if s == Symbol::Minus { Some(BinaryOperator::Subtract) }
                else { None }
            } else if level == 3 {
                if s == Symbol::Less { Some(BinaryOperator::LessThan) }
                else if s == Symbol::Greater { Some(BinaryOperator::GreaterThan) }
                else if s == Symbol::LessEq { Some(BinaryOperator::LessThanOrEquals) }
                else if s == Symbol::GreaterEq { Some(BinaryOperator::GreaterThanOrEquals) }
                else if s == Symbol::Question { Some(BinaryOperator::Has) }
                else if s == Symbol::BangQuestion { Some(BinaryOperator::Hasnt) }
                else { None }
            } else if level == 4 {
                if s == Symbol::EqEq { Some(BinaryOperator::Equals) }
                else if s == Symbol::NotEq { Some(BinaryOperator::NotEquals) }
                else { None }
            } else if level == 5 {
                if s == Symbol::AndAnd { Some(BinaryOperator::AndSymbol) } else { None }
            } else if level == 6 {
                if s == Symbol::OrOr { Some(BinaryOperator::OrSymbol) } else { None }
            } else {
                None
            }
        },
        TokenView::Ident(name) => {
            if level == 5 && name == "and"@ {
                Some(BinaryOperator::And)
            } else if level == 6 && name == "or"@ {
                Some(BinaryOperator::Or)
            } else if level == 3 && name == "has"@ {
                Some(BinaryOperator::Has)
            } else if level == 3 && name == "hasnt"@ {
                Some(BinaryOperator::Hasnt)
            } else {
                None
            }
        },
        _ => None,
    }
}

/// The binary operator at token `pos` when it belongs to precedence
/// `level` (1 = multiplicative ... 6 = or).
fn binary_operator_at(tokens: &Vec<Token>, pos: usize, level: usize) -> (r: Option<BinaryOperator>)
    ensures
        r == (if pos < tokens.len() {
            binary_operator_of(kind_view(tokens@[pos as int].kind), level as int)
        } else {
            None
        }),
        r is Some ==> pos < tokens.len(),
{
    if pos >= tokens.len() {
        return None;
    }
    match &tokens[pos].kind {
        TokenKind::Sym(s) => {
            let s = *s;
            if level == 1 {
                if s == Symbol::Star {
                    Some(BinaryOperator::Multiply)
                } else if s == Symbol::Slash {
                    Some(BinaryOperator::Divide)
                } else if s == Symbol::Percent {
                    Some(BinaryOperator::Modulo)
                } else {
                    None
                }
            } else if level == 2 {
                if s == Symbol::Plus {
                    Some(BinaryOperator::Add)
                } else if s == Symbol::Minus {
                    Some(BinaryOperator::Subtract)
                } else {
                    None
                }
            } else if level == 3 {
                if s == Symbol::Less {
                    Some(BinaryOperator::LessThan)
                } else if s == Symbol::Greater {
                    Some(BinaryOperator::GreaterThan)
                } else if s == Symbol::LessEq {
                    Some(BinaryOperator::LessThanOrEquals)
                } else if s == Symbol::GreaterEq {
                    Some(BinaryOperator::GreaterThanOrEquals)
                } else if s == Symbol::Question {
                    Some(BinaryOperator::Has)
                } else if s == Symbol::BangQuestion {
                    Some(BinaryOperator::Hasnt)
                } else {
                    None
                }
            } else if level == 4 {
                if s == Symbol::EqEq {
                    Some(BinaryOperator::Equals)
                } else if s == Symbol::NotEq {
                    Some(BinaryOperator::NotEquals)
                } else {
                    None
                }
            } else if level == 5 {
                if s == Symbol::AndAnd {
                    Some(BinaryOperator::AndSymbol)
                } else {
                    None
                }
            } else if level == 6 {
                if s == Symbol::OrOr {
                    Some(BinaryOperator::OrSymbol)
                } else {
                    None
                }
            } else {
                None
            }
        },
        TokenKind::Ident(name) => {
            if level == 5 && str_eq(name.as_str(), "and") {
                Some(BinaryOperator::And)
            } else if level == 6 && str_eq(name.as_str(), "or") {
                Some(BinaryOperator::Or)
            } else if level == 3 && str_eq(name.as_str(), "has") {
                Some(BinaryOperator::Has)
            } else if level == 3 && str_eq(name.as_str(), "hasnt") {
                Some(BinaryOperator::Hasnt)
            } else {
                None
            }
        },
        _ => None,
    }
}

/// `next < after <= len`: a parse that went forward within the tokens.
pub open spec fn step_ok(next: int, after: int, len: int) -> bool {
    next < after <= len
}

pub open spec fn opt_expr(r: Option<(Expression, usize)>) -> Option<(ExprView, int)> {
    match r {
        Some((e, n)) => Some((expr_view(e), n as int)),
        None => None,
    }
}

/// Whether the token at `p` opens a `Dict` literal entry: a string or
/// integer key followed by `:`.
pub open spec fn starts_entry(v: Seq<(TokenView, int)>, p: int) -> bool {
    0 <= p < v.len() && sym_at(v, p + 1, Symbol::Colon) && (v[p].0 is Str || v[p].0 is Int)
}

/// The expression written from token `pos` of `v`, with the position after
/// it: binary operators by precedence (`*` `/` `%`, then `+` `-`, then
/// comparisons, then `==` `!=`, then `&&` `and`, then `||` `or`), each
/// grouping to the left.
pub open spec fn p_expr(v: Seq<(TokenView, int)>, pos: int, ctx: LineContext) -> Option<(ExprView, int)>
    decreases v.len() - pos, 10int,
{
    if 0 <= pos <= v.len() {
        p_binary(v, pos, 6, ctx)
    } else {
        None
    }
}

/// The operands and operators of precedence `level` and tighter from `pos`.
pub open spec fn p_binary(v: Seq<(TokenView, int)>, pos: int, level: nat, ctx: LineContext) -> Option<(ExprView, int)>
    decreases v.len() - pos, level + 3,
{
    if !(0 <= pos <= v.len()) || level > 6 {
        None
    } else if level == 0 {
        p_unary(v, pos, ctx)
    } else {
        match p_binary(v, pos, (level - 1) as nat, ctx) {
            None => None,
            Some((l, n)) => if step_ok(pos, n, v.len() as int) {
                binary_tail(v, l, n, level, ctx)
            } else {
                None
            },
        }
    }
}

/// `left` followed by the operators of precedence `level` from `next`.
pub open spec fn binary_tail(v: Seq<(TokenView, int)>, left: ExprView, next: int, level: nat, ctx: LineContext) -> Option<(ExprView, int)>
    decreases v.len() - next, 0int,
{
    if 0 <= next < v.len() && 1 <= level <= 6 && binary_operator_of(v[next].0, level as int) is Some {
        let op = binary_operator_of(v[next].0, level as int)->0;
        match p_binary(v, next + 1, (level - 1) as nat, ctx) {
            None => None,
            Some((r, after)) => if step_ok(next + 1, after, v.len() as int) {
                binary_tail(v, ExprView::Binary(op, Box::new(left), Box::new(r)), after, level, ctx)
            } else {
                None
            },
        }
    } else {
        Some((left, next))
    }
}

/// `!`, `not` and `-` in front of a postfix expression.
pub open spec fn p_unary(v: Seq<(TokenView, int)>, pos: int, ctx: LineContext) -> Option<(ExprView, int)>
    decreases v.len() - pos, 2int,
{
    if !(0 <= pos <= v.len()) {
        None
    } else {
        let op = if sym_at(v, pos, Symbol::Bang) || ident_of(v, pos) == Some("not"@) {
            Some(UnaryOperator::Not)
        } else if sym_at(v, pos, Symbol::Minus) {
            Some(UnaryOperator::Negate)
        } else {
            None
        };
        match op {
            Some(o) => match p_unary(v, pos + 1, ctx) {
                Some((e, n)) => Some((ExprView::Unary(o, Box::new(e)), n)),
                None => None,
            },
            None => p_postfix(v, pos, ctx),
        }
    }
}

/// A primary expression followed by `.field` and `[index]` parts.
pub open spec fn p_postfix(v: Seq<(TokenView, int)>, pos: int, ctx: LineContext) -> Option<(ExprView, int)>
    decreases v.len() - pos, 1int,
{
    if !(0 <= pos <= v.len()) {
        None
    } else {
        match p_primary(v, pos, ctx) {
            None => None,
            Some((b, n)) => if step_ok(pos, n, v.len() as int) {
                postfix_tail(v, b, n, ctx)
            } else {
                None
            },
        }
    }
}

/// `base` followed by the `.field` and `[index]` parts from `next`.
pub open spec fn postfix_tail(v: Seq<(TokenView, int)>, base: ExprView, next: int, ctx: LineContext) -> Option<(ExprView, int)>
    decreases v.len() - next, 0int,
{
    if 0 <= next < v.len() && sym_at(v, next, Symbol::Dot) {
        match ident_of(v, next + 1) {
            Some(f) => postfix_tail(v, ExprView::FieldAccess(Box::new(base), f), next + 2, ctx),
            None => None,
        }
    } else if 0 <= next < v.len() && sym_at(v, next, Symbol::LBracket) {
        match p_expr(v, next + 1, ctx) {
            None => None,
            Some((i, after)) => if !sym_at(v, after, Symbol::RBracket) {
                None
            } else if step_ok(next + 1, after, v.len() as int) {
                postfix_tail(v, ExprView::IndexAccess(Box::new(base), Box::new(i)), after + 1, ctx)
            } else {
                None
            },
        }
    } else {
        Some((base, next))
    }
}

/// Comma-separated expressions from `pos` up to the symbol `close`, with the
/// position after `close`.
pub open spec fn p_list(v: Seq<(TokenView, int)>, pos: int, close: Symbol, ctx: LineContext) -> Option<(Seq<ExprView>, int)>
    decreases v.len() - pos, 12int,
{
    if !(0 <= pos <= v.len()) {
        None
    } else if sym_at(v, pos, close) {
        Some((Seq::empty(), pos + 1))
    } else {
        list_items(v, pos, close, Seq::empty(), ctx)
    }
}

/// The items `acc` followed by those from `next` up to `close`.
pub open spec fn list_items(v: Seq<(TokenView, int)>, next: int, close: Symbol, acc: Seq<ExprView>, ctx: LineContext) -> Option<(Seq<ExprView>, int)>
    decreases v.len() - next, 11int,
{
    if !(0 <= next <= v.len()) {
        None
    } else {
        match p_expr(v, next, ctx) {
            None => None,
            Some((item, after)) => if sym_at(v, after, Symbol::Comma) {
                if step_ok(next, after, v.len() as int) {
                    list_items(v, after + 1, close, acc.push(item), ctx)
                } else {
                    None
                }
            } else if sym_at(v, after, close) {
                Some((acc.push(item), after + 1))
            } else {
                None
            },
        }
    }
}

/// The entries `acc` followed by the `key: value` entries from `next` up to
/// `}`.
pub open spec fn dict_items(v: Seq<(TokenView, int)>, next: int, acc: Seq<(KeyView, ExprView)>, ctx: LineContext) -> Option<(Seq<(KeyView, ExprView)>, int)>
    decreases v.len() - next, 11int,
{
    if !(0 <= next < v.len()) {
        None
    } else {
        let key = match v[next].0 {
            TokenView::Str(t) => Some(KeyView::String(t)),
            TokenView::Int(n) => Some(KeyView::Int(n)),
            _ => None,
        };
        match key {
            None => None,
            Some(k) => if !sym_at(v, next + 1, Symbol::Colon) {
                None
            } else {
                match p_expr(v, next + 2, ctx) {
                    None => None,
                    Some((value, after)) => if sym_at(v, after, Symbol::Comma) {
                        if step_ok(next, after, v.len() as int) {
                            dict_items(v, after + 1, acc.push((k, value)), ctx)
                        } else {
                            None
                        }
                    } else if sym_at(v, after, Symbol::RBrace) {
                        Some((acc.push((k, value)), after + 1))
                    } else {
                        None
                    },
                }
            },
        }
    }
}

/// `name: value` fields from `pos` up to `}`, with the position after it.
pub open spec fn p_struct(v: Seq<(TokenView, int)>, pos: int, ctx: LineContext) -> Option<(Seq<(Seq<char>, ExprView)>, int)>
    decreases v.len() - pos, 12int,
{
    if !(0 <= pos <= v.len()) {
        None
    } else if sym_at(v, pos, Symbol::RBrace) {
        Some((Seq::empty(), pos + 1))
    } else {
        struct_items(v, pos, Seq::empty(), ctx)
    }
}

/// The fields `acc` followed by those from `next` up to `}`.
pub open spec fn struct_items(v: Seq<(TokenView, int)>, next: int, acc: Seq<(Seq<char>, ExprView)>, ctx: LineContext) -> Option<(Seq<(Seq<char>, ExprView)>, int)>
    decreases v.len() - next, 11int,
{
    if !(0 <= next <= v.len()) {
        None
    } else {
        match ident_of(v, next) {
            None => None,
            Some(name) => if !sym_at(v, next + 1, Symbol::Colon) {
                None
            } else {
                match p_expr(v, next + 2, ctx) {
                    None => None,
                    Some((e, after)) => if sym_at(v, after, Symbol::Comma) {
                        if step_ok(next, after, v.len() as int) {
                            struct_items(v, after + 1, acc.push((name, e)), ctx)
                        } else {
                            None
                        }
                    } else if sym_at(v, after, Symbol::RBrace) {
                        Some((acc.push((name, e)), after + 1))
                    } else {
                        None
                    },
                }
            },
        }
    }
}

/// A literal, a name, a call, a parenthesised expression, an array, `Dict`
/// or struct literal, or a divert target, at token `pos`.
pub open spec fn p_primary(v: Seq<(TokenView, int)>, pos: int, ctx: LineContext) -> Option<(ExprView, int)>
    decreases v.len() - pos, 0int,
{
    if !(0 <= pos < v.len()) {
        None
    } else {
        let col = at_column(ctx, v[pos].1 as usize);
        match v[pos].0 {
            TokenView::Int(n) => Some((ExprView::NumberInt(n), pos + 1)),
            TokenView::Float(t) => Some((ExprView::NumberFloat(t), pos + 1)),
            TokenView::Str(t) => Some((ExprView::String(t), pos + 1)),
            TokenView::Ident(name) => if name == "true"@ {
                Some((ExprView::NumberBool(true), pos + 1))
            } else if name == "false"@ {
                Some((ExprView::NumberBool(false), pos + 1))
            } else if sym_at(v, pos + 1, Symbol::DoubleColon) {
                match ident_of(v, pos + 2) {
                    None => None,
                    Some(symbol) => if sym_at(v, pos + 3, Symbol::LParen) {
                        match p_list(v, pos + 4, Symbol::RParen, ctx) {
                            Some((args, n)) => Some((ExprView::QualifiedFunctionCall(name, symbol, col, args), n)),
                            None => None,
                        }
                    } else {
                        Some((ExprView::QualifiedReference(name, symbol, col), pos + 3))
                    },
                }
            } else if sym_at(v, pos + 1, Symbol::LParen) {
                match p_list(v, pos + 2, Symbol::RParen, ctx) {
                    Some((args, n)) => Some((ExprView::FunctionCall(name, args), n)),
                    None => None,
                }
            } else {
                Some((ExprView::VariableReference(name), pos + 1))
            },
            TokenView::Sym(s) => if s == Symbol::LParen {
                match p_expr(v, pos + 1, ctx) {
                    None => None,
                    Some((inner, after)) => if sym_at(v, after, Symbol::RParen) {
                        Some((inner, after + 1))
                    } else {
                        None
                    },
                }
            } else if s == Symbol::LBracket {
                match p_list(v, pos + 1, Symbol::RBracket, ctx) {
                    Some((items, n)) => Some((ExprView::ArrayLiteral(items), n)),
                    None => None,
                }
            } else if s == Symbol::LBrace && starts_entry(v, pos + 1) {
                match dict_items(v, pos + 1, Seq::empty(), ctx) {
                    Some((es, n)) => Some((ExprView::DictLiteral(es), n)),
                    None => None,
                }
            } else if s == Symbol::LBrace {
                match p_struct(v, pos + 1, ctx) {
                    Some((fs, n)) => Some((ExprView::StructLiteral(fs), n)),
                    None => None,
                }
            } else if s == Symbol::Percent && sym_at(v, pos + 1, Symbol::LBrace) {
                if sym_at(v, pos + 2, Symbol::RBrace) {
                    Some((ExprView::DictLiteral(Seq::empty()), pos + 3))
                } else {
                    match dict_items(v, pos + 2, Seq::empty(), ctx) {
                        Some((es, n)) => Some((ExprView::DictLiteral(es), n)),
                        None => None,
                    }
                }
            } else if s == Symbol::Percent {
                match type_at(v, pos + 1) {
                    None => None,
                    Some((t, after)) => if !sym_at(v, after, Symbol::LBrace) || !(pos < after) {
                        None
                    } else {
                        match p_struct(v, after + 1, ctx) {
                            Some((fs, n)) => Some((ExprView::TypedStructLiteral(t, fs), n)),
                            None => None,
                        }
                    },
                }
            } else if s == Symbol::Arrow {
                match ident_of(v, pos + 1) {
                    None => None,
                    Some(first) => {
                        let (path, n) = path_rest(v, pos + 2, first);
                        Some((ExprView::DivertTarget(path), n))
                    },
                }
            } else {
                None
            },
        }
    }
}

/// An expression starting at token `pos`; on success also the position
/// just after it.
pub fn parse_expression(tokens: &Vec<Token>, pos: usize, ctx: &LineContext) -> (r: Option<
    (Expression, usize),
>)
    requires
        pos <= tokens.len(),
    ensures
        r matches Some((_, next)) ==> pos < next <= tokens.len(),
        opt_expr(r) == p_expr(tokens_view(tokens@), pos as int, *ctx),
    decreases tokens.len() - pos, 10usize,
{
    parse_binary(tokens, pos, 6, ctx)
}

fn parse_binary(tokens: &Vec<Token>, pos: usize, level: usize, ctx: &LineContext) -> (r: Option<
    (Expression, usize),
>)
    requires
        pos <= tokens.len(),
        level <= 6,
    ensures
        r matches Some((_, next)) ==> pos < next <= tokens.len(),
        opt_expr(r) == p_binary(tokens_view(tokens@), pos as int, level as nat, *ctx),
    decreases tokens.len() - pos, level + 3,
{
    if level == 0 {
        return parse_unary(tokens, pos, ctx);
    }
    let ghost v = tokens_view(tokens@);
    let (mut left, mut next) = match parse_binary(tokens, pos, level - 1, ctx) {
        Some(v) => v,
        None => {
            return None;
        },
    };
    while next < tokens.len()
        invariant
            pos < next <= tokens.len(),
            1 <= level <= 6,
            v == tokens_view(tokens@),
            p_binary(v, pos as int, level as nat, *ctx) == binary_tail(v, expr_view(left), next as int, level as nat, *ctx),
        ensures
            pos < next <= tokens.len(),
            p_binary(v, pos as int, level as nat, *ctx) == binary_tail(v, expr_view(left), next as int, level as nat, *ctx),
            binary_tail(v, expr_view(left), next as int, level as nat, *ctx) == Some((expr_view(left), next as int)),
        decreases tokens.len() - next,
    {
        let operator = match binary_operator_at(tokens, next, level) {
            Some(op) => op,
            None => {
                break;
            },
        };
        let (right, after) = match parse_binary(tokens, next + 1, level - 1, ctx) {
            Some(v) => v,
            None => {
                return None;
            },
        };
        left = Expression::Binary { operator, left: Box::new(left), right: Box::new(right) };
        next = after;
    }
    Some((left, next))
}

fn parse_unary(tokens: &Vec<Token>, pos: usize, ctx: &LineContext) -> (r: Option<(Expression, usize)>)
    requires
        pos <= tokens.len(),
    ensures
        r matches Some((_, next)) ==> pos < next <= tokens.len(),
        opt_expr(r) == p_unary(tokens_view(tokens@), pos as int, *ctx),
    decreases tokens.len() - pos, 2usize,
{
    let operator = if is_sym(tokens, pos, Symbol::Bang) || is_word(tokens, pos, "not") {
        Some(UnaryOperator::Not)
    } else if is_sym(tokens, pos, Symbol::Minus) {
        Some(UnaryOperator::Negate)
    } else {
        None
    };
    match operator {
        Some(operator) => match parse_unary(tokens, pos + 1, ctx) {
            Some((expression, next)) => Some(
                (Expression::Unary { operator, expression: Box::new(expression) }, next),
            ),
            None => None,
        },
        None => parse_postfix(tokens, pos, ctx),
    }
}

fn parse_postfix(tokens: &Vec<Token>, pos: usize, ctx: &LineContext) -> (r: Option<
    (Expression, usize),
>)
    requires
        pos <= tokens.len(),
    ensures
        r matches Some((_, next)) ==> pos < next <= tokens.len(),
        opt_expr(r) == p_postfix(tokens_view(tokens@), pos as int, *ctx),
    decreases tokens.len() - pos, 1usize,
{
    let ghost v = tokens_view(tokens@);
    let (mut base, mut next) = match parse_primary(tokens, pos, ctx) {
        Some(v) => v,
        None => {
            return None;
        },
    };
    while next < tokens.len()
        invariant
            pos < next <= tokens.len(),
            v == tokens_view(tokens@),
            p_postfix(v, pos as int, *ctx) == postfix_tail(v, expr_view(base), next as int, *ctx),
        ensures
            pos < next <= tokens.len(),
            p_postfix(v, pos as int, *ctx) == postfix_tail(v, expr_view(base), next as int, *ctx),
            postfix_tail(v, expr_view(base), next as int, *ctx) == Some((expr_view(base), next as int)),
        decreases tokens.len() - next,
    {
        if is_sym(tokens, next, Symbol::Dot) {
            match ident_at(tokens, next + 1) {
                Some(field) => {
                    base = Expression::FieldAccess { base: Box::new(base), field };
                    next = next + 2;
                },
                None => {
                    return None;
                },
            }
        } else if is_sym(tokens, next, Symbol::LBracket) {
            let (index, after) = match parse_expression(tokens, next + 1, ctx) {
                Some(v) => v,
                None => {
                    return None;
                },
            };
            if !is_sym(tokens, after, Symbol::RBracket) {
                return None;
            }
            base = Expression::IndexAccess { base: Box::new(base), index: Box::new(index) };
            next = after + 1;
        } else {
            break;
        }
    }
    Some((base, next))
}

/// Comma-separated expressions from `pos` up to the closing symbol `close`;
/// the position returned is just after `close`.
fn parse_expression_list(tokens: &Vec<Token>, pos: usize, close: Symbol, ctx: &LineContext) -> (r:
    Option<(Vec<Expression>, usize)>)
    requires
        0 < pos <= tokens.len(),
    ensures
        r matches Some((_, next)) ==> pos < next <= tokens.len(),
        match r {
            Some((es, n)) => p_list(tokens_view(tokens@), pos as int, close, *ctx) == Some((exprs_view(es@), n as int)),
            None => p_list(tokens_view(tokens@), pos as int, close, *ctx) is None,
        },
    decreases tokens.len() - pos, 11usize,
{
    let ghost v = tokens_view(tokens@);
    let mut items: Vec<Expression> = Vec::new();
    let mut next = pos;
    if is_sym(tokens, next, close) {
        assert(exprs_view(items@) =~= Seq::empty());
        return Some((items, next + 1));
    }
    assert(exprs_view(items@) =~= Seq::empty());
    loop
        invariant
            pos <= next <= tokens.len(),
            v == tokens_view(tokens@),
            p_list(v, pos as int, close, *ctx) == list_items(v, next as int, close, exprs_view(items@), *ctx),
        decreases tokens.len() - next,
    {
        let (item, after) = match parse_expression(tokens, next, ctx) {
            Some(v) => v,
            None => {
                return None;
            },
        };
        let ghost before = items@;
        items.push(item);
        assert(items@.drop_last() =~= before);
        if is_sym(tokens, after, Symbol::Comma) {
            next = after + 1;
        } else if is_sym(tokens, after, close) {
            return Some((items, after + 1));
        } else {
            return None;
        }
    }
}

/// `{ key: value, ... }` with string or integer keys, whose `{` stands
/// just before `pos`.
fn parse_dict_literal(tokens: &Vec<Token>, pos: usize, ctx: &LineContext) -> (r: Option<
    (Vec<DictLiteralEntry>, usize),
>)
    requires
        0 < pos <= tokens.len(),
    ensures
        r matches Some((_, next)) ==> pos < next <= tokens.len(),
        match r {
            Some((es, n)) => dict_items(tokens_view(tokens@), pos as int, Seq::empty(), *ctx) == Some((entries_view(es@), n as int)),
            None => dict_items(tokens_view(tokens@), pos as int, Seq::empty(), *ctx) is None,
        },
    decreases tokens.len() - pos, 11usize,
{
    let ghost v = tokens_view(tokens@);
    let mut entries: Vec<DictLiteralEntry> = Vec::new();
    let mut next = pos;
    assert(entries_view(entries@) =~= Seq::empty());
    loop
        invariant
            pos <= next <= tokens.len(),
            v == tokens_view(tokens@),
            dict_items(v, pos as int, Seq::empty(), *ctx) == dict_items(v, next as int, entries_view(entries@), *ctx),
        decreases tokens.len() - next,
    {
        if next >= tokens.len() {
            return None;
        }
        let key = match &tokens[next].kind {
            TokenKind::Str(text) => DictKey::String(text.clone()),
            TokenKind::Int(n) => DictKey::Int(*n),
            _ => {
                return None;
            },
        };
        if !is_sym(tokens, next + 1, Symbol::Colon) {
            return None;
        }
        let (value, after) = match parse_expression(tokens, next + 2, ctx) {
            Some(v) => v,
            None => {
                return None;
            },
        };
        let ghost before = entries@;
        entries.push(DictLiteralEntry { key, value });
        assert(entries@.drop_last() =~= before);
        if is_sym(tokens, after, Symbol::Comma) {
            next = after + 1;
        } else if is_sym(tokens, after, Symbol::RBrace) {
            return Some((entries, after + 1));
        } else {
            return None;
        }
    }
}

/// Whether the token at `pos` opens a `Dict` literal entry: a string or
/// integer key followed by `:`.
fn starts_dict_entry(tokens: &Vec<Token>, pos: usize) -> (r: bool)
    ensures
        r == starts_entry(tokens_view(tokens@), pos as int),
        r == (pos < tokens.len() && sym_at(tokens_view(tokens@), pos + 1, Symbol::Colon) && (kind_view(
            tokens@[pos as int].kind,
        ) is Str || kind_view(tokens@[pos as int].kind) is Int)),
{
    if pos < tokens.len() && is_sym(tokens, pos + 1, Symbol::Colon) {
        match &tokens[pos].kind {
            TokenKind::Str(_) | TokenKind::Int(_) => true,
            _ => false,
        }
    } else {
        false
    }
}

/// `{ name: value, ... }` whose `{` stands just before `pos`.
fn parse_struct_literal(tokens: &Vec<Token>, pos: usize, ctx: &LineContext) -> (r: Option<
    (Vec<StructLiteralField>, usize),
>)
    requires
        0 < pos <= tokens.len(),
    ensures
        r matches Some((_, next)) ==> pos < next <= tokens.len(),
        match r {
            Some((fs, n)) => p_struct(tokens_view(tokens@), pos as int, *ctx) == Some((fields_view(fs@), n as int)),
            None => p_struct(tokens_view(tokens@), pos as int, *ctx) is None,
        },
    decreases tokens.len() - pos, 11usize,
{
    let ghost v = tokens_view(tokens@);
    let mut fields: Vec<StructLiteralField> = Vec::new();
    let mut next = pos;
    if is_sym(tokens, next, Symbol::RBrace) {
        assert(fields_view(fields@) =~= Seq::empty());
        return Some((fields, next + 1));
    }
    assert(fields_view(fields@) =~= Seq::empty());
    loop
        invariant
            pos <= next <= tokens.len(),
            v == tokens_view(tokens@),
            p_struct(v, pos as int, *ctx) == struct_items(v, next as int, fields_view(fields@), *ctx),
        decreases tokens.len() - next,
    {
        let name = match ident_at(tokens, next) {
            Some(name) => name,
            None => {
                return None;
            },
        };
        if !is_sym(tokens, next + 1, Symbol::Colon) {
            return None;
        }
        let (expression, after) = match parse_expression(tokens, next + 2, ctx) {
            Some(v) => v,
            None => {
                return None;
            },
        };
        let ghost before = fields@;
        fields.push(StructLiteralField { name, expression });
        assert(fields@.drop_last() =~= before);
        if is_sym(tokens, after, Symbol::Comma) {
            next = after + 1;
        } else if is_sym(tokens, after, Symbol::RBrace) {
            return Some((fields, after + 1));
        } else {
            return None;
        }
    }
}

/// The path `text` continued by each `.name` or `::name` from token `next`
/// on, with the position after the last one.
pub open spec fn path_rest(ts: Seq<(TokenView, int)>, next: int, text: Seq<char>) -> (Seq<char>, int)
    decreases ts.len() - next,
{
    if 0 <= next && next + 1 < ts.len() && (sym_at(ts, next, Symbol::Dot) || sym_at(ts, next, Symbol::DoubleColon))
        && ident_of(ts, next + 1) is Some {
        let separator = if sym_at(ts, next, Symbol::Dot) {
            "."@
        } else {
            "::"@
        };
        path_rest(ts, next + 2, text + separator + ident_of(ts, next + 1)->0)
    } else {
        (text, next)
    }
}

/// A divert path such as `knot`, `knot.stitch` or `module::knot` from token
/// `pos`, as text, with the position after it.
pub fn parse_path_text(tokens: &Vec<Token>, pos: usize) -> (r: Option<(String, usize)>)
    requires
        pos <= tokens.len(),
    ensures
        r is Some <==> ident_of(tokens_view(tokens@), pos as int) is Some,
        r matches Some((text, next)) ==> (text@, next as int) == path_rest(tokens_view(tokens@), pos + 1, ident_of(tokens_view(tokens@), pos as int)->0),
        r matches Some((_, next)) ==> pos < next <= tokens.len(),
{
    let mut text = match ident_at(tokens, pos) {
        Some(name) => name,
        None => {
            return None;
        },
    };
    let mut next = pos + 1;
    let ghost first = text@;
    while next < tokens.len() && next + 1 < tokens.len() && (is_sym(tokens, next, Symbol::Dot) || is_sym(
        tokens,
        next,
        Symbol::DoubleColon,
    ))
        invariant
            pos < next <= tokens.len(),
            path_rest(tokens_view(tokens@), next as int, text@) == path_rest(tokens_view(tokens@), pos + 1, first),
        ensures
            pos < next <= tokens.len(),
            path_rest(tokens_view(tokens@), next as int, text@) == path_rest(tokens_view(tokens@), pos + 1, first),
            path_rest(tokens_view(tokens@), next as int, text@) == (text@, next as int),
        decreases tokens.len() - next,
    {
        let separator = if is_sym(tokens, next, Symbol::Dot) {
            "."
        } else {
            "::"
        };
        match ident_at(tokens, next + 1) {
            Some(name) => {
                text.append(separator);
                text.append(name.as_str());
                next = next + 2;
            },
            None => {
                break;
            },
        }
    }
    Some((text, next))
}

fn parse_primary(tokens: &Vec<Token>, pos: usize, ctx: &LineContext) -> (r: Option<
    (Expression, usize),
>)
    requires
        pos <= tokens.len(),
    ensures
        r matches Some((_, next)) ==> pos < next <= tokens.len(),
        opt_expr(r) == p_primary(tokens_view(tokens@), pos as int, *ctx),
    decreases tokens.len() - pos, 0usize,
{
    if pos >= tokens.len() {
        return None;
    }
    let column = tokens[pos].column;
    match &tokens[pos].kind {
        TokenKind::Int(v) => Some((Expression::NumberInt(*v), pos + 1)),
        TokenKind::Float(text) => Some((Expression::NumberFloat(text.clone()), pos + 1)),
        TokenKind::Str(text) => Some((Expression::String(text.clone()), pos + 1)),
        TokenKind::Ident(name) => {
            if str_eq(name.as_str(), "true") {
                return Some((Expression::NumberBool(true), pos + 1));
            }
            if str_eq(name.as_str(), "false") {
                return Some((Expression::NumberBool(false), pos + 1));
            }
            if is_sym(tokens, pos + 1, Symbol::DoubleColon) {
                let symbol = match ident_at(tokens, pos + 2) {
                    Some(symbol) => symbol,
                    None => {
                        return None;
                    },
                };
                let qualified = QualifiedName {
                    module: name.clone(),
                    symbol,
                    module_span: ctx.span_at(column),
                };
                if is_sym(tokens, pos + 3, Symbol::LParen) {
                    match parse_expression_list(tokens, pos + 4, Symbol::RParen, ctx) {
                        Some((args, next)) => Some(
                            (Expression::QualifiedFunctionCall { name: qualified, args }, next),
                        ),
                        None => None,
                    }
                } else {
                    Some((Expression::QualifiedReference(qualified), pos + 3))
                }
            } else if is_sym(tokens, pos + 1, Symbol::LParen) {
                match parse_expression_list(tokens, pos + 2, Symbol::RParen, ctx) {
                    Some((args, next)) => Some(
                        (Expression::FunctionCall { name: name.clone(), args }, next),
                    ),
                    None => None,
                }
            } else {
                Some((Expression::VariableReference(name.clone()), pos + 1))
            }
        },
        TokenKind::Sym(s) => {
            let s = *s;
            if s == Symbol::LParen {
                let (inner, after) = match parse_expression(tokens, pos + 1, ctx) {
                    Some(v) => v,
                    None => {
                        return None;
                    },
                };
                if is_sym(tokens, after, Symbol::RParen) {
                    Some((inner, after + 1))
                } else {
                    None
                }
            } else if s == Symbol::LBracket {
                match parse_expression_list(tokens, pos + 1, Symbol::RBracket, ctx) {
                    Some((items, next)) => Some((Expression::ArrayLiteral(items), next)),
                    None => None,
                }
            } else if s == Symbol::LBrace && starts_dict_entry(tokens, pos + 1) {
                match parse_dict_literal(tokens, pos + 1, ctx) {
                    Some((entries, next)) => Some((Expression::DictLiteral(entries), next)),
                    None => None,
                }
            } else if s == Symbol::LBrace {
                match parse_struct_literal(tokens, pos + 1, ctx) {
                    Some((fields, next)) => Some((Expression::StructLiteral(fields), next)),
                    None => None,
                }
            } else if s == Symbol::Percent && is_sym(tokens, pos + 1, Symbol::LBrace) {
                if is_sym(tokens, pos + 2, Symbol::RBrace) {
                    let empty: Vec<DictLiteralEntry> = Vec::new();
                    assert(entries_view(empty@) =~= Seq::empty());
                    Some((Expression::DictLiteral(empty), pos + 3))
                } else {
                    match parse_dict_literal(tokens, pos + 2, ctx) {
                        Some((entries, next)) => Some((Expression::DictLiteral(entries), next)),
                        None => None,
                    }
                }
            } else if s == Symbol::Percent {
                let (literal_type, after) = match parse_type_name(tokens, pos + 1, ctx) {
                    Some(v) => v,
                    None => {
                        return None;
                    },
                };
                if !is_sym(tokens, after, Symbol::LBrace) {
                    return None;
                }
                match parse_struct_literal(tokens, after + 1, ctx) {
                    Some((fields, next)) => Some((Expression::TypedStructLiteral { literal_type, fields }, next)),
                    None => None,
                }
            } else if s == Symbol::Arrow {
                match parse_path_text(tokens, pos + 1) {
                    Some((path, next)) => Some((Expression::DivertTarget(path), next)),
                    None => None,
                }
            } else {
                None
            }
        },
    }
}

/// The type `b` followed by the `[]` pairs from token `n` on, with the
/// position after the last one.
pub open spec fn array_suffix(ts: Seq<(TokenView, int)>, b: TypeView, n: int) -> (TypeView, int)
    decreases ts.len() - n,
{
    if sym_at(ts, n, Symbol::LBracket) && sym_at(ts, n + 1, Symbol::RBracket) {
        array_suffix(ts, TypeView::Array(Box::new(b)), n + 2)
    } else {
        (b, n)
    }
}

/// The type written from token `pos` of `ts` before any `[]`, with the
/// position after it.
pub open spec fn base_type_at(ts: Seq<(TokenView, int)>, pos: int) -> Option<(TypeView, int)>
    decreases ts.len() - pos, 0nat,
{
    if pos < 0 || pos >= ts.len() {
        None
    } else if sym_at(ts, pos, Symbol::Arrow) {
        Some((TypeView::Primitive(PrimitiveType::DivertTarget), pos + 1))
    } else {
        match ident_of(ts, pos) {
            None => None,
            Some(name) => if name == "int"@ {
                Some((TypeView::Primitive(PrimitiveType::Int), pos + 1))
            } else if name == "float"@ {
                Some((TypeView::Primitive(PrimitiveType::Float), pos + 1))
            } else if name == "bool"@ {
                Some((TypeView::Primitive(PrimitiveType::Bool), pos + 1))
            } else if name == "string"@ {
                Some((TypeView::Primitive(PrimitiveType::String), pos + 1))
            } else if name == "void"@ {
                Some((TypeView::Void, pos + 1))
            } else if name == "Dict"@ && sym_at(ts, pos + 1, Symbol::Less) {
                let key = if ident_of(ts, pos + 2) == Some("string"@) {
                    Some(DictKeyType::String)
                } else if ident_of(ts, pos + 2) == Some("int"@) {
                    Some(DictKeyType::Int)
                } else {
                    None
                };
                match key {
                    None => None,
                    Some(k) => if !sym_at(ts, pos + 3, Symbol::Comma) {
                        None
                    } else {
                        match type_at(ts, pos + 4) {
                            Some((v, after)) => if sym_at(ts, after, Symbol::Greater) {
                                Some((TypeView::Dict(k, Box::new(v)), after + 1))
                            } else {
                                None
                            },
                            None => None,
                        }
                    },
                }
            } else if sym_at(ts, pos + 1, Symbol::DoubleColon) {
                match ident_of(ts, pos + 2) {
                    Some(symbol) => Some((TypeView::QualifiedStruct(name, symbol), pos + 3)),
                    None => None,
                }
            } else {
                Some((TypeView::Struct(name), pos + 1))
            },
        }
    }
}

/// The type written from token `pos` of `ts`, with the position after it.
pub open spec fn type_at(ts: Seq<(TokenView, int)>, pos: int) -> Option<(TypeView, int)>
    decreases ts.len() - pos, 1nat,
{
    match base_type_at(ts, pos) {
        None => None,
        Some((b, n)) => Some(array_suffix(ts, b, n)),
    }
}

/// A type name starting at token `pos`: `int`, `float`, `bool`, `string`,
/// `->`, `void`, `Name` or `module::Name`, followed by any number of `[]`.
pub fn parse_type_name(tokens: &Vec<Token>, pos: usize, ctx: &LineContext) -> (r: Option<
    (TypeName, usize),
>)
    requires
        pos <= tokens.len(),
    ensures
        r matches Some((_, next)) ==> pos < next <= tokens.len(),
        match r {
            Some((t, next)) => type_at(tokens_view(tokens@), pos as int) == Some((t.type_view(), next as int)),
            None => type_at(tokens_view(tokens@), pos as int) is None,
        },
    decreases tokens.len() - pos,
{
    if pos >= tokens.len() {
        return None;
    }
    let column = tokens[pos].column;
    let (mut base, mut next) = if is_sym(tokens, pos, Symbol::Arrow) {
        (TypeName::Primitive(PrimitiveType::DivertTarget), pos + 1)
    } else {
        let name = match ident_at(tokens, pos) {
            Some(name) => name,
            None => {
                return None;
            },
        };
        if str_eq(name.as_str(), "int") {
            (TypeName::Primitive(PrimitiveType::Int), pos + 1)
        } else if str_eq(name.as_str(), "float") {
            (TypeName::Primitive(PrimitiveType::Float), pos + 1)
        } else if str_eq(name.as_str(), "bool") {
            (TypeName::Primitive(PrimitiveType::Bool), pos + 1)
        } else if str_eq(name.as_str(), "string") {
            (TypeName::Primitive(PrimitiveType::String), pos + 1)
        } else if str_eq(name.as_str(), "void") {
            (TypeName::Void, pos + 1)
        } else if str_eq(name.as_str(), "Dict") && is_sym(tokens, pos + 1, Symbol::Less) {
            let key_type = if is_word(tokens, pos + 2, "string") {
                DictKeyType::String
            } else if is_word(tokens, pos + 2, "int") {
                DictKeyType::Int
            } else {
                return None;
            };
            if !is_sym(tokens, pos + 3, Symbol::Comma) {
                return None;
            }
            match parse_type_name(tokens, pos + 4, ctx) {
                Some((value_type, after)) => {
                    if !is_sym(tokens, after, Symbol::Greater) {
                        return None;
                    }
                    (TypeName::Dict { key_type, value_type: Box::new(value_type) }, after + 1)
                },
                None => {
                    return None;
                },
            }
        } else if is_sym(tokens, pos + 1, Symbol::DoubleColon) {
            match ident_at(tokens, pos + 2) {
                Some(symbol) => (
                    TypeName::QualifiedStruct(
                        QualifiedName { module: name, symbol, module_span: ctx.span_at(column) },
                    ),
                    pos + 3,
                ),
                None => {
                    return None;
                },
            }
        } else {
            (TypeName::Struct(name), pos + 1)
        }
    };
    let ghost first = (base.type_view(), next as int);
    assert(base_type_at(tokens_view(tokens@), pos as int) == Some(first));
    while is_sym(tokens, next, Symbol::LBracket) && is_sym(tokens, next + 1, Symbol::RBracket)
        invariant
            pos < next <= tokens.len(),
            array_suffix(tokens_view(tokens@), base.type_view(), next as int) == array_suffix(tokens_view(tokens@), first.0, first.1),
            base_type_at(tokens_view(tokens@), pos as int) == Some(first),
        decreases tokens.len() - next,
    {
        base = TypeName::Array(Box::new(base));
        next = next + 2;
    }
    Some((base, next))
}

} // verus!
