//! Type inference for expressions: the type an expression has in a flow of
//! a module, or the reason it has none.
use vstd::prelude::*;

use crate::analysis::modules::uses::{dot_from, double_colon_from};
use crate::analysis::sites::opt_str_view;
use crate::analysis::modules::uses::double_colon_index;
use crate::analysis::types::{
    contains_dot, contains_double_colon, find_enum, find_field, find_last_variable, find_struct,
    find_target, first_enum, first_field, first_struct, first_target, has_dot, has_double_colon,
    last_variable, same_optional, scoped, scoped_name, seq_has_name, visible_variable, TargetSymbol,
    TypeIndex, VariableSymbol,
};
use crate::text::{chars_of, concat3, string_from_chars};
use crate::parsed::{BinaryOperator, DictKeyType, Expression, PrimitiveType, TypeName, TypeView, UnaryOperator, key_display, primitive_display};
use crate::text::decimal;

verus! {

pub open spec fn int_v() -> TypeView {
    TypeView::Primitive(PrimitiveType::Int)
}

pub open spec fn float_v() -> TypeView {
    TypeView::Primitive(PrimitiveType::Float)
}

pub open spec fn bool_v() -> TypeView {
    TypeView::Primitive(PrimitiveType::Bool)
}

pub open spec fn string_v() -> TypeView {
    TypeView::Primitive(PrimitiveType::String)
}

pub open spec fn divert_v() -> TypeView {
    TypeView::Primitive(PrimitiveType::DivertTarget)
}

/// How a type is written in messages.
pub open spec fn view_display(v: TypeView) -> Seq<char>
    decreases v,
{
    match v {
        TypeView::Primitive(p) => primitive_display(p),
        TypeView::Struct(n) => n,
        TypeView::QualifiedStruct(m, s) => m + "::"@ + s,
        TypeView::Array(e) => view_display(*e) + "[]"@,
        TypeView::Dict(k, v) => "Dict<"@ + key_display(k) + ", "@ + view_display(*v) + ">"@,
        TypeView::Void => "void"@,
    }
}

/// A type read in module `m`: its struct names become `m::Name`.
pub open spec fn qualify_view(v: TypeView, m: Seq<char>) -> TypeView
    decreases v,
{
    match v {
        TypeView::Struct(n) => TypeView::QualifiedStruct(m, n),
        TypeView::Array(e) => TypeView::Array(Box::new(qualify_view(*e, m))),
        TypeView::Dict(k, e) => TypeView::Dict(k, Box::new(qualify_view(*e, m))),
        _ => v,
    }
}

pub open spec fn is_numeric(v: TypeView) -> bool {
    v == int_v() || v == float_v()
}

/// Whether values of the type can be compared with `==`.
pub open spec fn supports_equality(v: TypeView) -> bool
    decreases v,
{
    match v {
        TypeView::Void => false,
        TypeView::Array(e) => supports_equality(*e),
        TypeView::Dict(_, e) => supports_equality(*e),
        _ => true,
    }
}

pub open spec fn binary_text(op: BinaryOperator) -> Seq<char> {
    match op {
        BinaryOperator::And => "and"@,
        BinaryOperator::AndSymbol => "&&"@,
        BinaryOperator::Or => "or"@,
        BinaryOperator::OrSymbol => "||"@,
        BinaryOperator::Equals => "=="@,
        BinaryOperator::NotEquals => "!="@,
        BinaryOperator::GreaterThan => ">"@,
        BinaryOperator::LessThan => "<"@,
        BinaryOperator::GreaterThanOrEquals => ">="@,
        BinaryOperator::LessThanOrEquals => "<="@,
        BinaryOperator::Has => "?"@,
        BinaryOperator::Hasnt => "!?"@,
        BinaryOperator::Add => "+"@,
        BinaryOperator::Subtract => "-"@,
        BinaryOperator::Multiply => "*"@,
        BinaryOperator::Divide => "/"@,
        BinaryOperator::Modulo => "%"@,
    }
}

pub open spec fn unary_text(op: UnaryOperator) -> Seq<char> {
    match op {
        UnaryOperator::Negate => "-"@,
        UnaryOperator::Not => "not"@,
    }
}

pub open spec fn op_error1(op: Seq<char>, t: TypeView) -> Seq<char> {
    "Operator '"@ + op + "' is not defined for type "@ + view_display(t)
}

pub open spec fn op_error2(op: Seq<char>, a: TypeView, b: TypeView) -> Seq<char> {
    "Operator '"@ + op + "' is not defined for types "@ + view_display(a) + " and "@ + view_display(b)
}

/// The type of `left op right` given the operand types.
pub open spec fn binary_result(op: BinaryOperator, l: TypeView, r: TypeView) -> Result<TypeView, Seq<char>> {
    let err = Err(op_error2(binary_text(op), l, r));
    match op {
        BinaryOperator::Add => if (l == int_v() && r == int_v()) || (l == float_v() && r == float_v()) || (l == string_v()
            && r == string_v()) {
            Ok(l)
        } else {
            err
        },
        BinaryOperator::Subtract | BinaryOperator::Multiply | BinaryOperator::Divide => if is_numeric(l) && l == r {
            Ok(l)
        } else {
            err
        },
        BinaryOperator::Modulo => if l == int_v() && r == int_v() {
            Ok(int_v())
        } else {
            err
        },
        BinaryOperator::And | BinaryOperator::AndSymbol | BinaryOperator::Or | BinaryOperator::OrSymbol => if l == bool_v()
            && r == bool_v() {
            Ok(bool_v())
        } else {
            err
        },
        BinaryOperator::Equals | BinaryOperator::NotEquals => if l == r && supports_equality(l) {
            Ok(bool_v())
        } else {
            err
        },
        BinaryOperator::Has | BinaryOperator::Hasnt => err,
        _ => if is_numeric(l) && l == r {
            Ok(bool_v())
        } else {
            err
        },
    }
}

/// The type of `op operand` given the operand type.
pub open spec fn unary_result(op: UnaryOperator, t: TypeView) -> Result<TypeView, Seq<char>> {
    match op {
        UnaryOperator::Negate => if t == int_v() || t == float_v() {
            Ok(t)
        } else {
            Err(op_error1(unary_text(op), t))
        },
        UnaryOperator::Not => if t == bool_v() {
            Ok(bool_v())
        } else {
            Err(op_error1(unary_text(op), t))
        },
    }
}

/// The type of `base[index]` given the two types.
pub open spec fn key_view(k: DictKeyType) -> TypeView {
    match k {
        DictKeyType::String => string_v(),
        DictKeyType::Int => int_v(),
    }
}

pub open spec fn index_result(b: TypeView, i: TypeView) -> Result<TypeView, Seq<char>> {
    match b {
        TypeView::Array(e) => if i == int_v() {
            Ok(*e)
        } else {
            Err("Index expression has type "@ + view_display(i) + " but expected int"@)
        },
        TypeView::Dict(k, v) => if i == key_view(k) {
            Ok(*v)
        } else {
            Err("Index expression has type "@ + view_display(i) + " but expected "@ + view_display(key_view(k)))
        },
        _ => Err("Cannot index non-array type "@ + view_display(b)),
    }
}

/// The result type of a built-in function with a fixed one.
pub open spec fn builtin_type(name: Seq<char>) -> Option<TypeView> {
    if name == "ARRAY_REMOVE"@ || name == "ARRAY_PUSH"@ || name == "ARRAY_INSERT"@ || name == "DICT_REMOVE"@ {
        Some(TypeView::Void)
    } else if name == "LEN"@ || name == "DICT_SIZE"@ {
        Some(int_v())
    } else if name == "DICT_HAS"@ {
        Some(bool_v())
    } else {
        None
    }
}

/// The last `.` of `s` before position `n`, or -1.
pub open spec fn last_dot_before(s: Seq<char>, n: int) -> int
    decreases n,
{
    if n <= 0 || n > s.len() {
        -1
    } else if s[n - 1] == '.' {
        n - 1
    } else {
        last_dot_before(s, n - 1)
    }
}

/// `module::knot.stitch` naming a stitch of another module.
pub open spec fn is_cross_module_stitch(t: Seq<char>, m: Option<Seq<char>>) -> bool {
    let i = double_colon_from(t, 0);
    i >= 0 && has_dot(t.skip(i + 2)) && Some(t.take(i)) != m
}

/// The target that `t` names from flow `f` of module `m`: a qualified name
/// as it is, a dotted path inside the module, else a label of the flow, of
/// its parent knot, or a flow of the module.
pub open spec fn resolve_target(ts: Seq<TargetSymbol>, t: Seq<char>, m: Option<Seq<char>>, f: Option<Seq<char>>) -> Option<TargetSymbol> {
    if is_cross_module_stitch(t, m) {
        None
    } else if has_double_colon(t) {
        first_target(ts, t)
    } else if has_dot(t) {
        first_target(ts, scoped(m, t))
    } else {
        let in_flow = match f {
            Some(p) => first_target(ts, scoped(m, p + "."@ + t)),
            None => None,
        };
        if in_flow is Some {
            in_flow
        } else {
            let in_parent = match f {
                Some(p) => if last_dot_before(p, p.len() as int) >= 0 {
                    first_target(ts, scoped(m, p.take(last_dot_before(p, p.len() as int)) + "."@ + t))
                } else {
                    None
                },
                None => None,
            };
            if in_parent is Some {
                in_parent
            } else {
                first_target(ts, scoped(m, t))
            }
        }
    }
}

/// The result type of calling `name`.
pub open spec fn call_result(idx: TypeIndex, name: Seq<char>, m: Option<Seq<char>>, f: Option<Seq<char>>) -> Result<TypeView, Seq<char>> {
    match builtin_type(name) {
        Some(t) => Ok(t),
        None => match resolve_target(idx.targets@, name, m, f) {
            None => Err("Unknown function '"@ + name + "'"@),
            Some(t) => if !t.is_function {
                Err("'"@ + name + "' is not a function"@)
            } else if has_double_colon(name) {
                Ok(qualify_view(t.return_type.type_view(), name.take(double_colon_from(name, 0))))
            } else {
                Ok(t.return_type.type_view())
            },
        },
    }
}

/// The type of the global `module::name`.
pub open spec fn qualified_global(idx: TypeIndex, module: Seq<char>, name: Seq<char>) -> Result<TypeView, Seq<char>> {
    let full = module + "::"@ + name;
    if module.len() == 0 || name.len() == 0 || has_double_colon(name) || has_dot(name) {
        Err("Unknown qualified global '"@ + full + "'"@)
    } else {
        match last_variable(idx.variables@, Some(module), None, name) {
            Some(v) => match v.declared_type {
                Some(t) => Ok(qualify_view(t.type_view(), module)),
                None => Err("Qualified global '"@ + full + "' has no declared type"@),
            },
            None => Err("Unknown qualified global '"@ + full + "'"@),
        }
    }
}

/// The type of field `field` of a value of type `b`.
pub open spec fn field_result(idx: TypeIndex, b: TypeView, field: Seq<char>, m: Option<Seq<char>>) -> Result<TypeView, Seq<char>> {
    let name = match b {
        TypeView::Struct(n) => Some(n),
        TypeView::QualifiedStruct(mo, s) => Some(mo + "::"@ + s),
        _ => None,
    };
    match name {
        None => Err("Cannot access field '"@ + field + "' on non-struct type "@ + view_display(b)),
        Some(n) => {
            let key = if has_double_colon(n) {
                n
            } else {
                scoped(m, n)
            };
            match first_struct(idx.structs@, key) {
                None => Err("Unknown struct type '"@ + n + "' for field access"@),
                Some(s) => match first_field(s.fields@, field) {
                    None => Err("Unknown field '"@ + field + "' on struct '"@ + n + "'"@),
                    Some(fl) => Ok(
                        match b {
                            TypeView::QualifiedStruct(mo, _) => qualify_view(fl.field_type.type_view(), mo),
                            _ => fl.field_type.type_view(),
                        },
                    ),
                },
            }
        },
    }
}

/// `Enum.member` where `Enum` is not a variable: the enum's type, or an
/// unknown member; `err` when no enum has that name.
pub open spec fn enum_check(idx: TypeIndex, key: Seq<char>, t: TypeView, shown: Seq<char>, field: Seq<char>, err: Seq<char>) -> Result<TypeView, Seq<char>> {
    match first_enum(idx.enums@, key) {
        None => Err(err),
        Some(en) => if seq_has_name(en.members@, field) {
            Ok(t)
        } else {
            Err("Unknown member '"@ + field + "' in enum '"@ + shown + "'"@)
        },
    }
}

pub open spec fn enum_member_result(idx: TypeIndex, base: Expression, field: Seq<char>, m: Option<Seq<char>>, err: Seq<char>) -> Result<TypeView, Seq<char>> {
    match base {
        Expression::VariableReference(n) => enum_check(idx, scoped(m, n@), TypeView::Struct(n@), n@, field, err),
        Expression::QualifiedReference(q) => enum_check(
            idx,
            q.module@ + "::"@ + q.symbol@,
            TypeView::QualifiedStruct(q.module@, q.symbol@),
            q.module@ + "::"@ + q.symbol@,
            field,
            err,
        ),
        _ => Err(err),
    }
}

/// The type of expression `e` in flow `f` of module `m`, or why it has none.
pub open spec fn infer(e: Expression, idx: TypeIndex, m: Option<Seq<char>>, f: Option<Seq<char>>) -> Result<TypeView, Seq<char>>
    decreases e, 0nat,
{
    match e {
        Expression::String(_) => Ok(string_v()),
        Expression::NumberInt(_) => Ok(int_v()),
        Expression::NumberFloat(_) => Ok(float_v()),
        Expression::NumberBool(_) => Ok(bool_v()),
        Expression::DivertTarget(_) => Ok(divert_v()),
        Expression::VariableReference(n) => match visible_variable(idx.variables@, m, f, n@) {
            Some(v) => match v.declared_type {
                Some(t) => Ok(t.type_view()),
                None => Err("Variable '"@ + n@ + "' has no declared type"@),
            },
            None => Err("Unknown variable '"@ + n@ + "'"@),
        },
        Expression::QualifiedReference(q) => qualified_global(idx, q.module@, q.symbol@),
        Expression::FunctionCall { name, args } => if name@ == "DICT_KEYS"@ {
            dict_keys_result(args@, idx, m, f)
        } else {
            call_result(idx, name@, m, f)
        },
        Expression::QualifiedFunctionCall { name, args: _ } => call_result(idx, name.module@ + "::"@ + name.symbol@, m, f),
        Expression::Unary { operator, expression } => match infer(*expression, idx, m, f) {
            Ok(t) => unary_result(operator, t),
            Err(x) => Err(x),
        },
        Expression::Binary { operator, left, right } => match infer(*left, idx, m, f) {
            Err(x) => Err(x),
            Ok(l) => match infer(*right, idx, m, f) {
                Err(x) => Err(x),
                Ok(r) => binary_result(operator, l, r),
            },
        },
        Expression::MultipleCondition(es) => match multi_error(es@, idx, m, f) {
            Some(x) => Err(x),
            None => Ok(bool_v()),
        },
        Expression::IndexAccess { base, index } => match infer(*base, idx, m, f) {
            Err(x) => Err(x),
            Ok(b) => match infer(*index, idx, m, f) {
                Err(x) => Err(x),
                Ok(i) => index_result(b, i),
            },
        },
        Expression::FieldAccess { base, field } => match infer(*base, idx, m, f) {
            Ok(b) => field_result(idx, b, field@, m),
            Err(x) => enum_member_result(idx, *base, field@, m, x),
        },
        Expression::TypedStructLiteral { literal_type, fields: _ } => Ok(literal_type.type_view()),
        Expression::StructLiteral(_) => Err("Expression does not have a primitive type"@),
        Expression::DictLiteral(_) => Err("Expression does not have a primitive type"@),
        Expression::ArrayLiteral(_) => Err("Expression does not have a primitive type"@),
    }
}

/// The type of `DICT_KEYS(args)`: an array of the keys of its one `Dict`
/// argument.
pub open spec fn dict_keys_result(args: Seq<Expression>, idx: TypeIndex, m: Option<Seq<char>>, f: Option<Seq<char>>) -> Result<TypeView, Seq<char>>
    decreases args, 1nat,
{
    if args.len() != 1 {
        Err("Builtin 'DICT_KEYS' expects 1 argument but got "@ + decimal(args.len()))
    } else {
        match infer(args[0], idx, m, f) {
            Err(x) => Err(x),
            Ok(t) => match t {
                TypeView::Dict(k, _) => Ok(TypeView::Array(Box::new(key_view(k)))),
                _ => Err("First argument for builtin 'DICT_KEYS' has type "@ + view_display(t) + " but expected Dict"@),
            },
        }
    }
}

/// The first reason one of `es` is not a `bool` condition, if any.
pub open spec fn multi_error(es: Seq<Expression>, idx: TypeIndex, m: Option<Seq<char>>, f: Option<Seq<char>>) -> Option<Seq<char>>
    decreases es, 1nat,
{
    if es.len() == 0 {
        None
    } else {
        match multi_error(es.drop_last(), idx, m, f) {
            Some(x) => Some(x),
            None => match infer(es.last(), idx, m, f) {
                Err(x) => Some(x),
                Ok(t) => if t == bool_v() {
                    None
                } else {
                    Some(op_error1("multiple condition"@, t))
                },
            },
        }
    }
}

/// Why an expression has no type.
#[derive(Debug, PartialEq, Eq)]
pub struct TypeError {
    pub message: String,
}

impl TypeError {
    pub fn message(&self) -> (r: &str)
        ensures
            r@ == self.message@,
    {
        self.message.as_str()
    }
}

/// An inferred type or error agrees with its specification.
pub open spec fn result_matches(r: Result<TypeName, TypeError>, s: Result<TypeView, Seq<char>>) -> bool {
    match r {
        Ok(t) => s == Ok::<TypeView, Seq<char>>(t.type_view()),
        Err(e) => s == Err::<TypeView, Seq<char>>(e.message@),
    }
}

pub proof fn lemma_display(t: TypeName)
    ensures
        t.display() == view_display(t.type_view()),
    decreases t,
{
    match t {
        TypeName::Array(e) => lemma_display(*e),
        TypeName::Dict { key_type: _, value_type } => lemma_display(*value_type),
        _ => {},
    }
}

/// How `t` is written in messages.
pub fn display(t: &TypeName) -> (r: String)
    ensures
        r@ == view_display(t.type_view()),
{
    proof { lemma_display(*t); }
    t.display_name()
}

/// `t` read in module `m`.
pub fn qualify_type(t: &TypeName, m: &str) -> (r: TypeName)
    ensures
        r.type_view() == qualify_view(t.type_view(), m@),
    decreases t,
{
    match t {
        TypeName::Struct(n) => TypeName::QualifiedStruct(crate::parsed::QualifiedName {
            module: String::from_str(m),
            symbol: n.clone(),
            module_span: crate::analysis::span::default_span(),
        }),
        TypeName::Array(e) => {
            let inner = qualify_type(e, m);
            TypeName::Array(Box::new(inner))
        },
        TypeName::Dict { key_type, value_type } => {
            let inner = qualify_type(value_type, m);
            TypeName::Dict { key_type: *key_type, value_type: Box::new(inner) }
        },
        _ => t.duplicate(),
    }
}

pub fn binary_operator_text(op: BinaryOperator) -> (r: &'static str)
    ensures
        r@ == binary_text(op),
{
    match op {
        BinaryOperator::And => "and",
        BinaryOperator::AndSymbol => "&&",
        BinaryOperator::Or => "or",
        BinaryOperator::OrSymbol => "||",
        BinaryOperator::Equals => "==",
        BinaryOperator::NotEquals => "!=",
        BinaryOperator::GreaterThan => ">",
        BinaryOperator::LessThan => "<",
        BinaryOperator::GreaterThanOrEquals => ">=",
        BinaryOperator::LessThanOrEquals => "<=",
        BinaryOperator::Has => "?",
        BinaryOperator::Hasnt => "!?",
        BinaryOperator::Add => "+",
        BinaryOperator::Subtract => "-",
        BinaryOperator::Multiply => "*",
        BinaryOperator::Divide => "/",
        BinaryOperator::Modulo => "%",
    }
}

pub fn unary_operator_text(op: UnaryOperator) -> (r: &'static str)
    ensures
        r@ == unary_text(op),
{
    match op {
        UnaryOperator::Negate => "-",
        UnaryOperator::Not => "not",
    }
}

pub fn operator_error1(op: &str, t: &TypeName) -> (r: TypeError)
    ensures
        r.message@ == op_error1(op@, t.type_view()),
{
    let mut m = String::from_str("Operator '");
    m.append(op);
    m.append("' is not defined for type ");
    let d = display(t);
    m.append(d.as_str());
    TypeError { message: m }
}

pub fn operator_error2(op: &str, a: &TypeName, b: &TypeName) -> (r: TypeError)
    ensures
        r.message@ == op_error2(op@, a.type_view(), b.type_view()),
{
    let mut m = String::from_str("Operator '");
    m.append(op);
    m.append("' is not defined for types ");
    let da = display(a);
    m.append(da.as_str());
    m.append(" and ");
    let db = display(b);
    m.append(db.as_str());
    TypeError { message: m }
}

/// Whether `t` is the primitive type `p`.
pub fn is_primitive(t: &TypeName, p: PrimitiveType) -> (r: bool)
    ensures
        r == (t.type_view() == TypeView::Primitive(p)),
{
    match t {
        TypeName::Primitive(q) => match (q, p) {
            (PrimitiveType::Int, PrimitiveType::Int) => true,
            (PrimitiveType::Float, PrimitiveType::Float) => true,
            (PrimitiveType::Bool, PrimitiveType::Bool) => true,
            (PrimitiveType::String, PrimitiveType::String) => true,
            (PrimitiveType::DivertTarget, PrimitiveType::DivertTarget) => true,
            _ => false,
        },
        _ => false,
    }
}

pub fn equality_supported(t: &TypeName) -> (r: bool)
    ensures
        r == supports_equality(t.type_view()),
    decreases t,
{
    match t {
        TypeName::Void => false,
        TypeName::Array(e) => equality_supported(e),
        TypeName::Dict { key_type: _, value_type } => equality_supported(value_type),
        _ => true,
    }
}

/// The type of `left op right` given the operand types.
pub fn binary_type(op: BinaryOperator, l: TypeName, r: TypeName) -> (res: Result<TypeName, TypeError>)
    ensures
        result_matches(res, binary_result(op, l.type_view(), r.type_view())),
{
    let ok = match op {
        BinaryOperator::Add => (is_primitive(&l, PrimitiveType::Int) && is_primitive(&r, PrimitiveType::Int))
            || (is_primitive(&l, PrimitiveType::Float) && is_primitive(&r, PrimitiveType::Float))
            || (is_primitive(&l, PrimitiveType::String) && is_primitive(&r, PrimitiveType::String)),
        BinaryOperator::Subtract | BinaryOperator::Multiply | BinaryOperator::Divide => (is_primitive(&l, PrimitiveType::Int)
            || is_primitive(&l, PrimitiveType::Float)) && l.same_as(&r),
        BinaryOperator::Modulo => is_primitive(&l, PrimitiveType::Int) && is_primitive(&r, PrimitiveType::Int),
        BinaryOperator::And | BinaryOperator::AndSymbol | BinaryOperator::Or | BinaryOperator::OrSymbol => is_primitive(&l, PrimitiveType::Bool)
            && is_primitive(&r, PrimitiveType::Bool),
        BinaryOperator::Equals | BinaryOperator::NotEquals => l.same_as(&r) && equality_supported(&l),
        BinaryOperator::Has | BinaryOperator::Hasnt => false,
        _ => (is_primitive(&l, PrimitiveType::Int) || is_primitive(&l, PrimitiveType::Float)) && l.same_as(&r),
    };
    if !ok {
        return Err(operator_error2(binary_operator_text(op), &l, &r));
    }
    match op {
        BinaryOperator::Add | BinaryOperator::Subtract | BinaryOperator::Multiply | BinaryOperator::Divide => Ok(l),
        BinaryOperator::Modulo => Ok(TypeName::Primitive(PrimitiveType::Int)),
        _ => Ok(TypeName::Primitive(PrimitiveType::Bool)),
    }
}

/// The type of `op operand` given the operand type.
pub fn unary_type(op: UnaryOperator, t: TypeName) -> (res: Result<TypeName, TypeError>)
    ensures
        result_matches(res, unary_result(op, t.type_view())),
{
    match op {
        UnaryOperator::Negate => if is_primitive(&t, PrimitiveType::Int) || is_primitive(&t, PrimitiveType::Float) {
            Ok(t)
        } else {
            Err(operator_error1(unary_operator_text(op), &t))
        },
        UnaryOperator::Not => if is_primitive(&t, PrimitiveType::Bool) {
            Ok(TypeName::Primitive(PrimitiveType::Bool))
        } else {
            Err(operator_error1(unary_operator_text(op), &t))
        },
    }
}

/// The type of `base[index]` given the two types.
pub fn index_type(b: TypeName, i: TypeName) -> (res: Result<TypeName, TypeError>)
    ensures
        result_matches(res, index_result(b.type_view(), i.type_view())),
{
    match b {
        TypeName::Array(e) => if is_primitive(&i, PrimitiveType::Int) {
            Ok(*e)
        } else {
            let mut m = String::from_str("Index expression has type ");
            let d = display(&i);
            m.append(d.as_str());
            m.append(" but expected int");
            Err(TypeError { message: m })
        },
        TypeName::Dict { key_type, value_type } => {
            let key = match key_type {
                DictKeyType::String => TypeName::Primitive(PrimitiveType::String),
                DictKeyType::Int => TypeName::Primitive(PrimitiveType::Int),
            };
            if i.same_as(&key) {
                Ok(*value_type)
            } else {
                let mut m = String::from_str("Index expression has type ");
                let d = display(&i);
                m.append(d.as_str());
                m.append(" but expected ");
                let k = display(&key);
                m.append(k.as_str());
                Err(TypeError { message: m })
            }
        },
        _ => {
            let mut m = String::from_str("Cannot index non-array type ");
            let d = display(&b);
            m.append(d.as_str());
            Err(TypeError { message: m })
        },
    }
}

/// The fixed result type of a built-in function, if `name` is one.
pub fn builtin_return_type(name: &str) -> (r: Option<TypeName>)
    ensures
        match r {
            Some(t) => builtin_type(name@) == Some(t.type_view()),
            None => builtin_type(name@) is None,
        },
{
    proof {
        reveal_strlit("ARRAY_REMOVE");
        reveal_strlit("ARRAY_PUSH");
        reveal_strlit("ARRAY_INSERT");
        reveal_strlit("DICT_REMOVE");
        reveal_strlit("LEN");
        reveal_strlit("DICT_SIZE");
        reveal_strlit("DICT_HAS");
    }
    if crate::text::str_eq(name, "ARRAY_REMOVE") || crate::text::str_eq(name, "ARRAY_PUSH") || crate::text::str_eq(name, "ARRAY_INSERT")
        || crate::text::str_eq(name, "DICT_REMOVE") {
        Some(TypeName::Void)
    } else if crate::text::str_eq(name, "LEN") || crate::text::str_eq(name, "DICT_SIZE") {
        Some(TypeName::Primitive(PrimitiveType::Int))
    } else if crate::text::str_eq(name, "DICT_HAS") {
        Some(TypeName::Primitive(PrimitiveType::Bool))
    } else {
        None
    }
}

/// Where the last `.` of `s` stands, if anywhere.
pub fn last_dot_index(s: &str) -> (r: Option<usize>)
    ensures
        match r {
            Some(i) => last_dot_before(s@, s@.len() as int) == i as int && i < s@.len(),
            None => last_dot_before(s@, s@.len() as int) < 0,
        },
{
    let chars = chars_of(s);
    let mut n: usize = chars.len();
    while n > 0
        invariant
            chars@ == s@,
            n <= chars@.len(),
            last_dot_before(s@, s@.len() as int) == last_dot_before(s@, n as int),
        decreases n,
    {
        if chars[n - 1] == '.' {
            return Some(n - 1);
        }
        n = n - 1;
    }
    None
}

/// Whether `t` is `module::knot.stitch` of a module other than `m`.
pub fn cross_module_stitch(t: &str, m: Option<&str>) -> (r: bool)
    ensures
        r == is_cross_module_stitch(t@, opt_str_view(m)),
{
    let chars = chars_of(t);
    match double_colon_index(&chars) {
        None => false,
        Some(i) => {
            let rest = string_from_chars(&chars, i + 2, chars.len());
            let module = string_from_chars(&chars, 0, i);
            assert(rest@ =~= t@.skip(i + 2));
            assert(module@ =~= t@.take(i as int));
            if !contains_dot(rest.as_str()) {
                return false;
            }
            let same = same_optional(&Some(module), m);
            !same
        },
    }
}

/// The target that `t` names from flow `f` of module `m`.
pub fn resolve_target_symbol<'a>(ts: &'a Vec<TargetSymbol>, t: &str, m: Option<&str>, f: Option<&str>) -> (r: Option<&'a TargetSymbol>)
    ensures
        match r {
            Some(x) => resolve_target(ts@, t@, opt_str_view(m), opt_str_view(f)) == Some(*x),
            None => resolve_target(ts@, t@, opt_str_view(m), opt_str_view(f)) is None,
        },
{
    if cross_module_stitch(t, m) {
        return None;
    }
    if contains_double_colon(t) {
        return find_target(ts, t);
    }
    if contains_dot(t) {
        let key = scoped_name(m, t);
        return find_target(ts, key.as_str());
    }
    match f {
        Some(p) => {
            let in_flow = concat3(p, ".", t);
            let key = scoped_name(m, in_flow.as_str());
            match find_target(ts, key.as_str()) {
                Some(x) => {
                    return Some(x);
                },
                None => {},
            }
            match last_dot_index(p) {
                Some(i) => {
                    let pchars = chars_of(p);
                    let parent = string_from_chars(&pchars, 0, i);
                    assert(parent@ =~= p@.take(i as int));
                    let in_parent = concat3(parent.as_str(), ".", t);
                    let key = scoped_name(m, in_parent.as_str());
                    match find_target(ts, key.as_str()) {
                        Some(x) => {
                            return Some(x);
                        },
                        None => {},
                    }
                },
                None => {},
            }
        },
        None => {},
    }
    let key = scoped_name(m, t);
    find_target(ts, key.as_str())
}

/// The result type of calling `name` from flow `f` of module `m`.
pub fn call_type(idx: &TypeIndex, name: &str, m: Option<&str>, f: Option<&str>) -> (res: Result<TypeName, TypeError>)
    ensures
        result_matches(res, call_result(*idx, name@, opt_str_view(m), opt_str_view(f))),
{
    match builtin_return_type(name) {
        Some(t) => {
            return Ok(t);
        },
        None => {},
    }
    match resolve_target_symbol(&idx.targets, name, m, f) {
        None => Err(TypeError { message: concat3("Unknown function '", name, "'") }),
        Some(t) => {
            if !t.is_function {
                return Err(TypeError { message: concat3("'", name, "' is not a function") });
            }
            let chars = chars_of(name);
            match double_colon_index(&chars) {
                Some(i) => {
                    let module = string_from_chars(&chars, 0, i);
                    assert(module@ =~= name@.take(i as int));
                    Ok(qualify_type(&t.return_type, module.as_str()))
                },
                None => Ok(t.return_type.duplicate()),
            }
        },
    }
}

/// The type of the global `module::name`.
pub fn qualified_global_type(idx: &TypeIndex, module: &str, name: &str) -> (res: Result<TypeName, TypeError>)
    ensures
        result_matches(res, qualified_global(*idx, module@, name@)),
{
    let full = concat3(module, "::", name);
    if module.unicode_len() == 0 || name.unicode_len() == 0 || contains_double_colon(name) || contains_dot(name) {
        return Err(TypeError { message: concat3("Unknown qualified global '", full.as_str(), "'") });
    }
    match find_last_variable(&idx.variables, Some(module), None, name) {
        Some(v) => match &v.declared_type {
            Some(t) => Ok(qualify_type(t, module)),
            None => Err(TypeError { message: concat3("Qualified global '", full.as_str(), "' has no declared type") }),
        },
        None => Err(TypeError { message: concat3("Unknown qualified global '", full.as_str(), "'") }),
    }
}

/// The type of field `field` of a value of type `b`, read in module `m`.
pub fn field_type_of(idx: &TypeIndex, b: &TypeName, field: &str, m: Option<&str>) -> (res: Result<TypeName, TypeError>)
    ensures
        result_matches(res, field_result(*idx, b.type_view(), field@, opt_str_view(m))),
{
    let name = match b {
        TypeName::Struct(n) => n.clone(),
        TypeName::QualifiedStruct(q) => concat3(q.module.as_str(), "::", q.symbol.as_str()),
        _ => {
            let mut msg = concat3("Cannot access field '", field, "' on non-struct type ");
            let d = display(b);
            msg.append(d.as_str());
            return Err(TypeError { message: msg });
        },
    };
    let key = if contains_double_colon(name.as_str()) {
        name.clone()
    } else {
        scoped_name(m, name.as_str())
    };
    match find_struct(&idx.structs, key.as_str()) {
        None => Err(TypeError { message: concat3("Unknown struct type '", name.as_str(), "' for field access") }),
        Some(s) => match find_field(&s.fields, field) {
            None => {
                let mut msg = concat3("Unknown field '", field, "' on struct '");
                msg.append(name.as_str());
                msg.append("'");
                Err(TypeError { message: msg })
            },
            Some(fl) => match b {
                TypeName::QualifiedStruct(q) => Ok(qualify_type(&fl.field_type, q.module.as_str())),
                _ => Ok(fl.field_type.duplicate()),
            },
        },
    }
}

fn enum_member_check(idx: &TypeIndex, key: &str, t: TypeName, shown: &str, field: &str, err: TypeError) -> (res: Result<TypeName, TypeError>)
    ensures
        result_matches(res, enum_check(*idx, key@, t.type_view(), shown@, field@, err.message@)),
{
    match find_enum(&idx.enums, key) {
        None => Err(err),
        Some(en) => if en.contains_member(field) {
            Ok(t)
        } else {
            let mut msg = concat3("Unknown member '", field, "' in enum '");
            msg.append(shown);
            msg.append("'");
            Err(TypeError { message: msg })
        },
    }
}

/// `Enum.member` where `Enum` did not name a typed value.
fn enum_member_type(idx: &TypeIndex, base: &Expression, field: &str, m: Option<&str>, err: TypeError) -> (res: Result<TypeName, TypeError>)
    ensures
        result_matches(res, enum_member_result(*idx, *base, field@, opt_str_view(m), err.message@)),
{
    match base {
        Expression::VariableReference(n) => {
            let key = scoped_name(m, n.as_str());
            enum_member_check(idx, key.as_str(), TypeName::Struct(n.clone()), n.as_str(), field, err)
        },
        Expression::QualifiedReference(q) => {
            let full = concat3(q.module.as_str(), "::", q.symbol.as_str());
            let t = TypeName::QualifiedStruct(q.duplicate());
            enum_member_check(idx, full.as_str(), t, full.as_str(), field, err)
        },
        _ => Err(err),
    }
}

/// The type of `e` in flow `f` of module `m`, or why it has none.
pub fn infer_expression_type(e: &Expression, idx: &TypeIndex, m: Option<&str>, f: Option<&str>) -> (res: Result<TypeName, TypeError>)
    ensures
        result_matches(res, infer(*e, *idx, opt_str_view(m), opt_str_view(f))),
    decreases *e, 0nat,
{
    match e {
        Expression::String(_) => Ok(TypeName::Primitive(PrimitiveType::String)),
        Expression::NumberInt(_) => Ok(TypeName::Primitive(PrimitiveType::Int)),
        Expression::NumberFloat(_) => Ok(TypeName::Primitive(PrimitiveType::Float)),
        Expression::NumberBool(_) => Ok(TypeName::Primitive(PrimitiveType::Bool)),
        Expression::DivertTarget(_) => Ok(TypeName::Primitive(PrimitiveType::DivertTarget)),
        Expression::VariableReference(n) => {
            let local = match f {
                Some(p) => find_last_variable(&idx.variables, m, Some(p), n.as_str()),
                None => None,
            };
            let found = match local {
                Some(v) => Some(v),
                None => find_last_variable(&idx.variables, m, None, n.as_str()),
            };
            match found {
                Some(v) => match &v.declared_type {
                    Some(t) => Ok(t.duplicate()),
                    None => Err(TypeError { message: concat3("Variable '", n.as_str(), "' has no declared type") }),
                },
                None => Err(TypeError { message: concat3("Unknown variable '", n.as_str(), "'") }),
            }
        },
        Expression::QualifiedReference(q) => qualified_global_type(idx, q.module.as_str(), q.symbol.as_str()),
        Expression::FunctionCall { name, args } => {
            proof { reveal_strlit("DICT_KEYS"); }
            if crate::text::str_eq(name.as_str(), "DICT_KEYS") {
                proof {
                    assert(decreases_to!(*e => (*e)->FunctionCall_args));
                    assert(decreases_to!((*e)->FunctionCall_args => args@));
                }
                dict_keys_type(args, idx, m, f)
            } else {
                call_type(idx, name.as_str(), m, f)
            }
        },
        Expression::QualifiedFunctionCall { name, args: _ } => {
            let full = concat3(name.module.as_str(), "::", name.symbol.as_str());
            call_type(idx, full.as_str(), m, f)
        },
        Expression::Unary { operator, expression } => match infer_expression_type(expression, idx, m, f) {
            Ok(t) => unary_type(*operator, t),
            Err(x) => Err(x),
        },
        Expression::Binary { operator, left, right } => match infer_expression_type(left, idx, m, f) {
            Err(x) => Err(x),
            Ok(l) => match infer_expression_type(right, idx, m, f) {
                Err(x) => Err(x),
                Ok(r) => binary_type(*operator, l, r),
            },
        },
        Expression::MultipleCondition(es) => {
            proof {
                assert(decreases_to!(*e => (*e)->MultipleCondition_0));
                assert(decreases_to!((*e)->MultipleCondition_0 => es@));
            }
            match first_condition_error(es, idx, m, f) {
                Some(x) => Err(x),
                None => Ok(TypeName::Primitive(PrimitiveType::Bool)),
            }
        },
        Expression::IndexAccess { base, index } => match infer_expression_type(base, idx, m, f) {
            Err(x) => Err(x),
            Ok(b) => match infer_expression_type(index, idx, m, f) {
                Err(x) => Err(x),
                Ok(i) => index_type(b, i),
            },
        },
        Expression::FieldAccess { base, field } => match infer_expression_type(base, idx, m, f) {
            Ok(b) => field_type_of(idx, &b, field.as_str(), m),
            Err(x) => enum_member_type(idx, base, field.as_str(), m, x),
        },
        Expression::TypedStructLiteral { literal_type, fields: _ } => Ok(literal_type.duplicate()),
        Expression::StructLiteral(_) => Err(TypeError { message: String::from_str("Expression does not have a primitive type") }),
        Expression::DictLiteral(_) => Err(TypeError { message: String::from_str("Expression does not have a primitive type") }),
        Expression::ArrayLiteral(_) => Err(TypeError { message: String::from_str("Expression does not have a primitive type") }),
    }
}

/// The type of `DICT_KEYS(args)`.
fn dict_keys_type(args: &Vec<Expression>, idx: &TypeIndex, m: Option<&str>, f: Option<&str>) -> (res: Result<TypeName, TypeError>)
    ensures
        result_matches(res, dict_keys_result(args@, *idx, opt_str_view(m), opt_str_view(f))),
    decreases args@, 1nat,
{
    if args.len() != 1 {
        let count = crate::text::decimal_text(args.len() as u64);
        return Err(TypeError { message: crate::text::concat2("Builtin 'DICT_KEYS' expects 1 argument but got ", count.as_str()) });
    }
    proof { assert(decreases_to!(args@ => args@[0])); }
    match infer_expression_type(&args[0], idx, m, f) {
        Err(x) => Err(x),
        Ok(t) => match t {
            TypeName::Dict { key_type, value_type: _ } => {
                let key = match key_type {
                    DictKeyType::String => TypeName::Primitive(PrimitiveType::String),
                    DictKeyType::Int => TypeName::Primitive(PrimitiveType::Int),
                };
                assert(key.type_view() == key_view(key_type));
                let r = TypeName::Array(Box::new(key));
                assert(r.type_view() == TypeView::Array(Box::new(key_view(key_type))));
                Ok(r)
            },
            _ => {
                let d = display(&t);
                Err(TypeError { message: concat3("First argument for builtin 'DICT_KEYS' has type ", d.as_str(), " but expected Dict") })
            },
        },
    }
}

/// The first reason one of `es` is not a `bool` condition, if any.
fn first_condition_error(es: &Vec<Expression>, idx: &TypeIndex, m: Option<&str>, f: Option<&str>) -> (r: Option<TypeError>)
    ensures
        match r {
            Some(x) => multi_error(es@, *idx, opt_str_view(m), opt_str_view(f)) == Some(x.message@),
            None => multi_error(es@, *idx, opt_str_view(m), opt_str_view(f)) is None,
        },
    decreases es@, 1nat,
{
    let ghost mv = opt_str_view(m);
    let ghost fv = opt_str_view(f);
    let mut i: usize = 0;
    while i < es.len()
        invariant
            i <= es@.len(),
            mv == opt_str_view(m),
            fv == opt_str_view(f),
            multi_error(es@.take(i as int), *idx, mv, fv) is None,
        decreases es.len() - i,
    {
        proof {
            assert(decreases_to!(es@ => es@[i as int]));
            assert(es@.take(i + 1).drop_last() =~= es@.take(i as int));
        }
        match infer_expression_type(&es[i], idx, m, f) {
            Err(x) => {
                proof { lemma_multi_error_prefix(es@, *idx, mv, fv, i + 1); }
                return Some(x);
            },
            Ok(t) => {
                if !is_primitive(&t, PrimitiveType::Bool) {
                    let x = operator_error1("multiple condition", &t);
                    proof {
                        reveal_strlit("multiple condition");
                        lemma_multi_error_prefix(es@, *idx, mv, fv, i + 1);
                    }
                    return Some(x);
                }
            },
        }
        i = i + 1;
    }
    assert(es@.take(es@.len() as int) =~= es@);
    None
}

/// A failing prefix decides the error of the whole list.
proof fn lemma_multi_error_prefix(es: Seq<Expression>, idx: TypeIndex, m: Option<Seq<char>>, f: Option<Seq<char>>, n: int)
    requires
        0 < n <= es.len(),
        multi_error(es.take(n), idx, m, f) is Some,
    ensures
        multi_error(es, idx, m, f) == multi_error(es.take(n), idx, m, f),
    decreases es.len(),
{
    if n < es.len() {
        assert(es.drop_last().take(n) =~= es.take(n));
        lemma_multi_error_prefix(es.drop_last(), idx, m, f, n);
    } else {
        assert(es.take(n) =~= es);
    }
}

/// The type of `e` read as a primitive expression: literals, variables,
/// qualified globals and operators over them. Calls, field and element
/// reads and composite literals have no primitive type.
pub open spec fn infer_primitive(e: Expression, idx: TypeIndex, m: Option<Seq<char>>, f: Option<Seq<char>>) -> Result<TypeView, Seq<char>>
    decreases e, 0nat,
{
    match e {
        Expression::String(_) => Ok(string_v()),
        Expression::NumberInt(_) => Ok(int_v()),
        Expression::NumberFloat(_) => Ok(float_v()),
        Expression::NumberBool(_) => Ok(bool_v()),
        Expression::DivertTarget(_) => Ok(divert_v()),
        Expression::VariableReference(n) => match visible_variable(idx.variables@, m, f, n@) {
            Some(v) => match v.declared_type {
                Some(t) => Ok(t.type_view()),
                None => Err("Variable '"@ + n@ + "' has no declared type"@),
            },
            None => Err("Unknown variable '"@ + n@ + "'"@),
        },
        Expression::QualifiedReference(q) => qualified_global(idx, q.module@, q.symbol@),
        Expression::FunctionCall { name, args: _ } => Err("Cannot infer return type for function call '"@ + name@ + "' yet"@),
        Expression::QualifiedFunctionCall { name, args: _ } => Err(
            "Cannot infer return type for function call '"@ + name.module@ + "::"@ + name.symbol@ + "' yet"@,
        ),
        Expression::Unary { operator, expression } => match infer_primitive(*expression, idx, m, f) {
            Ok(t) => unary_result(operator, t),
            Err(x) => Err(x),
        },
        Expression::Binary { operator, left, right } => match infer_primitive(*left, idx, m, f) {
            Err(x) => Err(x),
            Ok(l) => match infer_primitive(*right, idx, m, f) {
                Err(x) => Err(x),
                Ok(r) => binary_result(operator, l, r),
            },
        },
        Expression::MultipleCondition(es) => match multi_primitive_error(es@, idx, m, f) {
            Some(x) => Err(x),
            None => Ok(bool_v()),
        },
        _ => Err("Expression does not have a primitive type"@),
    }
}

pub open spec fn multi_primitive_error(es: Seq<Expression>, idx: TypeIndex, m: Option<Seq<char>>, f: Option<Seq<char>>) -> Option<Seq<char>>
    decreases es, 1nat,
{
    if es.len() == 0 {
        None
    } else {
        match multi_primitive_error(es.drop_last(), idx, m, f) {
            Some(x) => Some(x),
            None => match infer_primitive(es.last(), idx, m, f) {
                Err(x) => Some(x),
                Ok(t) => if t == bool_v() {
                    None
                } else {
                    Some(op_error1("multiple condition"@, t))
                },
            },
        }
    }
}

/// The type of `e` read as a primitive expression in flow `f` of module `m`.
pub fn infer_primitive_expression_type(e: &Expression, idx: &TypeIndex, m: Option<&str>, f: Option<&str>) -> (res: Result<TypeName, TypeError>)
    ensures
        result_matches(res, infer_primitive(*e, *idx, opt_str_view(m), opt_str_view(f))),
    decreases *e, 0nat,
{
    match e {
        Expression::String(_) => Ok(TypeName::Primitive(PrimitiveType::String)),
        Expression::NumberInt(_) => Ok(TypeName::Primitive(PrimitiveType::Int)),
        Expression::NumberFloat(_) => Ok(TypeName::Primitive(PrimitiveType::Float)),
        Expression::NumberBool(_) => Ok(TypeName::Primitive(PrimitiveType::Bool)),
        Expression::DivertTarget(_) => Ok(TypeName::Primitive(PrimitiveType::DivertTarget)),
        Expression::VariableReference(n) => {
            let local = match f {
                Some(p) => find_last_variable(&idx.variables, m, Some(p), n.as_str()),
                None => None,
            };
            let found = match local {
                Some(v) => Some(v),
                None => find_last_variable(&idx.variables, m, None, n.as_str()),
            };
            match found {
                Some(v) => match &v.declared_type {
                    Some(t) => Ok(t.duplicate()),
                    None => Err(TypeError { message: concat3("Variable '", n.as_str(), "' has no declared type") }),
                },
                None => Err(TypeError { message: concat3("Unknown variable '", n.as_str(), "'") }),
            }
        },
        Expression::QualifiedReference(q) => qualified_global_type(idx, q.module.as_str(), q.symbol.as_str()),
        Expression::FunctionCall { name, args: _ } => Err(
            TypeError { message: concat3("Cannot infer return type for function call '", name.as_str(), "' yet") },
        ),
        Expression::QualifiedFunctionCall { name, args: _ } => {
            let mut message = concat3("Cannot infer return type for function call '", name.module.as_str(), "::");
            message.append(name.symbol.as_str());
            message.append("' yet");
            Err(TypeError { message })
        },
        Expression::Unary { operator, expression } => match infer_primitive_expression_type(expression, idx, m, f) {
            Ok(t) => unary_type(*operator, t),
            Err(x) => Err(x),
        },
        Expression::Binary { operator, left, right } => match infer_primitive_expression_type(left, idx, m, f) {
            Err(x) => Err(x),
            Ok(l) => match infer_primitive_expression_type(right, idx, m, f) {
                Err(x) => Err(x),
                Ok(r) => binary_type(*operator, l, r),
            },
        },
        Expression::MultipleCondition(es) => {
            proof {
                assert(decreases_to!(*e => (*e)->MultipleCondition_0));
                assert(decreases_to!((*e)->MultipleCondition_0 => es@));
            }
            match first_primitive_condition_error(es, idx, m, f) {
                Some(x) => Err(x),
                None => Ok(TypeName::Primitive(PrimitiveType::Bool)),
            }
        },
        _ => Err(TypeError { message: String::from_str("Expression does not have a primitive type") }),
    }
}

fn first_primitive_condition_error(es: &Vec<Expression>, idx: &TypeIndex, m: Option<&str>, f: Option<&str>) -> (r: Option<TypeError>)
    ensures
        match r {
            Some(x) => multi_primitive_error(es@, *idx, opt_str_view(m), opt_str_view(f)) == Some(x.message@),
            None => multi_primitive_error(es@, *idx, opt_str_view(m), opt_str_view(f)) is None,
        },
    decreases es@, 1nat,
{
    let ghost mv = opt_str_view(m);
    let ghost fv = opt_str_view(f);
    let mut i: usize = 0;
    while i < es.len()
        invariant
            i <= es@.len(),
            mv == opt_str_view(m),
            fv == opt_str_view(f),
            multi_primitive_error(es@.take(i as int), *idx, mv, fv) is None,
        decreases es.len() - i,
    {
        proof {
            assert(decreases_to!(es@ => es@[i as int]));
            assert(es@.take(i + 1).drop_last() =~= es@.take(i as int));
        }
        match infer_primitive_expression_type(&es[i], idx, m, f) {
            Err(x) => {
                proof { lemma_multi_primitive_prefix(es@, *idx, mv, fv, i + 1); }
                return Some(x);
            },
            Ok(t) => {
                if !is_primitive(&t, PrimitiveType::Bool) {
                    let x = operator_error1("multiple condition", &t);
                    proof {
                        reveal_strlit("multiple condition");
                        lemma_multi_primitive_prefix(es@, *idx, mv, fv, i + 1);
                    }
                    return Some(x);
                }
            },
        }
        i = i + 1;
    }
    assert(es@.take(es@.len() as int) =~= es@);
    None
}

proof fn lemma_multi_primitive_prefix(es: Seq<Expression>, idx: TypeIndex, m: Option<Seq<char>>, f: Option<Seq<char>>, n: int)
    requires
        0 < n <= es.len(),
        multi_primitive_error(es.take(n), idx, m, f) is Some,
    ensures
        multi_primitive_error(es, idx, m, f) == multi_primitive_error(es.take(n), idx, m, f),
    decreases es.len(),
{
    if n < es.len() {
        assert(es.drop_last().take(n) =~= es.take(n));
        lemma_multi_primitive_prefix(es.drop_last(), idx, m, f, n);
    } else {
        assert(es.take(n) =~= es);
    }
}

/// No implicit numeric conversion: an arithmetic operator, a comparison or
/// an equality between an `int` and a `float` has no type, whichever side
/// each stands on.
pub proof fn law_no_numeric_widening(op: BinaryOperator, left: Expression, right: Expression, idx: TypeIndex, m: Option<Seq<char>>, f: Option<Seq<char>>)
    requires
        (infer(left, idx, m, f) == Ok::<TypeView, Seq<char>>(int_v()) && infer(right, idx, m, f) == Ok::<TypeView, Seq<char>>(float_v()))
            || (infer(left, idx, m, f) == Ok::<TypeView, Seq<char>>(float_v()) && infer(right, idx, m, f) == Ok::<TypeView, Seq<char>>(int_v())),
    ensures
        infer(Expression::Binary { operator: op, left: Box::new(left), right: Box::new(right) }, idx, m, f) is Err,
{
}

/// `a == b` and `a != b` have a type exactly when both sides have the same
/// type and values of it can be compared; the type is then `bool`.
pub proof fn law_equality_needs_same_types(op: BinaryOperator, left: Expression, right: Expression, idx: TypeIndex, m: Option<Seq<char>>, f: Option<Seq<char>>)
    requires
        op == BinaryOperator::Equals || op == BinaryOperator::NotEquals,
    ensures
        infer(Expression::Binary { operator: op, left: Box::new(left), right: Box::new(right) }, idx, m, f) is Ok
            <==> (infer(left, idx, m, f) is Ok && infer(left, idx, m, f) == infer(right, idx, m, f) && supports_equality(
            infer(left, idx, m, f)->Ok_0,
        )),
        infer(Expression::Binary { operator: op, left: Box::new(left), right: Box::new(right) }, idx, m, f) is Ok ==> infer(
            Expression::Binary { operator: op, left: Box::new(left), right: Box::new(right) },
            idx,
            m,
            f,
        ) == Ok::<TypeView, Seq<char>>(bool_v()),
{
}

/// Arithmetic keeps the operand type: `+`, `-`, `*` and `/` on two values
/// of one numeric type give that type.
pub proof fn law_arithmetic_keeps_type(op: BinaryOperator, left: Expression, right: Expression, t: TypeView, idx: TypeIndex, m: Option<Seq<char>>, f: Option<Seq<char>>)
    requires
        op == BinaryOperator::Add || op == BinaryOperator::Subtract || op == BinaryOperator::Multiply || op == BinaryOperator::Divide,
        t == int_v() || t == float_v(),
        infer(left, idx, m, f) == Ok::<TypeView, Seq<char>>(t),
        infer(right, idx, m, f) == Ok::<TypeView, Seq<char>>(t),
    ensures
        infer(Expression::Binary { operator: op, left: Box::new(left), right: Box::new(right) }, idx, m, f) == Ok::<TypeView, Seq<char>>(t),
{
}

/// An ordered comparison (`<`, `>`, `<=`, `>=`) of two sides of the same
/// numeric type, `int` or `float`, has type `bool`; with sides of any other
/// types, or of two different types, it has no type.
pub proof fn law_ordered_comparison_is_bool(op: BinaryOperator, left: Expression, right: Expression, l: TypeView, r: TypeView, idx: TypeIndex, m: Option<Seq<char>>, f: Option<Seq<char>>)
    requires
        op == BinaryOperator::GreaterThan || op == BinaryOperator::LessThan || op == BinaryOperator::GreaterThanOrEquals
            || op == BinaryOperator::LessThanOrEquals,
        infer(left, idx, m, f) == Ok::<TypeView, Seq<char>>(l),
        infer(right, idx, m, f) == Ok::<TypeView, Seq<char>>(r),
    ensures
        (l == r && (l == TypeView::Primitive(PrimitiveType::Int) || l == TypeView::Primitive(PrimitiveType::Float))) ==> infer(
            Expression::Binary { operator: op, left: Box::new(left), right: Box::new(right) },
            idx,
            m,
            f,
        ) == Ok::<TypeView, Seq<char>>(TypeView::Primitive(PrimitiveType::Bool)),
        !(l == r && (l == TypeView::Primitive(PrimitiveType::Int) || l == TypeView::Primitive(PrimitiveType::Float))) ==> infer(
            Expression::Binary { operator: op, left: Box::new(left), right: Box::new(right) },
            idx,
            m,
            f,
        ) is Err,
{
}

/// `and`, `&&`, `or` and `||` have type `bool` when both sides are `bool`,
/// and no type otherwise.
pub proof fn law_logic_needs_bools(op: BinaryOperator, left: Expression, right: Expression, l: TypeView, r: TypeView, idx: TypeIndex, m: Option<Seq<char>>, f: Option<Seq<char>>)
    requires
        op == BinaryOperator::And || op == BinaryOperator::AndSymbol || op == BinaryOperator::Or || op == BinaryOperator::OrSymbol,
        infer(left, idx, m, f) == Ok::<TypeView, Seq<char>>(l),
        infer(right, idx, m, f) == Ok::<TypeView, Seq<char>>(r),
    ensures
        (l == TypeView::Primitive(PrimitiveType::Bool) && r == TypeView::Primitive(PrimitiveType::Bool)) ==> infer(
            Expression::Binary { operator: op, left: Box::new(left), right: Box::new(right) },
            idx,
            m,
            f,
        ) == Ok::<TypeView, Seq<char>>(TypeView::Primitive(PrimitiveType::Bool)),
        !(l == TypeView::Primitive(PrimitiveType::Bool) && r == TypeView::Primitive(PrimitiveType::Bool)) ==> infer(
            Expression::Binary { operator: op, left: Box::new(left), right: Box::new(right) },
            idx,
            m,
            f,
        ) is Err,
{
}

/// `%` has type `int` when both sides are `int`, and no type otherwise.
pub proof fn law_modulo_needs_ints(left: Expression, right: Expression, l: TypeView, r: TypeView, idx: TypeIndex, m: Option<Seq<char>>, f: Option<Seq<char>>)
    requires
        infer(left, idx, m, f) == Ok::<TypeView, Seq<char>>(l),
        infer(right, idx, m, f) == Ok::<TypeView, Seq<char>>(r),
    ensures
        (l == TypeView::Primitive(PrimitiveType::Int) && r == TypeView::Primitive(PrimitiveType::Int)) ==> infer(
            Expression::Binary { operator: BinaryOperator::Modulo, left: Box::new(left), right: Box::new(right) },
            idx,
            m,
            f,
        ) == Ok::<TypeView, Seq<char>>(TypeView::Primitive(PrimitiveType::Int)),
        !(l == TypeView::Primitive(PrimitiveType::Int) && r == TypeView::Primitive(PrimitiveType::Int)) ==> infer(
            Expression::Binary { operator: BinaryOperator::Modulo, left: Box::new(left), right: Box::new(right) },
            idx,
            m,
            f,
        ) is Err,
{
}

/// `not e` has type `bool` when `e` is a `bool` and no type otherwise;
/// `-e` has the type of `e` when it is `int` or `float` and no type
/// otherwise.
pub proof fn law_unary_types(op: UnaryOperator, e: Expression, t: TypeView, idx: TypeIndex, m: Option<Seq<char>>, f: Option<Seq<char>>)
    requires
        infer(e, idx, m, f) == Ok::<TypeView, Seq<char>>(t),
    ensures
        op == UnaryOperator::Not ==> (infer(Expression::Unary { operator: op, expression: Box::new(e) }, idx, m, f) == if t
            == TypeView::Primitive(PrimitiveType::Bool) {
            Ok::<TypeView, Seq<char>>(TypeView::Primitive(PrimitiveType::Bool))
        } else {
            Err::<TypeView, Seq<char>>(
                "Operator '"@ + "not"@ + "' is not defined for type "@ + view_display(t),
            )
        }),
        op == UnaryOperator::Negate ==> (infer(Expression::Unary { operator: op, expression: Box::new(e) }, idx, m, f) == if t
            == TypeView::Primitive(PrimitiveType::Int) || t == TypeView::Primitive(PrimitiveType::Float) {
            Ok::<TypeView, Seq<char>>(t)
        } else {
            Err::<TypeView, Seq<char>>(
                "Operator '"@ + "-"@ + "' is not defined for type "@ + view_display(t),
            )
        }),
{
}

/// `+` of two strings is a string; `+` of two sides of different types has
/// no type.
pub proof fn law_string_concatenation(left: Expression, right: Expression, l: TypeView, r: TypeView, idx: TypeIndex, m: Option<Seq<char>>, f: Option<Seq<char>>)
    requires
        infer(left, idx, m, f) == Ok::<TypeView, Seq<char>>(l),
        infer(right, idx, m, f) == Ok::<TypeView, Seq<char>>(r),
    ensures
        l == TypeView::Primitive(PrimitiveType::String) && r == TypeView::Primitive(PrimitiveType::String) ==> infer(
            Expression::Binary { operator: BinaryOperator::Add, left: Box::new(left), right: Box::new(right) },
            idx,
            m,
            f,
        ) == Ok::<TypeView, Seq<char>>(TypeView::Primitive(PrimitiveType::String)),
        l != r ==> infer(
            Expression::Binary { operator: BinaryOperator::Add, left: Box::new(left), right: Box::new(right) },
            idx,
            m,
            f,
        ) is Err,
{
}

/// `base[index]` of an array has the element type when the index is an
/// `int`; of a `Dict` has the value type when the index has the key type;
/// it has no type when the index has another type or the base is neither.
pub proof fn law_index_types(base: Expression, index: Expression, b: TypeView, i: TypeView, idx: TypeIndex, m: Option<Seq<char>>, f: Option<Seq<char>>)
    requires
        infer(base, idx, m, f) == Ok::<TypeView, Seq<char>>(b),
        infer(index, idx, m, f) == Ok::<TypeView, Seq<char>>(i),
    ensures
        ({
            let r = infer(Expression::IndexAccess { base: Box::new(base), index: Box::new(index) }, idx, m, f);
            match b {
                TypeView::Array(e) => if i == TypeView::Primitive(PrimitiveType::Int) {
                    r == Ok::<TypeView, Seq<char>>(*e)
                } else {
                    r is Err
                },
                TypeView::Dict(k, v) => if (k == DictKeyType::String && i == TypeView::Primitive(PrimitiveType::String)) || (k
                    == DictKeyType::Int && i == TypeView::Primitive(PrimitiveType::Int)) {
                    r == Ok::<TypeView, Seq<char>>(*v)
                } else {
                    r is Err
                },
                _ => r is Err,
            }
        }),
{
}

/// A variable read has the declared type of the variable it means (a
/// local of the flow before a global of the module); a read of a name that
/// no such variable has gets no type.
pub proof fn law_variable_read_type(n: String, idx: TypeIndex, m: Option<Seq<char>>, f: Option<Seq<char>>)
    ensures
        (match visible_variable(idx.variables@, m, f, n@) {
            Some(v) => match v.declared_type {
                Some(d) => infer(Expression::VariableReference(n), idx, m, f) == Ok::<TypeView, Seq<char>>(d.type_view()),
                None => infer(Expression::VariableReference(n), idx, m, f) is Err,
            },
            None => infer(Expression::VariableReference(n), idx, m, f) is Err,
        }),
        (f is Some && last_variable(idx.variables@, m, f, n@) is Some && last_variable(idx.variables@, m, f, n@)->0.declared_type is Some)
            ==> infer(Expression::VariableReference(n), idx, m, f) == Ok::<TypeView, Seq<char>>(
            last_variable(idx.variables@, m, f, n@)->0.declared_type->0.type_view(),
        ),
{
}

/// `?` and `!?` never have a type.
pub proof fn law_has_is_untyped(op: BinaryOperator, left: Expression, right: Expression, idx: TypeIndex, m: Option<Seq<char>>, f: Option<Seq<char>>)
    requires
        op == BinaryOperator::Has || op == BinaryOperator::Hasnt,
    ensures
        infer(Expression::Binary { operator: op, left: Box::new(left), right: Box::new(right) }, idx, m, f) is Err,
{
}

/// A read of another module's global takes that module's names: its type
/// is the declared type of the module's last global of that name, with the
/// struct and enum names in it qualified by the module.
pub proof fn law_qualified_reads_are_qualified(idx: TypeIndex, module: Seq<char>, name: Seq<char>, t: TypeView)
    requires
        qualified_global(idx, module, name) == Ok::<TypeView, Seq<char>>(t),
    ensures
        last_variable(idx.variables@, Some(module), None, name) matches Some(v) && v.declared_type matches Some(d)
            && t == qualify_view(d.type_view(), module),
{
}

} // verus!
