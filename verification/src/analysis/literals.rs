//! Array, struct and `Dict` literals checked against the types their
//! places expect: declared types of variables, constants and assigned
//! variables, parameter types of calls and diverts, field types, element
//! and value types.
use vstd::prelude::*;

use crate::analysis::inference::{
    display, infer, infer_expression_type, qualify_type, qualify_view, resolve_target,
    resolve_target_symbol, result_matches, view_display,
};
use crate::analysis::initializers::has_default;
use crate::analysis::messages::{errors_at, messages_view, push_errors, push_message};
use crate::analysis::modules::uses::double_colon_from;
use crate::analysis::sites::{collect_sites, opt_str_view, opt_string_view, site_view, sites_view, story_sites, SiteView};
use crate::analysis::span::{object_span, object_span_spec};
use crate::analysis::structs::{build_type_index, is_index_of};
use crate::analysis::types::{
    contains_double_colon, find_enum, find_field, find_last_variable, find_struct, first_enum,
    first_field, first_struct, has_double_colon, scoped, scoped_name, visible_variable, FieldSymbol,
    ParameterSymbol, TargetSymbol, TypeIndex,
};
use crate::diagnostic::{diag_views, DiagView, Diagnostic};
use crate::parsed::{
    key_display, AssignmentKind, AssignmentTarget, ConditionalBranch, DictKey, DictKeyType,
    DictLiteralEntry, DivertTarget, Expression, Object, PrimitiveType, Story, StructLiteralField,
    TypeName, TypeView, key_view, KeyView,
};
use crate::diagnostic::lemma_seq_char_less_transitive;
use crate::diagnostic::lemma_seq_char_less_irreflexive;
use crate::text::{concat2, concat3, decimal, decimal_text, seq_char_less, signed_decimal, str_eq, str_less};

verus! {

/// Which of the three literal checks is running.
#[derive(Debug, Clone, Copy, PartialEq, Eq, Structural)]
pub enum LiteralMode {
    Arrays,
    Structs,
    Dicts,
}

/// Where a value stands: an element of an array literal, a field of a
/// struct literal, a value of a `Dict` literal, or the value of a
/// declaration or argument.
#[derive(Debug, Clone, Copy, PartialEq, Eq, Structural)]
pub enum Position {
    Element,
    Field,
    DictValue,
    Root,
}

/// What the checks of one object share.
pub struct LiteralContext<'a> {
    pub idx: &'a TypeIndex,
    pub module: Option<&'a str>,
    pub flow: Option<&'a str>,
    pub mode: LiteralMode,
}

/// The plain values a context stands for.
pub struct LiteralView {
    pub idx: TypeIndex,
    pub module: Option<Seq<char>>,
    pub flow: Option<Seq<char>>,
    pub mode: LiteralMode,
}

pub open spec fn literal_view(ctx: LiteralContext) -> LiteralView {
    LiteralView { idx: *ctx.idx, module: opt_str_view(ctx.module), flow: opt_str_view(ctx.flow), mode: ctx.mode }
}

/// Whether the check of `mode` reports problems found at `position`.
pub open spec fn reports(mode: LiteralMode, position: Position) -> bool {
    (mode == LiteralMode::Arrays && position == Position::Element) || (mode == LiteralMode::Structs && position
        == Position::Field) || (mode == LiteralMode::Dicts && position == Position::DictValue)
}

fn reports_at(mode: LiteralMode, position: Position) -> (r: bool)
    ensures
        r == reports(mode, position),
{
    match (mode, position) {
        (LiteralMode::Arrays, Position::Element) => true,
        (LiteralMode::Structs, Position::Field) => true,
        (LiteralMode::Dicts, Position::DictValue) => true,
        _ => false,
    }
}

/// The name of the struct type `t`, if it is one.
pub open spec fn struct_name_view(t: TypeView) -> Option<Seq<char>> {
    match t {
        TypeView::Struct(n) => Some(n),
        TypeView::QualifiedStruct(m, s) => Some(m + "::"@ + s),
        _ => None,
    }
}

fn struct_name_of(t: &TypeName) -> (r: Option<String>)
    ensures
        match r {
            Some(s) => struct_name_view(t.type_view()) == Some(s@),
            None => struct_name_view(t.type_view()) is None,
        },
{
    match t {
        TypeName::Struct(n) => Some(n.clone()),
        TypeName::QualifiedStruct(q) => Some(concat3(q.module.as_str(), "::", q.symbol.as_str())),
        _ => None,
    }
}

/// Whether `t` is, or is an array of, an enum type of the index.
pub open spec fn contains_enum(c: LiteralView, t: TypeView) -> bool
    decreases t,
{
    match t {
        TypeView::Array(e) => contains_enum(c, *e),
        TypeView::Struct(n) => first_enum(c.idx.enums@, scoped(c.module, n)) is Some,
        TypeView::QualifiedStruct(m, s) => first_enum(c.idx.enums@, m + "::"@ + s) is Some,
        _ => false,
    }
}

fn has_enum(t: &TypeName, ctx: &LiteralContext) -> (r: bool)
    ensures
        r == contains_enum(literal_view(*ctx), t.type_view()),
    decreases t,
{
    match t {
        TypeName::Array(e) => has_enum(e, ctx),
        TypeName::Struct(n) => {
            let key = scoped_name(ctx.module, n.as_str());
            find_enum(&ctx.idx.enums, key.as_str()).is_some()
        },
        TypeName::QualifiedStruct(q) => {
            let key = concat3(q.module.as_str(), "::", q.symbol.as_str());
            find_enum(&ctx.idx.enums, key.as_str()).is_some()
        },
        _ => false,
    }
}

/// The type a value has where `expected` is expected: an untyped struct
/// literal takes the expected struct type (or an expected `Dict` type when
/// empty), an array or `Dict` literal the expected array or `Dict` type.
pub open spec fn value_type(c: LiteralView, e: Expression, expected: TypeView) -> Result<TypeView, Seq<char>> {
    match e {
        Expression::DictLiteral(_) => if expected is Dict {
            Ok(expected)
        } else {
            infer(e, c.idx, c.module, c.flow)
        },
        Expression::StructLiteral(fields) => if expected is Struct || expected is QualifiedStruct || (expected is Dict
            && fields@.len() == 0) {
            Ok(expected)
        } else {
            infer(e, c.idx, c.module, c.flow)
        },
        Expression::ArrayLiteral(_) => if expected is Array {
            Ok(expected)
        } else {
            infer(e, c.idx, c.module, c.flow)
        },
        _ => infer(e, c.idx, c.module, c.flow),
    }
}

fn value_type_of(e: &Expression, expected: &TypeName, ctx: &LiteralContext) -> (r: Result<TypeName, String>)
    ensures
        match r {
            Ok(t) => value_type(literal_view(*ctx), *e, expected.type_view()) == Ok::<TypeView, Seq<char>>(t.type_view()),
            Err(x) => value_type(literal_view(*ctx), *e, expected.type_view()) == Err::<TypeView, Seq<char>>(x@),
        },
{
    let takes_expected = match e {
        Expression::DictLiteral(_) => match expected {
            TypeName::Dict { .. } => true,
            _ => false,
        },
        Expression::StructLiteral(fields) => match expected {
            TypeName::Struct(_) | TypeName::QualifiedStruct(_) => true,
            TypeName::Dict { .. } => fields.len() == 0,
            _ => false,
        },
        Expression::ArrayLiteral(_) => match expected {
            TypeName::Array(_) => true,
            _ => false,
        },
        _ => false,
    };
    if takes_expected {
        Ok(expected.duplicate())
    } else {
        match infer_expression_type(e, ctx.idx, ctx.module, ctx.flow) {
            Ok(t) => Ok(t),
            Err(x) => Err(x.message),
        }
    }
}

/// `Value for 'name' has type A but expected E`, or a failure to type it
/// where the expected type is primitive or holds an enum.
pub open spec fn exact_messages(c: LiteralView, e: Expression, expected: TypeView, name: Seq<char>, position: Position) -> Seq<Seq<char>> {
    if !reports(c.mode, position) {
        Seq::empty()
    } else {
        match value_type(c, e, expected) {
            Ok(actual) => if actual == expected {
                Seq::empty()
            } else {
                seq!["Value for '"@ + name + "' has type "@ + view_display(actual) + " but expected "@ + view_display(expected)]
            },
            Err(x) => if expected is Primitive || contains_enum(c, expected) {
                seq!["Cannot type-check value for '"@ + name + "': "@ + x]
            } else {
                Seq::empty()
            },
        }
    }
}

/// The checks of a value where `expected` is expected.
pub open spec fn value_messages(c: LiteralView, e: Expression, expected: TypeView, name: Seq<char>, position: Position) -> Seq<Seq<char>>
    decreases e, 2nat,
{
    match e {
        Expression::ArrayLiteral(es) => match expected {
            TypeView::Array(et) => array_messages(c, es@, *et, name),
            _ => if reports(c.mode, if position == Position::Root { Position::Element } else { position }) {
                seq!["Value for '"@ + name + "' is an array literal but expected "@ + view_display(expected)]
            } else {
                Seq::empty()
            },
        },
        Expression::DictLiteral(entries) => match expected {
            TypeView::Dict(k, v) => dict_messages(c, entries@, k, *v, name),
            _ => if c.mode == LiteralMode::Dicts {
                seq!["Value for '"@ + name + "' is a Dict literal but expected "@ + view_display(expected)]
            } else {
                Seq::empty()
            },
        },
        Expression::StructLiteral(fields) => match expected {
            TypeView::Dict(_, _) => if fields@.len() > 0 && c.mode == LiteralMode::Dicts {
                seq!["Value for '"@ + name + "' is a struct literal but expected "@ + view_display(expected)]
            } else {
                Seq::empty()
            },
            _ => match struct_name_view(expected) {
                Some(s) => struct_messages(c, s, fields@),
                None => exact_messages(c, e, expected, name, position),
            },
        },
        Expression::TypedStructLiteral { literal_type, fields } => exact_messages(c, e, expected, name, position) + match struct_name_view(
            literal_type.type_view(),
        ) {
            Some(s) => struct_messages(c, s, fields@),
            None => Seq::empty(),
        },
        _ => if position != Position::Root {
            exact_messages(c, e, expected, name, position)
        } else {
            Seq::empty()
        },
    }
}

/// The checks of the elements of an array literal, each named `name[i]`.
pub open spec fn array_messages(c: LiteralView, es: Seq<Expression>, et: TypeView, name: Seq<char>) -> Seq<Seq<char>>
    decreases es, 1nat,
{
    if es.len() == 0 {
        Seq::empty()
    } else {
        array_messages(c, es.drop_last(), et, name) + value_messages(
            c,
            es.last(),
            et,
            name + "["@ + decimal((es.len() - 1) as nat) + "]"@,
            Position::Element,
        )
    }
}

pub open spec fn key_matches(k: DictKey, t: DictKeyType) -> bool {
    (k is String && t == DictKeyType::String) || (k is Int && t == DictKeyType::Int)
}

pub open spec fn key_kind(k: DictKey) -> Seq<char> {
    match k {
        DictKey::String(_) => "string"@,
        DictKey::Int(_) => "int"@,
    }
}

/// How a key is shown in the name of its value: quoted for strings.
pub open spec fn key_shown(k: DictKey) -> Seq<char> {
    match k {
        DictKey::String(s) => "\""@ + s@ + "\""@,
        DictKey::Int(n) => signed_decimal(n as int),
    }
}

pub open spec fn same_key_spec(a: DictKey, b: DictKey) -> bool {
    match a {
        DictKey::String(x) => match b { DictKey::String(y) => x@ == y@, _ => false },
        DictKey::Int(x) => match b { DictKey::Int(y) => x == y, _ => false },
    }
}

pub open spec fn key_repeated(earlier: Seq<DictLiteralEntry>, k: DictKey) -> bool {
    exists|j: int| 0 <= j < earlier.len() && same_key_spec(#[trigger] earlier[j].key, k)
}

/// The checks of the entries of a `Dict` literal.
pub open spec fn dict_messages(c: LiteralView, es: Seq<DictLiteralEntry>, k: DictKeyType, v: TypeView, name: Seq<char>) -> Seq<Seq<char>>
    decreases es, 1nat,
{
    if es.len() == 0 {
        Seq::empty()
    } else {
        dict_messages(c, es.drop_last(), k, v, name) + entry_messages(c, es.drop_last(), es.last(), k, v, name)
    }
}

/// The name of the value of an entry with key `key` in the literal named
/// `name`: `name["key"]`, or `name[]` for the array checks.
pub open spec fn entry_value_name(c: LiteralView, name: Seq<char>, key: DictKey) -> Seq<char> {
    if c.mode == LiteralMode::Arrays {
        name + "[]"@
    } else {
        name + "["@ + key_shown(key) + "]"@
    }
}

/// The checks of one entry, each made whatever the others found: a key
/// that an earlier entry has already, a key of the wrong type, its value.
pub open spec fn entry_messages(c: LiteralView, earlier: Seq<DictLiteralEntry>, entry: DictLiteralEntry, k: DictKeyType, v: TypeView, name: Seq<char>) -> Seq<Seq<char>>
    decreases entry, 3nat,
{
    (if key_repeated(earlier, entry.key) && c.mode == LiteralMode::Dicts {
        seq!["Duplicate key "@ + key_shown(entry.key) + " in Dict literal for '"@ + name + "'"@]
    } else {
        Seq::empty()
    }) + (if !key_matches(entry.key, k) && c.mode == LiteralMode::Dicts {
        seq!["Dict literal key for '"@ + name + "' has type "@ + key_kind(entry.key) + " but expected "@ + key_display(k)]
    } else {
        Seq::empty()
    }) + value_messages(c, entry.value, v, entry_value_name(c, name, entry.key), Position::DictValue)
}

pub open spec fn provided_in(fields: Seq<StructLiteralField>, name: Seq<char>) -> bool {
    exists|j: int| 0 <= j < fields.len() && (#[trigger] fields[j]).name@ == name
}

/// The module part of a qualified struct name, if any.
pub open spec fn module_part(s: Seq<char>) -> Option<Seq<char>> {
    if has_double_colon(s) {
        Some(s.take(double_colon_from(s, 0)))
    } else {
        None
    }
}

/// The checks of a literal of struct `s`: an unknown struct, then each
/// field, then the missing fields without a default.
pub open spec fn struct_messages(c: LiteralView, s: Seq<char>, fields: Seq<StructLiteralField>) -> Seq<Seq<char>>
    decreases fields, 2nat,
{
    let key = if has_double_colon(s) {
        s
    } else {
        scoped(c.module, s)
    };
    match first_struct(c.idx.structs@, key) {
        None => if c.mode == LiteralMode::Structs {
            seq!["Unknown struct type '"@ + s + "' for struct literal"@]
        } else {
            Seq::empty()
        },
        Some(symbol) => field_list_messages(c, s, fields, symbol.fields@) + if c.mode == LiteralMode::Structs {
            missing_messages(s, fields, symbol.fields@)
        } else {
            Seq::empty()
        },
    }
}

pub open spec fn field_list_messages(c: LiteralView, s: Seq<char>, fields: Seq<StructLiteralField>, defs: Seq<FieldSymbol>) -> Seq<Seq<char>>
    decreases fields, 1nat,
{
    if fields.len() == 0 {
        Seq::empty()
    } else {
        field_list_messages(c, s, fields.drop_last(), defs) + field_messages(c, s, fields.drop_last(), fields.last(), defs)
    }
}

/// The checks of one field: repeated, unknown, or its value.
pub open spec fn field_messages(c: LiteralView, s: Seq<char>, earlier: Seq<StructLiteralField>, field: StructLiteralField, defs: Seq<FieldSymbol>) -> Seq<Seq<char>>
    decreases field, 3nat,
{
    if provided_in(earlier, field.name@) {
        if c.mode == LiteralMode::Structs {
            seq!["Duplicate field '"@ + field.name@ + "' in struct literal for '"@ + s + "'"@]
        } else {
            Seq::empty()
        }
    } else {
        match first_field(defs, field.name@) {
            None => if c.mode == LiteralMode::Structs {
                seq!["Unknown field '"@ + field.name@ + "' in struct literal for '"@ + s + "'"@]
            } else {
                Seq::empty()
            },
            Some(def) => value_messages(
                c,
                field.expression,
                match module_part(s) {
                    Some(m) => qualify_view(def.field_type.type_view(), m),
                    None => def.field_type.type_view(),
                },
                s + "."@ + field.name@,
                Position::Field,
            ),
        }
    }
}

/// The names of the fields of `defs` that `fields` does not provide and
/// that have no default, in the order of `defs`.
pub open spec fn missing_names(fields: Seq<StructLiteralField>, defs: Seq<FieldSymbol>) -> Seq<Seq<char>>
    decreases defs.len(),
{
    if defs.len() == 0 {
        Seq::empty()
    } else {
        missing_names(fields, defs.drop_last()) + if !provided_in(fields, defs.last().name@) && !has_default(
            defs.last().field_type.type_view(),
        ) {
            seq![defs.last().name@]
        } else {
            Seq::empty()
        }
    }
}

/// The index of the first least name among `ns[0..n]`.
pub open spec fn least_index(ns: Seq<Seq<char>>, n: int) -> int
    decreases n,
{
    if n <= 1 {
        0
    } else {
        let b = least_index(ns, n - 1);
        if seq_char_less(ns[n - 1], ns[b]) {
            n - 1
        } else {
            b
        }
    }
}

pub proof fn lemma_least_index(ns: Seq<Seq<char>>, n: int)
    requires
        1 <= n,
    ensures
        0 <= least_index(ns, n) < n,
    decreases n,
{
    if n > 1 {
        lemma_least_index(ns, n - 1);
    }
}

/// `ns` in ascending order of the names (characters compared in order).
pub open spec fn ascending(ns: Seq<Seq<char>>) -> Seq<Seq<char>>
    decreases ns.len(),
{
    if ns.len() == 0 {
        Seq::empty()
    } else {
        let m = least_index(ns, ns.len() as int);
        proof {
            lemma_least_index(ns, ns.len() as int);
        }
        seq![ns[m]] + ascending(ns.remove(m))
    }
}

/// In the array checks, an element of an array literal that is no literal
/// of an array, struct or `Dict`, and whose type is known, is accepted
/// exactly when it has the element type; otherwise it gets exactly the
/// error `Value for 'name' has type A but expected E`.
pub proof fn law_array_element_type(c: LiteralView, e: Expression, et: TypeView, name: Seq<char>, t: TypeView)
    requires
        c.mode == LiteralMode::Arrays,
        !(e is ArrayLiteral || e is DictLiteral || e is StructLiteral || e is TypedStructLiteral),
        infer(e, c.idx, c.module, c.flow) == Ok::<TypeView, Seq<char>>(t),
    ensures
        value_messages(c, e, et, name, Position::Element) == if t == et {
            Seq::<Seq<char>>::empty()
        } else {
            seq!["Value for '"@ + name + "' has type "@ + view_display(t) + " but expected "@ + view_display(et)]
        },
{
}

/// How many entries of `es` repeat the key of an earlier entry.
pub open spec fn repeat_count(es: Seq<DictLiteralEntry>) -> nat
    decreases es.len(),
{
    if es.len() == 0 {
        0
    } else {
        repeat_count(es.drop_last()) + if key_repeated(es.drop_last(), es.last().key) { 1nat } else { 0nat }
    }
}

/// The keys of `es`, each kept at its first occurrence.
pub open spec fn distinct_keys(es: Seq<DictLiteralEntry>) -> Seq<KeyView>
    decreases es.len(),
{
    if es.len() == 0 {
        Seq::empty()
    } else {
        let earlier = distinct_keys(es.drop_last());
        if earlier.contains(key_view(es.last().key)) {
            earlier
        } else {
            earlier.push(key_view(es.last().key))
        }
    }
}

proof fn lemma_distinct_keys(es: Seq<DictLiteralEntry>)
    ensures
        forall|kv: KeyView| #[trigger] distinct_keys(es).contains(kv) <==> exists|j: int| 0 <= j < es.len() && key_view(#[trigger] es[j].key) == kv,
        distinct_keys(es).no_duplicates(),
        repeat_count(es) + distinct_keys(es).len() == es.len(),
    decreases es.len(),
{
    if es.len() > 0 {
        let e = es.drop_last();
        lemma_distinct_keys(e);
        let k = es.last().key;
        assert forall|kv: KeyView| #[trigger] distinct_keys(es).contains(kv) <==> exists|j: int| 0 <= j < es.len() && key_view(#[trigger] es[j].key) == kv by {
            if exists|j: int| 0 <= j < es.len() && key_view(#[trigger] es[j].key) == kv {
                let j = choose|j: int| 0 <= j < es.len() && key_view(#[trigger] es[j].key) == kv;
                if j < es.len() - 1 {
                    assert(e[j] == es[j]);
                    assert(distinct_keys(e).contains(kv));
                    if !distinct_keys(e).contains(key_view(k)) {
                        assert(distinct_keys(es) == distinct_keys(e).push(key_view(k)));
                        assert(distinct_keys(es)[distinct_keys(e).index_of(kv)] == kv);
                    }
                } else {
                    if !distinct_keys(e).contains(key_view(k)) {
                        assert(distinct_keys(es)[distinct_keys(e).len() as int] == kv);
                    }
                }
            }
            if distinct_keys(es).contains(kv) {
                if distinct_keys(e).contains(kv) {
                    let j = choose|j: int| 0 <= j < e.len() && key_view(#[trigger] e[j].key) == kv;
                    assert(es[j] == e[j]);
                } else {
                    assert(distinct_keys(es) == distinct_keys(e).push(key_view(k)));
                    let i = distinct_keys(es).index_of(kv);
                    assert(kv == key_view(k));
                    assert(key_view(es[es.len() - 1].key) == kv);
                }
            }
        }
        assert(key_repeated(e, k) <==> distinct_keys(e).contains(key_view(k))) by {
            if key_repeated(e, k) {
                let j = choose|j: int| 0 <= j < e.len() && same_key_spec(#[trigger] e[j].key, k);
                assert(key_view(e[j].key) == key_view(k));
            }
            if distinct_keys(e).contains(key_view(k)) {
                let j = choose|j: int| 0 <= j < e.len() && key_view(#[trigger] e[j].key) == key_view(k);
                assert(same_key_spec(e[j].key, k));
            }
        }
    }
}

/// In a `Dict` literal each entry is checked on its own: an entry whose key
/// an earlier entry has gets one `Duplicate key` error (so there are as many
/// as entries less distinct keys), a key of the wrong type gets one key
/// error, and the value of every entry is checked, repeated keys included.
pub proof fn law_dict_entries(c: LiteralView, es: Seq<DictLiteralEntry>, k: DictKeyType, v: TypeView, name: Seq<char>)
    requires
        c.mode == LiteralMode::Dicts,
    ensures
        repeat_count(es) == es.len() - distinct_keys(es).len(),
        forall|kv: KeyView| #[trigger] distinct_keys(es).contains(kv) <==> exists|j: int| 0 <= j < es.len() && key_view(#[trigger] es[j].key) == kv,
        distinct_keys(es).no_duplicates(),
        forall|i: int| 0 <= i < es.len() ==> dict_messages(c, #[trigger] es.take(i + 1), k, v, name) == dict_messages(c, es.take(i), k, v, name)
            + (if key_repeated(es.take(i), es[i].key) {
            seq!["Duplicate key "@ + key_shown(es[i].key) + " in Dict literal for '"@ + name + "'"@]
        } else {
            Seq::empty()
        }) + (if !key_matches(es[i].key, k) {
            seq!["Dict literal key for '"@ + name + "' has type "@ + key_kind(es[i].key) + " but expected "@ + key_display(k)]
        } else {
            Seq::empty()
        }) + value_messages(c, es[i].value, v, name + "["@ + key_shown(es[i].key) + "]"@, Position::DictValue),
{
    lemma_distinct_keys(es);
    assert forall|i: int| 0 <= i < es.len() implies dict_messages(c, #[trigger] es.take(i + 1), k, v, name) == dict_messages(c, es.take(i), k, v, name)
        + (if key_repeated(es.take(i), es[i].key) {
        seq!["Duplicate key "@ + key_shown(es[i].key) + " in Dict literal for '"@ + name + "'"@]
    } else {
        Seq::empty()
    }) + (if !key_matches(es[i].key, k) {
        seq!["Dict literal key for '"@ + name + "' has type "@ + key_kind(es[i].key) + " but expected "@ + key_display(k)]
    } else {
        Seq::empty()
    }) + value_messages(c, es[i].value, v, name + "["@ + key_shown(es[i].key) + "]"@, Position::DictValue) by {
        assert(es.take(i + 1).drop_last() =~= es.take(i));
        assert(es.take(i + 1).last() == es[i]);
        assert(entry_value_name(c, name, es[i].key) == name + "["@ + key_shown(es[i].key) + "]"@);
        let dm = dict_messages(c, es.take(i), k, v, name);
        let em = entry_messages(c, es.take(i), es[i], k, v, name);
        assert(dict_messages(c, es.take(i + 1), k, v, name) == dm + em);
    }
}

/// No name of `ns` comes before a name ahead of it.
pub open spec fn names_ascending(ns: Seq<Seq<char>>) -> bool {
    forall|a: int, b: int| 0 <= a < b < ns.len() ==> !seq_char_less(#[trigger] ns[b], #[trigger] ns[a])
}

proof fn lemma_least_minimal(ns: Seq<Seq<char>>, n: int)
    requires
        1 <= n <= ns.len(),
    ensures
        forall|j: int| 0 <= j < n ==> !seq_char_less(#[trigger] ns[j], ns[least_index(ns, n)]),
    decreases n,
{
    lemma_least_index(ns, n);
    if n > 1 {
        lemma_least_minimal(ns, n - 1);
        let b = least_index(ns, n - 1);
        lemma_least_index(ns, n - 1);
        if seq_char_less(ns[n - 1], ns[b]) {
            assert forall|j: int| 0 <= j < n implies !seq_char_less(#[trigger] ns[j], ns[n - 1]) by {
                if j == n - 1 {
                    lemma_seq_char_less_irreflexive(ns[j]);
                } else if seq_char_less(ns[j], ns[n - 1]) {
                    lemma_seq_char_less_transitive(ns[j], ns[n - 1], ns[b]);
                }
            }
        }
    } else {
        lemma_seq_char_less_irreflexive(ns[0]);
    }
}

/// `ascending(ns)` holds the names of `ns`, as often as `ns` does, in
/// ascending order.
pub proof fn lemma_ascending(ns: Seq<Seq<char>>)
    ensures
        ascending(ns).len() == ns.len(),
        ascending(ns).to_multiset() == ns.to_multiset(),
        names_ascending(ascending(ns)),
    decreases ns.len(),
{
    broadcast use vstd::multiset::group_multiset_axioms;
    if ns.len() == 0 {
        assert(ascending(ns) =~= ns);
    } else {
        let m = least_index(ns, ns.len() as int);
        lemma_least_index(ns, ns.len() as int);
        lemma_least_minimal(ns, ns.len() as int);
        let rest = ns.remove(m);
        lemma_ascending(rest);
        let a = ascending(rest);
        assert(ascending(ns) == seq![ns[m]] + a);
        assert(seq![ns[m]] + a =~= a.insert(0, ns[m]));
        vstd::seq_lib::to_multiset_insert(a, 0, ns[m]);
        vstd::seq_lib::to_multiset_remove(ns, m);
        vstd::seq_lib::to_multiset_contains(ns, ns[m]);
        assert(ns.to_multiset().remove(ns[m]).insert(ns[m]) =~= ns.to_multiset());
        assert forall|x: int, y: int| 0 <= x < y < ascending(ns).len() implies !seq_char_less(
            #[trigger] ascending(ns)[y],
            #[trigger] ascending(ns)[x],
        ) by {
            if x == 0 {
                let z = ascending(ns)[y];
                assert(z == a[y - 1]);
                assert(a.contains(z));
                vstd::seq_lib::to_multiset_contains(a, z);
                vstd::seq_lib::to_multiset_contains(rest, z);
                let j = choose|j: int| 0 <= j < rest.len() && rest[j] == z;
                if j < m {
                    assert(rest[j] == ns[j]);
                } else {
                    assert(rest[j] == ns[j + 1]);
                }
            } else {
                assert(ascending(ns)[x] == a[x - 1] && ascending(ns)[y] == a[y - 1]);
            }
        }
    }
}

proof fn lemma_missing_names(fields: Seq<StructLiteralField>, defs: Seq<FieldSymbol>)
    ensures
        forall|n: Seq<char>| #[trigger] missing_names(fields, defs).contains(n) <==> exists|j: int|
            0 <= j < defs.len() && (#[trigger] defs[j]).name@ == n && !provided_in(fields, n) && !has_default(defs[j].field_type.type_view()),
        (forall|a: int, b: int| 0 <= a < b < defs.len() ==> (#[trigger] defs[a]).name@ != (#[trigger] defs[b]).name@) ==> missing_names(
            fields,
            defs,
        ).no_duplicates(),
    decreases defs.len(),
{
    if defs.len() > 0 {
        let e = defs.drop_last();
        lemma_missing_names(fields, e);
        let last = defs.last();
        let prev = missing_names(fields, e);
        let here = !provided_in(fields, last.name@) && !has_default(last.field_type.type_view());
        assert(missing_names(fields, defs) == prev + if here { seq![last.name@] } else { Seq::empty() });
        assert forall|n: Seq<char>| #[trigger] missing_names(fields, defs).contains(n) <==> exists|j: int|
            0 <= j < defs.len() && (#[trigger] defs[j]).name@ == n && !provided_in(fields, n) && !has_default(defs[j].field_type.type_view()) by {
            let now = missing_names(fields, defs);
            if now.contains(n) {
                let i = choose|i: int| 0 <= i < now.len() && now[i] == n;
                if i < prev.len() {
                    assert(prev.contains(n));
                    let j = choose|j: int| 0 <= j < e.len() && (#[trigger] e[j]).name@ == n && !provided_in(fields, n) && !has_default(e[j].field_type.type_view());
                    assert(defs[j] == e[j]);
                } else {
                    assert(defs[defs.len() - 1] == last);
                }
            }
            if exists|j: int| 0 <= j < defs.len() && (#[trigger] defs[j]).name@ == n && !provided_in(fields, n) && !has_default(defs[j].field_type.type_view()) {
                let j = choose|j: int| 0 <= j < defs.len() && (#[trigger] defs[j]).name@ == n && !provided_in(fields, n) && !has_default(defs[j].field_type.type_view());
                if j < defs.len() - 1 {
                    assert(e[j] == defs[j]);
                    assert(prev.contains(n));
                    let i = choose|i: int| 0 <= i < prev.len() && prev[i] == n;
                    assert(now[i] == n);
                } else {
                    assert(now[prev.len() as int] == n);
                }
            }
        }
        if forall|a: int, b: int| 0 <= a < b < defs.len() ==> (#[trigger] defs[a]).name@ != (#[trigger] defs[b]).name@ {
            assert forall|a: int, b: int| 0 <= a < b < e.len() implies (#[trigger] e[a]).name@ != (#[trigger] e[b]).name@ by {
                assert(e[a] == defs[a] && e[b] == defs[b]);
            }
            if here {
                assert(!prev.contains(last.name@)) by {
                    if prev.contains(last.name@) {
                        let j = choose|j: int| 0 <= j < e.len() && (#[trigger] e[j]).name@ == last.name@ && !provided_in(fields, last.name@) && !has_default(e[j].field_type.type_view());
                        assert(defs[j] == e[j]);
                        assert(defs[defs.len() - 1] == last);
                    }
                }
                let now = missing_names(fields, defs);
                assert forall|x: int, y: int| 0 <= x < now.len() && 0 <= y < now.len() && x != y implies now[x] != now[y] by {
                    if x < prev.len() && y < prev.len() {
                    } else if x < prev.len() {
                        assert(prev.contains(now[x]));
                    } else {
                        assert(prev.contains(now[y]));
                    }
                }
            }
        }
    }
}

/// The `Missing field` errors of a literal of struct `s` with the fields
/// `defs` name, once each, exactly the fields that the literal leaves out and
/// that have no default, in ascending order of their names.
pub proof fn law_missing_fields(s: Seq<char>, fields: Seq<StructLiteralField>, defs: Seq<FieldSymbol>)
    ensures
        ({
            let names = ascending(missing_names(fields, defs));
            &&& missing_messages(s, fields, defs).len() == names.len()
            &&& forall|k: int| 0 <= k < names.len() ==> #[trigger] missing_messages(s, fields, defs)[k] == missing_message(s, names[k])
            &&& names_ascending(names)
            &&& names.to_multiset() == missing_names(fields, defs).to_multiset()
            &&& forall|n: Seq<char>| #[trigger] missing_names(fields, defs).contains(n) <==> exists|j: int|
                0 <= j < defs.len() && (#[trigger] defs[j]).name@ == n && !provided_in(fields, n) && !has_default(defs[j].field_type.type_view())
            &&& (forall|a: int, b: int| 0 <= a < b < defs.len() ==> (#[trigger] defs[a]).name@ != (#[trigger] defs[b]).name@)
                ==> missing_names(fields, defs).no_duplicates()
        }),
{
    lemma_ascending(missing_names(fields, defs));
    lemma_missing_names(fields, defs);
}

/// The message for the missing field `n` of a literal of struct `s`.
pub open spec fn missing_message(s: Seq<char>, n: Seq<char>) -> Seq<char> {
    "Missing field '"@ + n + "' in struct literal for '"@ + s + "' cannot be default-initialized"@
}

/// `Missing field` for each field of the struct without a value and
/// without a default, in ascending order of the field names.
pub open spec fn missing_messages(s: Seq<char>, fields: Seq<StructLiteralField>, defs: Seq<FieldSymbol>) -> Seq<Seq<char>> {
    ascending(missing_names(fields, defs)).map_values(|n: Seq<char>| missing_message(s, n))
}

pub open spec fn names_view(ns: Seq<String>) -> Seq<Seq<char>> {
    ns.map_values(|n: String| n@)
}

/// The index of the first least name of `names`.
fn least_name(names: &Vec<String>) -> (m: usize)
    requires
        names.len() > 0,
    ensures
        m as int == least_index(names_view(names@), names.len() as int),
        m < names.len(),
{
    let ghost v = names_view(names@);
    let mut best: usize = 0;
    let mut j: usize = 1;
    while j < names.len()
        invariant
            1 <= j <= names.len(),
            v == names_view(names@),
            best as int == least_index(v, j as int),
            best < j,
        decreases names.len() - j,
    {
        if str_less(names[j].as_str(), names[best].as_str()) {
            best = j;
        }
        j = j + 1;
    }
    best
}

/// The checks of the arguments of a call or divert against the declared
/// parameter types, argument `i` against parameter `i`.
pub open spec fn argument_checks(c: LiteralView, params: Seq<ParameterSymbol>, args: Seq<Expression>, n: int) -> Seq<Seq<char>>
    decreases n,
{
    if n <= 0 || n > args.len() || n > params.len() {
        Seq::empty()
    } else {
        argument_checks(c, params, args, n - 1) + match params[n - 1].declared_type {
            Some(t) => value_messages(c, args[n - 1], t.type_view(), params[n - 1].name@, Position::Root),
            None => Seq::empty(),
        }
    }
}

pub open spec fn all_argument_checks(c: LiteralView, params: Seq<ParameterSymbol>, args: Seq<Expression>) -> Seq<Seq<char>> {
    argument_checks(c, params, args, if args.len() < params.len() { args.len() as int } else { params.len() as int })
}

/// Whether argument `i` of a call to `target` has a declared type (and,
/// when `calls`, the target is a function).
pub open spec fn typed_argument(target: Option<TargetSymbol>, i: int, calls: bool) -> bool {
    match target {
        Some(t) => (!calls || t.is_function) && 0 <= i < t.parameters@.len() && t.parameters@[i].declared_type is Some,
        None => false,
    }
}

/// Array and `Dict` literals where no type is expected, and the literal
/// arguments of calls, found in an expression.
pub open spec fn walk_messages(c: LiteralView, e: Expression, expected: bool) -> Seq<Seq<char>>
    decreases e, 0nat,
{
    match e {
        Expression::ArrayLiteral(es) => (if !expected && c.mode == LiteralMode::Arrays {
            seq!["Array literal requires an expected array type"@]
        } else {
            Seq::empty()
        }) + list_walk(c, es@, expected),
        Expression::DictLiteral(es) => (if !expected && c.mode == LiteralMode::Dicts {
            seq!["Dict literal requires an expected Dict type"@]
        } else {
            Seq::empty()
        }) + entries_walk(c, es@, expected),
        Expression::StructLiteral(fs) => fields_walk(c, fs@, expected),
        Expression::TypedStructLiteral { literal_type: _, fields } => fields_walk(c, fields@, true),
        Expression::FunctionCall { name, args } => call_walk(c, resolve_target(c.idx.targets@, name@, c.module, c.flow), args@),
        Expression::QualifiedFunctionCall { name, args } => call_walk(
            c,
            resolve_target(c.idx.targets@, name.module@ + "::"@ + name.symbol@, c.module, c.flow),
            args@,
        ),
        Expression::FieldAccess { base, field: _ } => walk_messages(c, *base, false),
        Expression::IndexAccess { base, index } => walk_messages(c, *base, false) + walk_messages(c, *index, false),
        Expression::Binary { operator: _, left, right } => walk_messages(c, *left, false) + walk_messages(c, *right, false),
        Expression::Unary { operator: _, expression } => walk_messages(c, *expression, false),
        Expression::MultipleCondition(es) => list_walk(c, es@, false),
        _ => Seq::empty(),
    }
}

pub open spec fn list_walk(c: LiteralView, es: Seq<Expression>, expected: bool) -> Seq<Seq<char>>
    decreases es, 0nat,
{
    if es.len() == 0 {
        Seq::empty()
    } else {
        list_walk(c, es.drop_last(), expected) + walk_messages(c, es.last(), expected)
    }
}

pub open spec fn fields_walk(c: LiteralView, fs: Seq<StructLiteralField>, expected: bool) -> Seq<Seq<char>>
    decreases fs, 0nat,
{
    if fs.len() == 0 {
        Seq::empty()
    } else {
        fields_walk(c, fs.drop_last(), expected) + walk_messages(c, fs.last().expression, expected)
    }
}

pub open spec fn entries_walk(c: LiteralView, es: Seq<DictLiteralEntry>, expected: bool) -> Seq<Seq<char>>
    decreases es, 0nat,
{
    if es.len() == 0 {
        Seq::empty()
    } else {
        entries_walk(c, es.drop_last(), expected) + walk_messages(c, es.last().value, expected)
    }
}

/// The arguments of a call or divert: each walked, typed where the target
/// declares a type for it.
pub open spec fn arguments_walk(c: LiteralView, target: Option<TargetSymbol>, args: Seq<Expression>, calls: bool) -> Seq<Seq<char>>
    decreases args, 0nat,
{
    if args.len() == 0 {
        Seq::empty()
    } else {
        arguments_walk(c, target, args.drop_last(), calls) + walk_messages(
            c,
            args.last(),
            typed_argument(target, args.len() - 1, calls),
        )
    }
}

pub open spec fn call_walk(c: LiteralView, target: Option<TargetSymbol>, args: Seq<Expression>) -> Seq<Seq<char>>
    decreases args, 1nat,
{
    (match target {
        Some(t) => if t.is_function {
            all_argument_checks(c, t.parameters@, args)
        } else {
            Seq::empty()
        },
        None => Seq::empty(),
    }) + arguments_walk(c, target, args, true)
}

/// The declared type of the variable an assignment writes, when it is a
/// plain variable with one.
pub open spec fn assigned_type(c: LiteralView, t: AssignmentTarget) -> Option<TypeView> {
    match t {
        AssignmentTarget::Variable(n) => match visible_variable(c.idx.variables@, c.module, c.flow, n@) {
            Some(v) => match v.declared_type {
                Some(d) => Some(d.type_view()),
                None => None,
            },
            None => None,
        },
        _ => None,
    }
}

pub open spec fn opt_walk(c: LiteralView, e: Option<Expression>) -> Seq<Seq<char>> {
    match e {
        Some(e) => walk_messages(c, e, false),
        None => Seq::empty(),
    }
}

pub open spec fn branch_walk(c: LiteralView, bs: Seq<ConditionalBranch>) -> Seq<Seq<char>>
    decreases bs.len(),
{
    if bs.len() == 0 {
        Seq::empty()
    } else {
        branch_walk(c, bs.drop_last()) + opt_walk(c, bs.last().own_condition)
    }
}

/// The target a divert names, if it names one.
pub open spec fn divert_target_symbol(c: LiteralView, t: DivertTarget) -> Option<TargetSymbol> {
    match t {
        DivertTarget::Path(p) => resolve_target(c.idx.targets@, p@, c.module, c.flow),
        DivertTarget::QualifiedPath(q) => resolve_target(c.idx.targets@, q.module@ + "::"@ + q.symbol@, c.module, c.flow),
        _ => None,
    }
}

/// The literal messages of one object.
pub open spec fn object_messages(c: LiteralView, o: Object) -> Seq<Seq<char>> {
    match o {
        Object::VariableAssignment(a) => match a.expression {
            Some(e) => match (if a.kind == AssignmentKind::Assign {
                assigned_type(c, a.target)
            } else {
                match a.declared_type {
                    Some(t) => Some(t.type_view()),
                    None => None,
                }
            }) {
                Some(t) => value_messages(c, e, t, a.name@, Position::Root) + walk_messages(c, e, true),
                None => walk_messages(c, e, false),
            },
            None => Seq::empty(),
        },
        Object::ConstantDeclaration(d) => value_messages(c, d.expression, d.declared_type.type_view(), d.name@, Position::Root)
            + walk_messages(c, d.expression, true),
        Object::Divert(d) => (match divert_target_symbol(c, d.target) {
            Some(t) => all_argument_checks(c, t.parameters@, d.arguments@),
            None => Seq::empty(),
        }) + arguments_walk(c, divert_target_symbol(c, d.target), d.arguments@, false),
        Object::TunnelOnwards(k) => {
            let target = match k.override_target {
                Some(t) => divert_target_symbol(c, t),
                None => None,
            };
            (match target {
                Some(t) => all_argument_checks(c, t.parameters@, k.arguments@),
                None => Seq::empty(),
            }) + arguments_walk(c, target, k.arguments@, false)
        },
        Object::Expression(e) => (match e {
            Expression::TypedStructLiteral { literal_type, fields: _ } => value_messages(
                c,
                e,
                literal_type.type_view(),
                ""@,
                Position::Root,
            ),
            _ => Seq::empty(),
        }) + walk_messages(c, e, false),
        Object::LogicLine(e) => (match e {
            Expression::TypedStructLiteral { literal_type, fields: _ } => value_messages(
                c,
                e,
                literal_type.type_view(),
                ""@,
                Position::Root,
            ),
            _ => Seq::empty(),
        }) + walk_messages(c, e, false),
        Object::IncDec(k) => walk_messages(c, k.expression, false),
        Object::Return(r) => opt_walk(c, r.expression),
        Object::Choice(k) => opt_walk(c, k.condition),
        Object::Conditional(k) => opt_walk(c, k.initial_condition) + branch_walk(c, k.branches@),
        _ => Seq::empty(),
    }
}

pub open spec fn literal_checks(idx: TypeIndex, mode: LiteralMode, ss: Seq<SiteView>) -> Seq<DiagView>
    decreases ss.len(),
{
    if ss.len() == 0 {
        Seq::empty()
    } else {
        literal_checks(idx, mode, ss.drop_last()) + errors_at(
            object_messages(LiteralView { idx, module: ss.last().0, flow: ss.last().1, mode }, ss.last().2),
            object_span_spec(ss.last().2),
        )
    }
}

fn check_exact(e: &Expression, expected: &TypeName, name: &str, position: Position, ctx: &LiteralContext, msgs: &mut Vec<String>)
    ensures
        messages_view(final(msgs)@) == messages_view(old(msgs)@) + exact_messages(literal_view(*ctx), *e, expected.type_view(), name@, position),
{
    let ghost before = messages_view(msgs@);
    let ghost c = literal_view(*ctx);
    if !reports_at(ctx.mode, position) {
        assert(messages_view(msgs@) =~= before + exact_messages(c, *e, expected.type_view(), name@, position));
        return;
    }
    match value_type_of(e, expected, ctx) {
        Ok(actual) => {
            if !actual.same_as(expected) {
                let mut msg = concat3("Value for '", name, "' has type ");
                let a = display(&actual);
                msg.append(a.as_str());
                msg.append(" but expected ");
                let d = display(expected);
                msg.append(d.as_str());
                push_message(msgs, msg);
            }
        },
        Err(x) => {
            let primitive = match expected {
                TypeName::Primitive(_) => true,
                _ => false,
            };
            if primitive || has_enum(expected, ctx) {
                let mut msg = concat3("Cannot type-check value for '", name, "': ");
                msg.append(x.as_str());
                push_message(msgs, msg);
            }
        },
    }
    assert(messages_view(msgs@) =~= before + exact_messages(c, *e, expected.type_view(), name@, position));
}

/// The checks of a value where `expected` is expected.
fn check_value(e: &Expression, expected: &TypeName, name: &str, position: Position, ctx: &LiteralContext, msgs: &mut Vec<String>)
    ensures
        messages_view(final(msgs)@) == messages_view(old(msgs)@) + value_messages(literal_view(*ctx), *e, expected.type_view(), name@, position),
    decreases *e, 2nat,
{
    let ghost before = messages_view(msgs@);
    let ghost c = literal_view(*ctx);
    match e {
        Expression::ArrayLiteral(es) => match expected {
            TypeName::Array(et) => {
                proof {
                    assert(decreases_to!(*e => (*e)->ArrayLiteral_0));
                    assert(decreases_to!((*e)->ArrayLiteral_0 => es@));
                }
                check_array_literal(es, et, name, ctx, msgs);
            },
            _ => {
                let at = if position == Position::Root { Position::Element } else { position };
                if reports_at(ctx.mode, at) {
                    let mut msg = concat3("Value for '", name, "' is an array literal but expected ");
                    let d = display(expected);
                    msg.append(d.as_str());
                    push_message(msgs, msg);
                }
                assert(messages_view(msgs@) =~= before + value_messages(c, *e, expected.type_view(), name@, position));
            },
        },
        Expression::DictLiteral(entries) => match expected {
            TypeName::Dict { key_type, value_type } => {
                proof {
                    assert(decreases_to!(*e => (*e)->DictLiteral_0));
                    assert(decreases_to!((*e)->DictLiteral_0 => entries@));
                }
                check_dict_literal(entries, *key_type, value_type, name, ctx, msgs);
            },
            _ => {
                if ctx.mode == LiteralMode::Dicts {
                    let mut msg = concat3("Value for '", name, "' is a Dict literal but expected ");
                    let d = display(expected);
                    msg.append(d.as_str());
                    push_message(msgs, msg);
                }
                assert(messages_view(msgs@) =~= before + value_messages(c, *e, expected.type_view(), name@, position));
            },
        },
        Expression::StructLiteral(fields) => match expected {
            TypeName::Dict { .. } => {
                if fields.len() > 0 && ctx.mode == LiteralMode::Dicts {
                    let mut msg = concat3("Value for '", name, "' is a struct literal but expected ");
                    let d = display(expected);
                    msg.append(d.as_str());
                    push_message(msgs, msg);
                }
                assert(messages_view(msgs@) =~= before + value_messages(c, *e, expected.type_view(), name@, position));
            },
            _ => match struct_name_of(expected) {
                Some(sname) => {
                    proof {
                        assert(decreases_to!(*e => (*e)->StructLiteral_0));
                        assert(decreases_to!((*e)->StructLiteral_0 => fields@));
                    }
                    check_struct_literal(sname.as_str(), fields, ctx, msgs);
                },
                None => check_exact(e, expected, name, position, ctx, msgs),
            },
        },
        Expression::TypedStructLiteral { literal_type, fields } => {
            check_exact(e, expected, name, position, ctx, msgs);
            match struct_name_of(literal_type) {
                Some(sname) => {
                    proof {
                        assert(decreases_to!(*e => (*e)->TypedStructLiteral_fields));
                        assert(decreases_to!((*e)->TypedStructLiteral_fields => fields@));
                    }
                    check_struct_literal(sname.as_str(), fields, ctx, msgs);
                },
                None => {},
            }
            assert(messages_view(msgs@) =~= before + value_messages(c, *e, expected.type_view(), name@, position));
        },
        _ => {
            if position != Position::Root {
                check_exact(e, expected, name, position, ctx, msgs);
            } else {
                assert(messages_view(msgs@) =~= before + value_messages(c, *e, expected.type_view(), name@, position));
            }
        },
    }
}

fn check_array_literal(es: &Vec<Expression>, et: &TypeName, name: &str, ctx: &LiteralContext, msgs: &mut Vec<String>)
    ensures
        messages_view(final(msgs)@) == messages_view(old(msgs)@) + array_messages(literal_view(*ctx), es@, et.type_view(), name@),
    decreases es@, 1nat,
{
    let ghost before = messages_view(msgs@);
    let ghost c = literal_view(*ctx);
    let mut i: usize = 0;
    assert(messages_view(msgs@) =~= before + array_messages(c, es@.take(0), et.type_view(), name@));
    while i < es.len()
        invariant
            i <= es@.len(),
            c == literal_view(*ctx),
            messages_view(msgs@) == before + array_messages(c, es@.take(i as int), et.type_view(), name@),
        decreases es.len() - i,
    {
        proof {
            assert(decreases_to!(es@ => es@[i as int]));
            assert(es@.take(i + 1).drop_last() =~= es@.take(i as int));
        }
        let index = decimal_text(i as u64);
        let mut element_name = concat3(name, "[", index.as_str());
        element_name.append("]");
        check_value(&es[i], et, element_name.as_str(), Position::Element, ctx, msgs);
        assert(messages_view(msgs@) =~= before + array_messages(c, es@.take(i + 1), et.type_view(), name@));
        i = i + 1;
    }
    assert(es@.take(es@.len() as int) =~= es@);
}

fn key_text(k: &DictKey) -> (r: String)
    ensures
        r@ == key_shown(*k),
{
    match k {
        DictKey::String(text) => concat3("\"", text.as_str(), "\""),
        DictKey::Int(n) => crate::text::signed_decimal_text(*n),
    }
}

fn same_key(a: &DictKey, b: &DictKey) -> (r: bool)
    ensures
        r == same_key_spec(*a, *b),
{
    match a {
        DictKey::String(x) => match b { DictKey::String(y) => str_eq(x.as_str(), y.as_str()), _ => false },
        DictKey::Int(x) => match b { DictKey::Int(y) => *x == *y, _ => false },
    }
}

fn repeated_before(entries: &Vec<DictLiteralEntry>, i: usize) -> (r: bool)
    requires
        i < entries@.len(),
    ensures
        r == key_repeated(entries@.take(i as int), entries@[i as int].key),
{
    let ghost earlier = entries@.take(i as int);
    let mut k: usize = 0;
    while k < i
        invariant
            k <= i < entries@.len(),
            earlier == entries@.take(i as int),
            forall|j: int| 0 <= j < k ==> !same_key_spec(#[trigger] earlier[j].key, entries@[i as int].key),
        decreases i - k,
    {
        if same_key(&entries[k].key, &entries[i].key) {
            assert(same_key_spec(earlier[k as int].key, entries@[i as int].key));
            return true;
        }
        k = k + 1;
    }
    false
}

fn check_dict_literal(entries: &Vec<DictLiteralEntry>, key_type: DictKeyType, value_type: &TypeName, name: &str, ctx: &LiteralContext, msgs: &mut Vec<String>)
    ensures
        messages_view(final(msgs)@) == messages_view(old(msgs)@) + dict_messages(literal_view(*ctx), entries@, key_type, value_type.type_view(), name@),
    decreases entries@, 1nat,
{
    let ghost before = messages_view(msgs@);
    let ghost c = literal_view(*ctx);
    let ghost v = value_type.type_view();
    let mut i: usize = 0;
    assert(messages_view(msgs@) =~= before + dict_messages(c, entries@.take(0), key_type, v, name@));
    while i < entries.len()
        invariant
            i <= entries@.len(),
            c == literal_view(*ctx),
            v == value_type.type_view(),
            messages_view(msgs@) == before + dict_messages(c, entries@.take(i as int), key_type, v, name@),
        decreases entries.len() - i,
    {
        proof {
            assert(decreases_to!(entries@ => entries@[i as int]));
            assert(decreases_to!(entries@[i as int] => entries@[i as int].value));
            assert(entries@.take(i + 1).drop_last() =~= entries@.take(i as int));
            assert(entries@.take(i + 1).last() == entries@[i as int]);
        }
        let ghost mid = messages_view(msgs@);
        let entry = &entries[i];
        let ghost earlier = entries@.take(i as int);
        let ghost dup: Seq<Seq<char>> = if key_repeated(earlier, entry.key) && c.mode == LiteralMode::Dicts {
            seq!["Duplicate key "@ + key_shown(entry.key) + " in Dict literal for '"@ + name@ + "'"@]
        } else {
            Seq::empty()
        };
        let ghost wrong: Seq<Seq<char>> = if !key_matches(entry.key, key_type) && c.mode == LiteralMode::Dicts {
            seq!["Dict literal key for '"@ + name@ + "' has type "@ + key_kind(entry.key) + " but expected "@ + key_display(key_type)]
        } else {
            Seq::empty()
        };
        if repeated_before(entries, i) && ctx.mode == LiteralMode::Dicts {
            let shown = key_text(&entry.key);
            let mut msg = concat3("Duplicate key ", shown.as_str(), " in Dict literal for '");
            msg.append(name);
            msg.append("'");
            proof {
                reveal_strlit("'");
            }
            push_message(msgs, msg);
        }
        assert(messages_view(msgs@) =~= mid + dup);
        let matches = match (&entry.key, key_type) {
            (DictKey::String(_), DictKeyType::String) => true,
            (DictKey::Int(_), DictKeyType::Int) => true,
            _ => false,
        };
        if !matches && ctx.mode == LiteralMode::Dicts {
            let mut msg = concat3("Dict literal key for '", name, "' has type ");
            msg.append(match &entry.key {
                DictKey::String(_) => "string",
                DictKey::Int(_) => "int",
            });
            msg.append(" but expected ");
            msg.append(match key_type {
                DictKeyType::String => "string",
                DictKeyType::Int => "int",
            });
            push_message(msgs, msg);
        }
        assert(messages_view(msgs@) =~= mid + dup + wrong);
        let value_name = if ctx.mode == LiteralMode::Arrays {
            concat2(name, "[]")
        } else {
            let shown = key_text(&entry.key);
            let mut value_name = concat3(name, "[", shown.as_str());
            value_name.append("]");
            value_name
        };
        assert(value_name@ == entry_value_name(c, name@, entry.key));
        let ghost mid2 = messages_view(msgs@);
        check_value(&entry.value, value_type, value_name.as_str(), Position::DictValue, ctx, msgs);
        assert(messages_view(msgs@) =~= mid + entry_messages(c, entries@.take(i as int), *entry, key_type, v, name@));
        assert(messages_view(msgs@) =~= before + dict_messages(c, entries@.take(i + 1), key_type, v, name@));
        i = i + 1;
    }
    assert(entries@.take(entries@.len() as int) =~= entries@);
}

fn provided_before(fields: &Vec<StructLiteralField>, end: usize, name: &str) -> (r: bool)
    requires
        end <= fields@.len(),
    ensures
        r == provided_in(fields@.take(end as int), name@),
{
    let ghost earlier = fields@.take(end as int);
    let mut i: usize = 0;
    while i < end
        invariant
            i <= end <= fields@.len(),
            earlier == fields@.take(end as int),
            forall|j: int| 0 <= j < i ==> (#[trigger] earlier[j]).name@ != name@,
        decreases end - i,
    {
        if str_eq(fields[i].name.as_str(), name) {
            assert(earlier[i as int].name@ == name@);
            return true;
        }
        i = i + 1;
    }
    false
}

fn module_prefix(s: &str) -> (r: Option<String>)
    ensures
        match r {
            Some(m) => module_part(s@) == Some(m@),
            None => module_part(s@) is None,
        },
{
    let chars = crate::text::chars_of(s);
    match crate::analysis::modules::uses::double_colon_index(&chars) {
        Some(i) => {
            let m = crate::text::string_from_chars(&chars, 0, i);
            assert(m@ =~= s@.take(i as int));
            Some(m)
        },
        None => None,
    }
}

/// The checks of the fields of a literal of struct `s`.
fn check_struct_literal(s: &str, fields: &Vec<StructLiteralField>, ctx: &LiteralContext, msgs: &mut Vec<String>)
    ensures
        messages_view(final(msgs)@) == messages_view(old(msgs)@) + struct_messages(literal_view(*ctx), s@, fields@),
    decreases fields@, 2nat,
{
    let ghost before = messages_view(msgs@);
    let ghost c = literal_view(*ctx);
    let qualified = contains_double_colon(s);
    let key = if qualified {
        String::from_str(s)
    } else {
        scoped_name(ctx.module, s)
    };
    let symbol = match find_struct(&ctx.idx.structs, key.as_str()) {
        Some(symbol) => symbol,
        None => {
            if ctx.mode == LiteralMode::Structs {
                push_message(msgs, concat3("Unknown struct type '", s, "' for struct literal"));
            }
            assert(messages_view(msgs@) =~= before + struct_messages(c, s@, fields@));
            return;
        },
    };
    let module = module_prefix(s);
    let ghost defs = symbol.fields@;
    let mut i: usize = 0;
    assert(messages_view(msgs@) =~= before + field_list_messages(c, s@, fields@.take(0), defs));
    while i < fields.len()
        invariant
            i <= fields@.len(),
            c == literal_view(*ctx),
            defs == symbol.fields@,
            match module {
                Some(m) => module_part(s@) == Some(m@),
                None => module_part(s@) is None,
            },
            messages_view(msgs@) == before + field_list_messages(c, s@, fields@.take(i as int), defs),
        decreases fields.len() - i,
    {
        proof {
            assert(decreases_to!(fields@ => fields@[i as int]));
            assert(decreases_to!(fields@[i as int] => fields@[i as int].expression));
            assert(fields@.take(i + 1).drop_last() =~= fields@.take(i as int));
            assert(fields@.take(i + 1).last() == fields@[i as int]);
        }
        let ghost mid = messages_view(msgs@);
        let field = &fields[i];
        if provided_before(fields, i, field.name.as_str()) {
            if ctx.mode == LiteralMode::Structs {
                let mut msg = concat3("Duplicate field '", field.name.as_str(), "' in struct literal for '");
                msg.append(s);
                msg.append("'");
                push_message(msgs, msg);
            }
        } else {
            match find_field(&symbol.fields, field.name.as_str()) {
                None => {
                    if ctx.mode == LiteralMode::Structs {
                        let mut msg = concat3("Unknown field '", field.name.as_str(), "' in struct literal for '");
                        msg.append(s);
                        msg.append("'");
                        push_message(msgs, msg);
                    }
                },
                Some(def) => {
                    let field_type = match &module {
                        Some(m) => qualify_type(&def.field_type, m.as_str()),
                        None => def.field_type.duplicate(),
                    };
                    let field_name = concat3(s, ".", field.name.as_str());
                    check_value(&field.expression, &field_type, field_name.as_str(), Position::Field, ctx, msgs);
                },
            }
        }
        assert(messages_view(msgs@) =~= mid + field_messages(c, s@, fields@.take(i as int), *field, defs));
        assert(messages_view(msgs@) =~= before + field_list_messages(c, s@, fields@.take(i + 1), defs));
        i = i + 1;
    }
    assert(fields@.take(fields@.len() as int) =~= fields@);
    let ghost after_fields = messages_view(msgs@);
    if ctx.mode == LiteralMode::Structs {
        let mut k: usize = 0;
        let mut names: Vec<String> = Vec::new();
        assert(names_view(names@) =~= missing_names(fields@, defs.take(0)));
        while k < symbol.fields.len()
            invariant
                k <= defs.len(),
                defs == symbol.fields@,
                messages_view(msgs@) == after_fields,
                names_view(names@) == missing_names(fields@, defs.take(k as int)),
            decreases symbol.fields.len() - k,
        {
            assert(defs.take(k + 1).drop_last() =~= defs.take(k as int));
            assert(defs.take(k + 1).last() == defs[k as int]);
            let def = &symbol.fields[k];
            let present = provided_before(fields, fields.len(), def.name.as_str());
            assert(fields@.take(fields@.len() as int) =~= fields@);
            let defaultable = match &def.field_type {
                TypeName::Primitive(PrimitiveType::DivertTarget) => false,
                TypeName::Void => false,
                _ => true,
            };
            let ghost before_names = names@;
            if !present && !defaultable {
                names.push(def.name.clone());
                assert(names_view(names@) =~= names_view(before_names) + seq![def.name@]);
            } else {
                assert(names_view(names@) =~= names_view(before_names) + Seq::<Seq<char>>::empty());
            }
            assert(names_view(names@) =~= missing_names(fields@, defs.take(k + 1)));
            k = k + 1;
        }
        assert(defs.take(defs.len() as int) =~= defs);
        let ghost all = names_view(names@);
        let ghost done: Seq<Seq<char>> = Seq::empty();
        assert(ascending(all) =~= done + ascending(names_view(names@)));
        assert(messages_view(msgs@) =~= after_fields + done.map_values(|n: Seq<char>| missing_message(s@, n)));
        while names.len() > 0
            invariant
                ascending(all) == done + ascending(names_view(names@)),
                messages_view(msgs@) == after_fields + done.map_values(|n: Seq<char>| missing_message(s@, n)),
            decreases names.len(),
        {
            let ghost cur = names_view(names@);
            let m = least_name(&names);
            proof {
                lemma_least_index(cur, cur.len() as int);
            }
            let n = names.remove(m);
            assert(names_view(names@) =~= cur.remove(m as int));
            assert(ascending(cur) == seq![cur[m as int]] + ascending(cur.remove(m as int)));
            let mut msg = concat3("Missing field '", n.as_str(), "' in struct literal for '");
            msg.append(s);
            msg.append("' cannot be default-initialized");
            push_message(msgs, msg);
            proof {
                let d2 = done.push(n@);
                assert(d2 + ascending(names_view(names@)) =~= done + ascending(cur));
                assert(d2.map_values(|x: Seq<char>| missing_message(s@, x)) =~= done.map_values(
                    |x: Seq<char>| missing_message(s@, x),
                ).push(missing_message(s@, n@)));
                done = d2;
            }
        }
        assert(done + Seq::<Seq<char>>::empty() =~= done);
        assert(messages_view(msgs@) =~= after_fields + missing_messages(s@, fields@, defs));
    } else {
        assert(messages_view(msgs@) =~= after_fields + Seq::<Seq<char>>::empty());
    }
    assert(messages_view(msgs@) =~= before + struct_messages(c, s@, fields@));
}

/// The checks of the arguments of a call or divert against the declared
/// types of the parameters of `params`.
fn check_arguments(params: &Vec<ParameterSymbol>, args: &Vec<Expression>, ctx: &LiteralContext, msgs: &mut Vec<String>)
    ensures
        messages_view(final(msgs)@) == messages_view(old(msgs)@) + all_argument_checks(literal_view(*ctx), params@, args@),
{
    let ghost before = messages_view(msgs@);
    let ghost c = literal_view(*ctx);
    let n: usize = if args.len() < params.len() { args.len() } else { params.len() };
    let mut i: usize = 0;
    assert(messages_view(msgs@) =~= before + argument_checks(c, params@, args@, 0));
    while i < n
        invariant
            i <= n,
            n <= args@.len(),
            n <= params@.len(),
            c == literal_view(*ctx),
            messages_view(msgs@) == before + argument_checks(c, params@, args@, i as int),
        decreases n - i,
    {
        match &params[i].declared_type {
            Some(t) => check_value(&args[i], t, params[i].name.as_str(), Position::Root, ctx, msgs),
            None => {},
        }
        assert(messages_view(msgs@) =~= before + argument_checks(c, params@, args@, i + 1));
        i = i + 1;
    }
}

fn is_typed_argument(target: &Option<&TargetSymbol>, i: usize, calls: bool) -> (r: bool)
    ensures
        r == typed_argument(
            match *target {
                Some(t) => Some(*t),
                None => None,
            },
            i as int,
            calls,
        ),
{
    match target {
        Some(t) => (!calls || t.is_function) && i < t.parameters.len() && t.parameters[i].declared_type.is_some(),
        None => false,
    }
}

pub open spec fn deref_target(t: Option<&TargetSymbol>) -> Option<TargetSymbol> {
    match t {
        Some(t) => Some(*t),
        None => None,
    }
}

/// Walks an expression for literals and call arguments.
fn walk(e: &Expression, expected: bool, ctx: &LiteralContext, msgs: &mut Vec<String>)
    ensures
        messages_view(final(msgs)@) == messages_view(old(msgs)@) + walk_messages(literal_view(*ctx), *e, expected),
    decreases *e, 0nat,
{
    let ghost before = messages_view(msgs@);
    let ghost c = literal_view(*ctx);
    match e {
        Expression::ArrayLiteral(es) => {
            if !expected && ctx.mode == LiteralMode::Arrays {
                push_message(msgs, String::from_str("Array literal requires an expected array type"));
            }
            proof {
                assert(decreases_to!(*e => (*e)->ArrayLiteral_0));
                assert(decreases_to!((*e)->ArrayLiteral_0 => es@));
            }
            walk_list(es, expected, ctx, msgs);
            assert(messages_view(msgs@) =~= before + walk_messages(c, *e, expected));
        },
        Expression::DictLiteral(es) => {
            if !expected && ctx.mode == LiteralMode::Dicts {
                push_message(msgs, String::from_str("Dict literal requires an expected Dict type"));
            }
            proof {
                assert(decreases_to!(*e => (*e)->DictLiteral_0));
                assert(decreases_to!((*e)->DictLiteral_0 => es@));
            }
            walk_entries(es, expected, ctx, msgs);
            assert(messages_view(msgs@) =~= before + walk_messages(c, *e, expected));
        },
        Expression::StructLiteral(fs) => {
            proof {
                assert(decreases_to!(*e => (*e)->StructLiteral_0));
                assert(decreases_to!((*e)->StructLiteral_0 => fs@));
            }
            walk_fields(fs, expected, ctx, msgs);
        },
        Expression::TypedStructLiteral { literal_type: _, fields } => {
            proof {
                assert(decreases_to!(*e => (*e)->TypedStructLiteral_fields));
                assert(decreases_to!((*e)->TypedStructLiteral_fields => fields@));
            }
            walk_fields(fields, true, ctx, msgs);
        },
        Expression::FunctionCall { name, args } => {
            let target = resolve_target_symbol(&ctx.idx.targets, name.as_str(), ctx.module, ctx.flow);
            proof {
                assert(decreases_to!(*e => (*e)->FunctionCall_args));
                assert(decreases_to!((*e)->FunctionCall_args => args@));
            }
            walk_call(&target, args, ctx, msgs);
        },
        Expression::QualifiedFunctionCall { name, args } => {
            let full = concat3(name.module.as_str(), "::", name.symbol.as_str());
            let target = resolve_target_symbol(&ctx.idx.targets, full.as_str(), ctx.module, ctx.flow);
            proof {
                assert(decreases_to!(*e => (*e)->QualifiedFunctionCall_args));
                assert(decreases_to!((*e)->QualifiedFunctionCall_args => args@));
            }
            walk_call(&target, args, ctx, msgs);
        },
        Expression::FieldAccess { base, field: _ } => walk(base, false, ctx, msgs),
        Expression::IndexAccess { base, index } => {
            walk(base, false, ctx, msgs);
            walk(index, false, ctx, msgs);
            assert(messages_view(msgs@) =~= before + walk_messages(c, *e, expected));
        },
        Expression::Binary { operator: _, left, right } => {
            walk(left, false, ctx, msgs);
            walk(right, false, ctx, msgs);
            assert(messages_view(msgs@) =~= before + walk_messages(c, *e, expected));
        },
        Expression::Unary { operator: _, expression } => walk(expression, false, ctx, msgs),
        Expression::MultipleCondition(es) => {
            proof {
                assert(decreases_to!(*e => (*e)->MultipleCondition_0));
                assert(decreases_to!((*e)->MultipleCondition_0 => es@));
            }
            walk_list(es, false, ctx, msgs);
        },
        _ => {
            assert(messages_view(msgs@) =~= before + walk_messages(c, *e, expected));
        },
    }
}

fn walk_list(es: &Vec<Expression>, expected: bool, ctx: &LiteralContext, msgs: &mut Vec<String>)
    ensures
        messages_view(final(msgs)@) == messages_view(old(msgs)@) + list_walk(literal_view(*ctx), es@, expected),
    decreases es@, 0nat,
{
    let ghost before = messages_view(msgs@);
    let ghost c = literal_view(*ctx);
    let mut i: usize = 0;
    assert(messages_view(msgs@) =~= before + list_walk(c, es@.take(0), expected));
    while i < es.len()
        invariant
            i <= es@.len(),
            c == literal_view(*ctx),
            messages_view(msgs@) == before + list_walk(c, es@.take(i as int), expected),
        decreases es.len() - i,
    {
        proof {
            assert(decreases_to!(es@ => es@[i as int]));
            assert(es@.take(i + 1).drop_last() =~= es@.take(i as int));
        }
        walk(&es[i], expected, ctx, msgs);
        assert(messages_view(msgs@) =~= before + list_walk(c, es@.take(i + 1), expected));
        i = i + 1;
    }
    assert(es@.take(es@.len() as int) =~= es@);
}

fn walk_fields(fs: &Vec<StructLiteralField>, expected: bool, ctx: &LiteralContext, msgs: &mut Vec<String>)
    ensures
        messages_view(final(msgs)@) == messages_view(old(msgs)@) + fields_walk(literal_view(*ctx), fs@, expected),
    decreases fs@, 0nat,
{
    let ghost before = messages_view(msgs@);
    let ghost c = literal_view(*ctx);
    let mut i: usize = 0;
    assert(messages_view(msgs@) =~= before + fields_walk(c, fs@.take(0), expected));
    while i < fs.len()
        invariant
            i <= fs@.len(),
            c == literal_view(*ctx),
            messages_view(msgs@) == before + fields_walk(c, fs@.take(i as int), expected),
        decreases fs.len() - i,
    {
        proof {
            assert(decreases_to!(fs@ => fs@[i as int]));
            assert(decreases_to!(fs@[i as int] => fs@[i as int].expression));
            assert(fs@.take(i + 1).drop_last() =~= fs@.take(i as int));
        }
        walk(&fs[i].expression, expected, ctx, msgs);
        assert(messages_view(msgs@) =~= before + fields_walk(c, fs@.take(i + 1), expected));
        i = i + 1;
    }
    assert(fs@.take(fs@.len() as int) =~= fs@);
}

fn walk_entries(es: &Vec<DictLiteralEntry>, expected: bool, ctx: &LiteralContext, msgs: &mut Vec<String>)
    ensures
        messages_view(final(msgs)@) == messages_view(old(msgs)@) + entries_walk(literal_view(*ctx), es@, expected),
    decreases es@, 0nat,
{
    let ghost before = messages_view(msgs@);
    let ghost c = literal_view(*ctx);
    let mut i: usize = 0;
    assert(messages_view(msgs@) =~= before + entries_walk(c, es@.take(0), expected));
    while i < es.len()
        invariant
            i <= es@.len(),
            c == literal_view(*ctx),
            messages_view(msgs@) == before + entries_walk(c, es@.take(i as int), expected),
        decreases es.len() - i,
    {
        proof {
            assert(decreases_to!(es@ => es@[i as int]));
            assert(decreases_to!(es@[i as int] => es@[i as int].value));
            assert(es@.take(i + 1).drop_last() =~= es@.take(i as int));
        }
        walk(&es[i].value, expected, ctx, msgs);
        assert(messages_view(msgs@) =~= before + entries_walk(c, es@.take(i + 1), expected));
        i = i + 1;
    }
    assert(es@.take(es@.len() as int) =~= es@);
}

fn walk_arguments(target: &Option<&TargetSymbol>, args: &Vec<Expression>, calls: bool, ctx: &LiteralContext, msgs: &mut Vec<String>)
    ensures
        messages_view(final(msgs)@) == messages_view(old(msgs)@) + arguments_walk(literal_view(*ctx), deref_target(*target), args@, calls),
    decreases args@, 0nat,
{
    let ghost before = messages_view(msgs@);
    let ghost c = literal_view(*ctx);
    let ghost t = deref_target(*target);
    let mut i: usize = 0;
    assert(messages_view(msgs@) =~= before + arguments_walk(c, t, args@.take(0), calls));
    while i < args.len()
        invariant
            i <= args@.len(),
            c == literal_view(*ctx),
            t == deref_target(*target),
            messages_view(msgs@) == before + arguments_walk(c, t, args@.take(i as int), calls),
        decreases args.len() - i,
    {
        proof {
            assert(decreases_to!(args@ => args@[i as int]));
            assert(args@.take(i + 1).drop_last() =~= args@.take(i as int));
        }
        let typed = is_typed_argument(target, i, calls);
        walk(&args[i], typed, ctx, msgs);
        assert(messages_view(msgs@) =~= before + arguments_walk(c, t, args@.take(i + 1), calls));
        i = i + 1;
    }
    assert(args@.take(args@.len() as int) =~= args@);
}

fn walk_call(target: &Option<&TargetSymbol>, args: &Vec<Expression>, ctx: &LiteralContext, msgs: &mut Vec<String>)
    ensures
        messages_view(final(msgs)@) == messages_view(old(msgs)@) + call_walk(literal_view(*ctx), deref_target(*target), args@),
    decreases args@, 1nat,
{
    let ghost before = messages_view(msgs@);
    match target {
        Some(t) => {
            if t.is_function {
                check_arguments(&t.parameters, args, ctx, msgs);
            }
        },
        None => {},
    }
    walk_arguments(target, args, true, ctx, msgs);
    assert(messages_view(msgs@) =~= before + call_walk(literal_view(*ctx), deref_target(*target), args@));
}

fn assigned_variable_type<'a>(target: &AssignmentTarget, ctx: &LiteralContext<'a>) -> (r: Option<&'a TypeName>)
    ensures
        match r {
            Some(t) => assigned_type(literal_view(*ctx), *target) == Some(t.type_view()),
            None => assigned_type(literal_view(*ctx), *target) is None,
        },
{
    match target {
        AssignmentTarget::Variable(n) => {
            let local = match ctx.flow {
                Some(p) => find_last_variable(&ctx.idx.variables, ctx.module, Some(p), n.as_str()),
                None => None,
            };
            let found = match local {
                Some(v) => Some(v),
                None => find_last_variable(&ctx.idx.variables, ctx.module, None, n.as_str()),
            };
            match found {
                Some(v) => match &v.declared_type {
                    Some(t) => Some(t),
                    None => None,
                },
                None => None,
            }
        },
        _ => None,
    }
}

fn walk_optional(e: &Option<Expression>, ctx: &LiteralContext, msgs: &mut Vec<String>)
    ensures
        messages_view(final(msgs)@) == messages_view(old(msgs)@) + opt_walk(literal_view(*ctx), *e),
{
    match e {
        Some(e) => walk(e, false, ctx, msgs),
        None => {
            assert(messages_view(msgs@) =~= messages_view(msgs@) + opt_walk(literal_view(*ctx), None));
        },
    }
}

fn divert_symbol<'a>(t: &DivertTarget, ctx: &LiteralContext<'a>) -> (r: Option<&'a TargetSymbol>)
    ensures
        deref_target(r) == divert_target_symbol(literal_view(*ctx), *t),
{
    match t {
        DivertTarget::Path(p) => resolve_target_symbol(&ctx.idx.targets, p.as_str(), ctx.module, ctx.flow),
        DivertTarget::QualifiedPath(q) => {
            let full = concat3(q.module.as_str(), "::", q.symbol.as_str());
            resolve_target_symbol(&ctx.idx.targets, full.as_str(), ctx.module, ctx.flow)
        },
        _ => None,
    }
}

/// The literal messages of one object.
fn check_object(o: &Object, ctx: &LiteralContext, msgs: &mut Vec<String>)
    ensures
        messages_view(final(msgs)@) == messages_view(old(msgs)@) + object_messages(literal_view(*ctx), *o),
{
    let ghost before = messages_view(msgs@);
    let ghost c = literal_view(*ctx);
    match o {
        Object::VariableAssignment(a) => match &a.expression {
            Some(e) => {
                let expected: Option<&TypeName> = if a.kind == AssignmentKind::Assign {
                    assigned_variable_type(&a.target, ctx)
                } else {
                    match &a.declared_type {
                        Some(t) => Some(t),
                        None => None,
                    }
                };
                match expected {
                    Some(t) => {
                        check_value(e, t, a.name.as_str(), Position::Root, ctx, msgs);
                        walk(e, true, ctx, msgs);
                    },
                    None => walk(e, false, ctx, msgs),
                }
                assert(messages_view(msgs@) =~= before + object_messages(c, *o));
            },
            None => {
                assert(messages_view(msgs@) =~= before + object_messages(c, *o));
            },
        },
        Object::ConstantDeclaration(d) => {
            check_value(&d.expression, &d.declared_type, d.name.as_str(), Position::Root, ctx, msgs);
            walk(&d.expression, true, ctx, msgs);
            assert(messages_view(msgs@) =~= before + object_messages(c, *o));
        },
        Object::Divert(d) => {
            let target = divert_symbol(&d.target, ctx);
            match target {
                Some(t) => check_arguments(&t.parameters, &d.arguments, ctx, msgs),
                None => {},
            }
            walk_arguments(&target, &d.arguments, false, ctx, msgs);
            assert(messages_view(msgs@) =~= before + object_messages(c, *o));
        },
        Object::TunnelOnwards(k) => {
            let target = match &k.override_target {
                Some(t) => divert_symbol(t, ctx),
                None => None,
            };
            match target {
                Some(t) => check_arguments(&t.parameters, &k.arguments, ctx, msgs),
                None => {},
            }
            walk_arguments(&target, &k.arguments, false, ctx, msgs);
            assert(messages_view(msgs@) =~= before + object_messages(c, *o));
        },
        Object::Expression(e) | Object::LogicLine(e) => {
            match e {
                Expression::TypedStructLiteral { literal_type, fields: _ } => {
                    check_value(e, literal_type, "", Position::Root, ctx, msgs);
                },
                _ => {},
            }
            walk(e, false, ctx, msgs);
            proof { reveal_strlit(""); }
            assert(messages_view(msgs@) =~= before + object_messages(c, *o));
        },
        Object::IncDec(k) => walk(&k.expression, false, ctx, msgs),
        Object::Return(r) => walk_optional(&r.expression, ctx, msgs),
        Object::Choice(k) => walk_optional(&k.condition, ctx, msgs),
        Object::Conditional(k) => {
            walk_optional(&k.initial_condition, ctx, msgs);
            let ghost first = messages_view(msgs@);
            let ghost bs = k.branches@;
            let mut b: usize = 0;
            assert(messages_view(msgs@) =~= first + branch_walk(c, bs.take(0)));
            while b < k.branches.len()
                invariant
                    b <= bs.len(),
                    bs == k.branches@,
                    c == literal_view(*ctx),
                    messages_view(msgs@) == first + branch_walk(c, bs.take(b as int)),
                decreases k.branches.len() - b,
            {
                assert(bs.take(b + 1).drop_last() =~= bs.take(b as int));
                walk_optional(&k.branches[b].own_condition, ctx, msgs);
                assert(messages_view(msgs@) =~= first + branch_walk(c, bs.take(b + 1)));
                b = b + 1;
            }
            assert(bs.take(bs.len() as int) =~= bs);
            assert(messages_view(msgs@) =~= before + object_messages(c, *o));
        },
        _ => {
            assert(messages_view(msgs@) =~= before + object_messages(c, *o));
        },
    }
}

/// The literal errors of `story` for `mode`, against the index `idx`, each
/// at the object that holds the literal, in reading order.
#[verifier::rlimit(40)]
pub fn literal_diagnostics_with_index(story: &Story, idx: &TypeIndex, mode: LiteralMode) -> (r: Vec<Diagnostic>)
    ensures
        diag_views(r@) == literal_checks(*idx, mode, story_sites(*story)),
{
    let sites = collect_sites(story);
    let ghost sv = sites_view(sites@);
    let mut out: Vec<Diagnostic> = Vec::new();
    let mut k: usize = 0;
    assert(diag_views(out@) =~= literal_checks(*idx, mode, sv.take(0)));
    while k < sites.len()
        invariant
            k <= sites@.len(),
            sv == sites_view(sites@),
            diag_views(out@) == literal_checks(*idx, mode, sv.take(k as int)),
        decreases sites.len() - k,
    {
        let site = &sites[k];
        assert(sv.take(k + 1).drop_last() =~= sv.take(k as int));
        assert(sv.take(k + 1).last() == site_view(*site));
        let f: Option<&str> = match &site.flow {
            Some(p) => Some(p.as_str()),
            None => None,
        };
        assert(opt_str_view(f) == opt_string_view(site.flow));
        let ctx = LiteralContext { idx, module: site.module, flow: f, mode };
        let mut msgs: Vec<String> = Vec::new();
        assert(messages_view(msgs@) =~= Seq::<Seq<char>>::empty());
        check_object(site.object, &ctx, &mut msgs);
        assert(messages_view(msgs@) =~= object_messages(literal_view(ctx), *site.object));
        let span = object_span(site.object);
        push_errors(&msgs, &span, &mut out);
        k = k + 1;
    }
    assert(sv.take(sv.len() as int) =~= sv);
    out
}

/// Errors in array literals: elements of the wrong type, array literals
/// where another type or no type is expected.
pub fn array_literal_diagnostics(story: &Story) -> (r: Vec<Diagnostic>)
    ensures
        exists|idx: TypeIndex| #[trigger] is_index_of(idx, *story) && diag_views(r@) == literal_checks(idx, LiteralMode::Arrays, story_sites(*story)),
{
    let idx = build_type_index(story);
    literal_diagnostics_with_index(story, &idx, LiteralMode::Arrays)
}

/// Errors in struct literals: unknown, repeated or missing fields, and
/// field values of the wrong type.
pub fn struct_literal_diagnostics(story: &Story) -> (r: Vec<Diagnostic>)
    ensures
        exists|idx: TypeIndex| #[trigger] is_index_of(idx, *story) && diag_views(r@) == literal_checks(idx, LiteralMode::Structs, story_sites(*story)),
{
    let idx = build_type_index(story);
    literal_diagnostics_with_index(story, &idx, LiteralMode::Structs)
}

/// Errors in `Dict` literals: keys of the wrong type, repeated keys,
/// values of the wrong type, and `Dict` literals where another type or no
/// type is expected.
pub fn dict_literal_diagnostics(story: &Story) -> (r: Vec<Diagnostic>)
    ensures
        exists|idx: TypeIndex| #[trigger] is_index_of(idx, *story) && diag_views(r@) == literal_checks(idx, LiteralMode::Dicts, story_sites(*story)),
{
    let idx = build_type_index(story);
    literal_diagnostics_with_index(story, &idx, LiteralMode::Dicts)
}

} // verus!
