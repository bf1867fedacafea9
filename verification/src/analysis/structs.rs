//! Struct and enum declarations: their indexes, and the errors in them.
use vstd::prelude::*;

use crate::analysis::modules::uses::{double_colon_from, double_colon_index};
use crate::analysis::names::{lemma_name_views_push, list_has, name_views};
use crate::analysis::sites::{collect_sites, opt_str_view, site_view, sites_view, story_sites, SiteView};
use crate::analysis::type_index::{
    build_enum_index, build_struct_index, build_target_index, build_variables, enums_view,
    field_view, find_enum_key, find_struct_key, has_enum_key, has_struct_key, sites_enum_diags,
    sites_enums, sites_struct_diags, sites_structs, story_targets, story_vars, struct_view,
    structs_view, targets_view, vars_view, EnumView, FieldView, StructView,
};
use crate::analysis::types::{
    contains_double_colon, find_enum, find_field, find_struct, first_enum, first_field,
    first_struct, has_double_colon, scoped, scoped_name, EnumSymbol, StructSymbol, TypeIndex,
};
use crate::diagnostic::{diag_view, diag_views, DiagView, Diagnostic, DiagnosticSeverity};
use crate::parsed::{Object, Story, TypeName};
use crate::text::{concat3, owned};

verus! {

/// The struct types of a story, keyed by scoped name.
#[derive(Debug)]
pub struct StructTypeIndex {
    pub symbols: Vec<StructSymbol>,
}

/// The enum types of a story, keyed by scoped name.
#[derive(Debug)]
pub struct EnumTypeIndex {
    pub symbols: Vec<EnumSymbol>,
}

impl StructSymbol {
    /// The type of field `name`, if the struct has one.
    pub fn field(&self, name: &str) -> (r: Option<&TypeName>)
        ensures
            match r {
                Some(t) => first_field(self.fields@, name@) matches Some(f) && f.field_type == *t,
                None => first_field(self.fields@, name@) is None,
            },
    {
        match find_field(&self.fields, name) {
            Some(f) => Some(&f.field_type),
            None => None,
        }
    }
}

impl StructTypeIndex {
    /// The struct with scoped name `key`.
    pub fn get(&self, key: &str) -> (r: Option<&StructSymbol>)
        ensures
            match r {
                Some(s) => first_struct(self.symbols@, key@) == Some(*s),
                None => first_struct(self.symbols@, key@) is None,
            },
    {
        find_struct(&self.symbols, key)
    }
}

impl EnumTypeIndex {
    /// The enum with scoped name `key`.
    pub fn get(&self, key: &str) -> (r: Option<&EnumSymbol>)
        ensures
            match r {
                Some(e) => first_enum(self.symbols@, key@) == Some(*e),
                None => first_enum(self.symbols@, key@) is None,
            },
    {
        find_enum(&self.symbols, key)
    }
}

/// The struct types of `story`: the first declaration of each scoped name,
/// with its distinct fields.
pub fn build_struct_type_index(story: &Story) -> (r: StructTypeIndex)
    ensures
        structs_view(r.symbols@) == sites_structs(story_sites(*story)),
{
    let (symbols, _) = build_struct_index(story);
    StructTypeIndex { symbols }
}

/// The enum types of `story`: the first declaration of each scoped name,
/// with its distinct members.
pub fn build_enum_type_index(story: &Story) -> (r: EnumTypeIndex)
    ensures
        enums_view(r.symbols@) == sites_enums(story_sites(*story)),
{
    let (symbols, _) = build_enum_index(story);
    EnumTypeIndex { symbols }
}

/// The key an enum name has when read in module `m`.
pub open spec fn enum_key(name: Seq<char>, m: Option<Seq<char>>) -> Seq<char> {
    if has_double_colon(name) {
        name
    } else {
        scoped(m, name)
    }
}

/// The enum that `name` means in module `m`.
pub fn resolve_enum_symbol<'a>(index: &'a EnumTypeIndex, name: &str, m: Option<&str>) -> (r: Option<&'a EnumSymbol>)
    ensures
        match r {
            Some(e) => first_enum(index.symbols@, enum_key(name@, opt_str_view(m))) == Some(*e),
            None => first_enum(index.symbols@, enum_key(name@, opt_str_view(m))) is None,
        },
{
    if contains_double_colon(name) {
        find_enum(&index.symbols, name)
    } else {
        let key = scoped_name(m, name);
        find_enum(&index.symbols, key.as_str())
    }
}

/// The errors in enum declarations: a repeated enum in one scope, an enum
/// without members, a repeated member.
pub fn enum_type_diagnostics(story: &Story) -> (r: Vec<Diagnostic>)
    ensures
        diag_views(r@) == sites_enum_diags(story_sites(*story)),
{
    let (_, diagnostics) = build_enum_index(story);
    diagnostics
}

/// `idx` holds the variables, struct and enum types and call targets of
/// `story`.
pub open spec fn is_index_of(idx: TypeIndex, story: Story) -> bool {
    &&& vars_view(idx.variables@) == story_vars(story)
    &&& structs_view(idx.structs@) == sites_structs(story_sites(story))
    &&& enums_view(idx.enums@) == sites_enums(story_sites(story))
    &&& targets_view(idx.targets@) == story_targets(story)
}

/// Everything the type checks look names up in.
pub fn build_type_index(story: &Story) -> (r: TypeIndex)
    ensures
        is_index_of(r, *story),
{
    let variables = build_variables(story);
    let (structs, _) = build_struct_index(story);
    let (enums, _) = build_enum_index(story);
    let targets = build_target_index(story);
    TypeIndex { variables, structs, enums, targets }
}

/// The named types `t` refers to, each as written and as its key in module
/// `m`.
pub open spec fn referenced_types(t: TypeName, m: Option<Seq<char>>) -> Seq<(Seq<char>, Seq<char>)>
    decreases t,
{
    match t {
        TypeName::Struct(n) => seq![(n@, scoped(m, n@))],
        TypeName::QualifiedStruct(q) => seq![(q.module@ + "::"@ + q.symbol@, q.module@ + "::"@ + q.symbol@)],
        TypeName::Array(e) => referenced_types(*e, m),
        TypeName::Dict { key_type: _, value_type } => referenced_types(*value_type, m),
        _ => Seq::empty(),
    }
}

pub open spec fn refs_view(v: Seq<(String, String)>) -> Seq<(Seq<char>, Seq<char>)> {
    v.map_values(|p: (String, String)| (p.0@, p.1@))
}

fn referenced_named_types(t: &TypeName, m: Option<&str>, out: &mut Vec<(String, String)>)
    ensures
        refs_view(final(out)@) == refs_view(old(out)@) + referenced_types(*t, opt_str_view(m)),
    decreases t,
{
    let ghost prev = out@;
    match t {
        TypeName::Struct(n) => {
            out.push((owned(n.as_str()), scoped_name(m, n.as_str())));
            assert(refs_view(out@) =~= refs_view(prev) + referenced_types(*t, opt_str_view(m)));
        },
        TypeName::QualifiedStruct(q) => {
            let full = concat3(q.module.as_str(), "::", q.symbol.as_str());
            out.push((owned(full.as_str()), full));
            assert(refs_view(out@) =~= refs_view(prev) + referenced_types(*t, opt_str_view(m)));
        },
        TypeName::Array(e) => referenced_named_types(e, m, out),
        TypeName::Dict { key_type: _, value_type } => referenced_named_types(value_type, m, out),
        _ => {
            assert(refs_view(out@) =~= refs_view(prev) + referenced_types(*t, opt_str_view(m)));
        },
    }
}

// ---------------------------------------------------------------------------
// Fields of unknown named types.

/// The errors for the references `refs` of field `field` in struct
/// `struct_name` that name neither a struct nor an enum.
pub open spec fn unknown_refs(
    refs: Seq<(Seq<char>, Seq<char>)>,
    field: crate::parsed::StructField,
    struct_name: Seq<char>,
    structs: Seq<StructView>,
    enums: Seq<EnumView>,
) -> Seq<DiagView>
    decreases refs.len(),
{
    if refs.len() == 0 {
        Seq::empty()
    } else {
        unknown_refs(refs.drop_last(), field, struct_name, structs, enums) + if !has_struct_key(structs, refs.last().1)
            && !has_enum_key(enums, refs.last().1) {
            seq![(DiagnosticSeverity::Error, "Unknown named type '"@ + refs.last().0 + "' for field '"@ + field.name@ + "' in struct '"@
                + struct_name + "'"@, field.span)]
        } else {
            Seq::empty()
        }
    }
}

pub open spec fn unknown_fields(
    fs: Seq<crate::parsed::StructField>,
    m: Option<Seq<char>>,
    struct_name: Seq<char>,
    structs: Seq<StructView>,
    enums: Seq<EnumView>,
) -> Seq<DiagView>
    decreases fs.len(),
{
    if fs.len() == 0 {
        Seq::empty()
    } else {
        unknown_fields(fs.drop_last(), m, struct_name, structs, enums) + unknown_refs(
            referenced_types(fs.last().field_type, m),
            fs.last(),
            struct_name,
            structs,
            enums,
        )
    }
}

/// The errors for fields, in every struct declaration of `sites`, of a
/// named type that is neither a struct nor an enum.
pub open spec fn sites_unknown(sites: Seq<SiteView>, structs: Seq<StructView>, enums: Seq<EnumView>) -> Seq<DiagView>
    decreases sites.len(),
{
    if sites.len() == 0 {
        Seq::empty()
    } else {
        sites_unknown(sites.drop_last(), structs, enums) + match sites.last().2 {
            Object::StructDeclaration(d) => unknown_fields(d.fields@, sites.last().0, d.name@, structs, enums),
            _ => Seq::empty(),
        }
    }
}

fn check_unknown_refs(
    refs: &Vec<(String, String)>,
    field: &crate::parsed::StructField,
    struct_name: &str,
    symbols: &Vec<StructSymbol>,
    enums: &Vec<EnumSymbol>,
    out: &mut Vec<Diagnostic>,
)
    ensures
        diag_views(final(out)@) == diag_views(old(out)@) + unknown_refs(refs_view(refs@), *field, struct_name@, structs_view(symbols@), enums_view(enums@)),
{
    let ghost before = diag_views(out@);
    let ghost rv = refs_view(refs@);
    let mut r: usize = 0;
    assert(diag_views(out@) =~= before + unknown_refs(rv.take(0), *field, struct_name@, structs_view(symbols@), enums_view(enums@)));
    while r < refs.len()
        invariant
            r <= refs@.len(),
            rv == refs_view(refs@),
            diag_views(out@) == before + unknown_refs(rv.take(r as int), *field, struct_name@, structs_view(symbols@), enums_view(enums@)),
        decreases refs.len() - r,
    {
        proof {
            assert(rv.take(r + 1).drop_last() =~= rv.take(r as int));
            assert(rv.take(r + 1).last() == (refs@[r as int].0@, refs@[r as int].1@));
        }
        let key = refs[r].1.as_str();
        if !find_struct_key(symbols, key) && !find_enum_key(enums, key) {
            let mut message = concat3("Unknown named type '", refs[r].0.as_str(), "' for field '");
            message.append(field.name.as_str());
            message.append("' in struct '");
            message.append(struct_name);
            message.append("'");
            let ghost prev = out@;
            out.push(Diagnostic::error(field.span.duplicate(), message));
            proof { assert(diag_views(out@) =~= diag_views(prev).push(diag_view(out@.last()))); }
        }
        assert(diag_views(out@) =~= before + unknown_refs(rv.take(r + 1), *field, struct_name@, structs_view(symbols@), enums_view(enums@)));
        r = r + 1;
    }
    assert(rv.take(rv.len() as int) =~= rv);
}

fn check_unknown_fields(
    d: &crate::parsed::StructDeclaration,
    m: Option<&str>,
    symbols: &Vec<StructSymbol>,
    enums: &Vec<EnumSymbol>,
    out: &mut Vec<Diagnostic>,
)
    ensures
        diag_views(final(out)@) == diag_views(old(out)@) + unknown_fields(d.fields@, opt_str_view(m), d.name@, structs_view(symbols@), enums_view(enums@)),
{
    let ghost before = diag_views(out@);
    let ghost fs = d.fields@;
    let mut f: usize = 0;
    assert(diag_views(out@) =~= before + unknown_fields(fs.take(0), opt_str_view(m), d.name@, structs_view(symbols@), enums_view(enums@)));
    while f < d.fields.len()
        invariant
            f <= fs.len(),
            fs == d.fields@,
            diag_views(out@) == before + unknown_fields(fs.take(f as int), opt_str_view(m), d.name@, structs_view(symbols@), enums_view(enums@)),
        decreases d.fields.len() - f,
    {
        proof { assert(fs.take(f + 1).drop_last() =~= fs.take(f as int)); }
        let field = &d.fields[f];
        let mut refs: Vec<(String, String)> = Vec::new();
        assert(refs_view(refs@) =~= Seq::<(Seq<char>, Seq<char>)>::empty());
        referenced_named_types(&field.field_type, m, &mut refs);
        assert(refs_view(refs@) =~= referenced_types(field.field_type, opt_str_view(m)));
        check_unknown_refs(&refs, field, d.name.as_str(), symbols, enums, out);
        assert(diag_views(out@) =~= before + unknown_fields(fs.take(f + 1), opt_str_view(m), d.name@, structs_view(symbols@), enums_view(enums@)));
        f = f + 1;
    }
    assert(fs.take(fs.len() as int) =~= fs);
}

// ---------------------------------------------------------------------------
// Structs that contain themselves.

/// The module part of a scoped name, if any.
pub open spec fn key_module(key: Seq<char>) -> Option<Seq<char>> {
    let i = double_colon_from(key, 0);
    if i >= 0 {
        Some(key.subrange(0, i))
    } else {
        None
    }
}

fn module_of_key(key: &str) -> (r: Option<String>)
    ensures
        match r {
            Some(s) => key_module(key@) == Some(s@),
            None => key_module(key@) is None,
        },
{
    let chars = crate::text::chars_of(key);
    match double_colon_index(&chars) {
        Some(i) => Some(crate::text::string_from_chars(&chars, 0, i)),
        None => None,
    }
}

/// The first struct of `structs` with key `key`.
pub open spec fn first_view(structs: Seq<StructView>, key: Seq<char>) -> Option<StructView>
    decreases structs.len(),
{
    if structs.len() == 0 {
        None
    } else if structs[0].0 == key {
        Some(structs[0])
    } else {
        first_view(structs.drop_first(), key)
    }
}

proof fn lemma_first_view(ss: Seq<StructSymbol>, key: Seq<char>)
    ensures
        first_view(structs_view(ss), key) == match first_struct(ss, key) {
            Some(s) => Some(struct_view(s)),
            None => None,
        },
    decreases ss.len(),
{
    if ss.len() > 0 {
        assert(structs_view(ss).drop_first() =~= structs_view(ss.drop_first()));
        lemma_first_view(ss.drop_first(), key);
    }
}

proof fn lemma_first_struct_key(ss: Seq<StructSymbol>, key: Seq<char>)
    ensures
        first_struct(ss, key) matches Some(s) ==> s.key@ == key,
    decreases ss.len(),
{
    if ss.len() > 0 && ss[0].key@ != key {
        lemma_first_struct_key(ss.drop_first(), key);
    }
}

/// The named types the fields `fs` refer to, read in module `m`.
pub open spec fn fields_refs(fs: Seq<FieldView>, m: Option<Seq<char>>) -> Seq<(Seq<char>, Seq<char>)>
    decreases fs.len(),
{
    if fs.len() == 0 {
        Seq::empty()
    } else {
        fields_refs(fs.drop_last(), m) + referenced_types(fs.last().1, m)
    }
}

/// The keys among `refs` that name a struct of `structs`.
pub open spec fn existing_keys(refs: Seq<(Seq<char>, Seq<char>)>, structs: Seq<StructView>) -> Seq<Seq<char>>
    decreases refs.len(),
{
    if refs.len() == 0 {
        Seq::empty()
    } else {
        let earlier = existing_keys(refs.drop_last(), structs);
        if has_struct_key(structs, refs.last().1) {
            earlier.push(refs.last().1)
        } else {
            earlier
        }
    }
}

/// The structs that the fields of struct `key` name directly.
pub open spec fn struct_deps(structs: Seq<StructView>, key: Seq<char>) -> Seq<Seq<char>> {
    match first_view(structs, key) {
        Some(v) => existing_keys(fields_refs(v.1, key_module(key)), structs),
        None => Seq::empty(),
    }
}

/// `p` goes from struct to struct, each time to one that a field names,
/// in at least one step.
pub open spec fn is_struct_path(structs: Seq<StructView>, p: Seq<Seq<char>>) -> bool {
    &&& p.len() >= 2
    &&& forall|i: int| 0 <= i < p.len() - 1 ==> struct_deps(structs, #[trigger] p[i]).contains(p[i + 1])
}

/// Struct `target` is reached from struct `start` through one or more
/// fields.
pub open spec fn struct_reaches_from(structs: Seq<StructView>, start: Seq<char>, target: Seq<char>) -> bool {
    exists|p: Seq<Seq<char>>| #[trigger] is_struct_path(structs, p) && p[0] == start && p.last() == target
}

pub open spec fn struct_keys(structs: Seq<StructView>) -> Seq<Seq<char>> {
    structs.map_values(|v: StructView| v.0)
}

/// Every struct that `x` names directly is in `visited`.
pub open spec fn deps_in(structs: Seq<StructView>, visited: Seq<Seq<char>>, x: Seq<char>) -> bool {
    forall|d: Seq<char>| #[trigger] struct_deps(structs, x).contains(d) ==> visited.contains(d)
}

proof fn lemma_existing_keys(refs: Seq<(Seq<char>, Seq<char>)>, structs: Seq<StructView>, d: Seq<char>)
    requires
        existing_keys(refs, structs).contains(d),
    ensures
        struct_keys(structs).contains(d),
    decreases refs.len(),
{
    let earlier = existing_keys(refs.drop_last(), structs);
    if earlier.contains(d) {
        lemma_existing_keys(refs.drop_last(), structs, d);
    } else {
        assert(has_struct_key(structs, d));
        let k = choose|k: int| 0 <= k < structs.len() && (#[trigger] structs[k]).0 == d;
        assert(struct_keys(structs)[k] == d);
    }
}

proof fn lemma_dep_is_key(structs: Seq<StructView>, x: Seq<char>, d: Seq<char>)
    requires
        struct_deps(structs, x).contains(d),
    ensures
        struct_keys(structs).contains(d),
{
    match first_view(structs, x) {
        Some(v) => lemma_existing_keys(fields_refs(v.1, key_module(x)), structs, d),
        None => {},
    }
}

proof fn lemma_push_contains(s: Seq<Seq<char>>, x: Seq<char>, y: Seq<char>)
    ensures
        s.push(x).contains(y) <==> s.contains(y) || y == x,
{
    if s.contains(y) {
        let i = choose|i: int| 0 <= i < s.len() && s[i] == y;
        assert(s.push(x)[i] == y);
    }
    if y == x {
        assert(s.push(x)[s.len() as int] == y);
    }
    if s.push(x).contains(y) && y != x {
        let i = choose|i: int| 0 <= i < s.push(x).len() && s.push(x)[i] == y;
        assert(s[i] == y);
    }
}

/// A path extended by one more field reference is a path.
proof fn lemma_extend_path(structs: Seq<StructView>, start: Seq<char>, x: Seq<char>, d: Seq<char>)
    requires
        x == start || struct_reaches_from(structs, start, x),
        struct_deps(structs, x).contains(d),
    ensures
        struct_reaches_from(structs, start, d),
{
    if struct_reaches_from(structs, start, x) {
        let p = choose|p: Seq<Seq<char>>| #[trigger] is_struct_path(structs, p) && p[0] == start && p.last() == x;
        let q = p.push(d);
        assert forall|i: int| 0 <= i < q.len() - 1 implies struct_deps(structs, #[trigger] q[i]).contains(q[i + 1]) by {
            if i < p.len() - 1 {
                assert(q[i] == p[i] && q[i + 1] == p[i + 1]);
            } else {
                assert(q[i] == x && q[i + 1] == d);
            }
        }
        assert(is_struct_path(structs, q));
    } else {
        let q = seq![start, d];
        assert(is_struct_path(structs, q));
    }
}

/// A set that holds the direct references of `start` and of each of its
/// members holds the end of every path from `start`.
proof fn lemma_closed_holds_paths(structs: Seq<StructView>, start: Seq<char>, visited: Seq<Seq<char>>, p: Seq<Seq<char>>)
    requires
        deps_in(structs, visited, start),
        forall|x: Seq<char>| #[trigger] visited.contains(x) ==> deps_in(structs, visited, x),
        is_struct_path(structs, p),
        p[0] == start,
    ensures
        visited.contains(p.last()),
    decreases p.len(),
{
    if p.len() == 2 {
        assert(struct_deps(structs, p[0]).contains(p[1]));
    } else {
        let q = p.drop_last();
        assert forall|i: int| 0 <= i < q.len() - 1 implies struct_deps(structs, #[trigger] q[i]).contains(q[i + 1]) by {
            assert(q[i] == p[i] && q[i + 1] == p[i + 1]);
        }
        lemma_closed_holds_paths(structs, start, visited, q);
        assert(struct_deps(structs, p[p.len() - 2]).contains(p[p.len() - 1]));
        assert(q.last() == p[p.len() - 2]);
    }
}

/// A list without repeats drawn from `universe` is no longer than it.
proof fn lemma_distinct_bound(v: Seq<Seq<char>>, universe: Seq<Seq<char>>)
    requires
        v.no_duplicates(),
        forall|x: Seq<char>| #[trigger] v.contains(x) ==> universe.contains(x),
    ensures
        v.len() <= universe.len(),
{
    broadcast use vstd::seq_lib::seq_to_set_is_finite;
    v.unique_seq_to_set();
    universe.lemma_cardinality_of_set();
    assert forall|x: Seq<char>| v.to_set().contains(x) implies universe.to_set().contains(x) by {
        assert(v.contains(x));
    }
    vstd::set_lib::lemma_len_subset(v.to_set(), universe.to_set());
}

/// The structs that the fields of `symbol`, the first struct with its key,
/// name directly.
fn struct_dependencies(symbols: &Vec<StructSymbol>, symbol: &StructSymbol) -> (r: Vec<String>)
    requires
        first_struct(symbols@, symbol.key@) == Some(*symbol),
    ensures
        name_views(r@) == struct_deps(structs_view(symbols@), symbol.key@),
{
    let ghost structs = structs_view(symbols@);
    let ghost fv = struct_view(*symbol).1;
    proof { lemma_first_view(symbols@, symbol.key@); }
    let module = module_of_key(symbol.key.as_str());
    let m: Option<&str> = match &module {
        Some(s) => Some(s.as_str()),
        None => None,
    };
    assert(opt_str_view(m) == key_module(symbol.key@));
    let mut refs: Vec<(String, String)> = Vec::new();
    let mut i: usize = 0;
    assert(refs_view(refs@) =~= fields_refs(fv.take(0), opt_str_view(m)));
    while i < symbol.fields.len()
        invariant
            i <= symbol.fields@.len(),
            fv == struct_view(*symbol).1,
            refs_view(refs@) == fields_refs(fv.take(i as int), opt_str_view(m)),
        decreases symbol.fields.len() - i,
    {
        proof {
            assert(fv.take(i + 1).drop_last() =~= fv.take(i as int));
            assert(fv.take(i + 1).last() == field_view(symbol.fields@[i as int]));
        }
        referenced_named_types(&symbol.fields[i].field_type, m, &mut refs);
        i = i + 1;
    }
    assert(fv.take(fv.len() as int) =~= fv);
    let ghost rv = refs_view(refs@);
    let mut out: Vec<String> = Vec::new();
    let mut k: usize = 0;
    assert(name_views(out@) =~= existing_keys(rv.take(0), structs));
    while k < refs.len()
        invariant
            k <= refs@.len(),
            rv == refs_view(refs@),
            structs == structs_view(symbols@),
            name_views(out@) == existing_keys(rv.take(k as int), structs),
        decreases refs.len() - k,
    {
        proof {
            assert(rv.take(k + 1).drop_last() =~= rv.take(k as int));
            assert(rv.take(k + 1).last() == (refs@[k as int].0@, refs@[k as int].1@));
        }
        if find_struct_key(symbols, refs[k].1.as_str()) {
            let ghost prev = out@;
            out.push(owned(refs[k].1.as_str()));
            proof { lemma_name_views_push(prev, out@.last()); }
        }
        k = k + 1;
    }
    assert(rv.take(rv.len() as int) =~= rv);
    out
}

/// Adds the structs that `current` names directly to `visited`, and the
/// new ones to `worklist` as well.
fn expand_struct(
    symbols: &Vec<StructSymbol>,
    start: &str,
    current: &str,
    visited: &mut Vec<String>,
    worklist: &mut Vec<String>,
)
    requires
        current@ == start@ || struct_reaches_from(structs_view(symbols@), start@, current@),
        name_views(old(visited)@).no_duplicates(),
        forall|x: Seq<char>| #[trigger] name_views(old(visited)@).contains(x) ==> struct_reaches_from(structs_view(symbols@), start@, x)
            && struct_keys(structs_view(symbols@)).contains(x),
        forall|k: int| 0 <= k < old(worklist)@.len() ==> name_views(old(visited)@).contains(#[trigger] old(worklist)@[k]@),
    ensures
        name_views(final(visited)@).no_duplicates(),
        forall|x: Seq<char>| #[trigger] name_views(final(visited)@).contains(x) ==> struct_reaches_from(structs_view(symbols@), start@, x)
            && struct_keys(structs_view(symbols@)).contains(x),
        forall|k: int| 0 <= k < final(worklist)@.len() ==> name_views(final(visited)@).contains(#[trigger] final(worklist)@[k]@),
        forall|x: Seq<char>| #[trigger] name_views(old(visited)@).contains(x) ==> name_views(final(visited)@).contains(x),
        forall|x: Seq<char>| #[trigger] name_views(old(worklist)@).contains(x) ==> name_views(final(worklist)@).contains(x),
        final(visited)@.len() - old(visited)@.len() == final(worklist)@.len() - old(worklist)@.len(),
        final(visited)@.len() >= old(visited)@.len(),
        deps_in(structs_view(symbols@), name_views(final(visited)@), current@),
        forall|x: Seq<char>| #[trigger] name_views(final(visited)@).contains(x) && !name_views(old(visited)@).contains(x)
            ==> name_views(final(worklist)@).contains(x),
{
    let ghost structs = structs_view(symbols@);
    let ghost v0 = name_views(visited@);
    let ghost w0 = worklist@;
    let ghost wv0 = name_views(worklist@);
    let deps = match find_struct(symbols, current) {
        Some(symbol) => {
            proof { lemma_first_struct_key(symbols@, current@); }
            struct_dependencies(symbols, symbol)
        },
        None => {
            proof { lemma_first_view(symbols@, current@); }
            Vec::new()
        },
    };
    assert(name_views(deps@) == struct_deps(structs, current@)) by {
        lemma_first_view(symbols@, current@);
        if first_struct(symbols@, current@) is None {
            assert(name_views(deps@) =~= Seq::<Seq<char>>::empty());
        }
    }
    let mut j: usize = 0;
    while j < deps.len()
        invariant
            structs == structs_view(symbols@),
            name_views(deps@) == struct_deps(structs, current@),
            current@ == start@ || struct_reaches_from(structs, start@, current@),
            j <= deps@.len(),
            name_views(visited@).no_duplicates(),
            forall|x: Seq<char>| #[trigger] name_views(visited@).contains(x) ==> struct_reaches_from(structs, start@, x)
                && struct_keys(structs).contains(x),
            forall|k: int| 0 <= k < worklist@.len() ==> name_views(visited@).contains(#[trigger] worklist@[k]@),
            forall|x: Seq<char>| #[trigger] v0.contains(x) ==> name_views(visited@).contains(x),
            forall|x: Seq<char>| #[trigger] wv0.contains(x) ==> name_views(worklist@).contains(x),
            visited@.len() - v0.len() == worklist@.len() - w0.len(),
            visited@.len() >= v0.len(),
            forall|k: int| 0 <= k < j ==> name_views(visited@).contains(#[trigger] name_views(deps@)[k]),
            forall|x: Seq<char>| #[trigger] name_views(visited@).contains(x) && !v0.contains(x) ==> name_views(worklist@).contains(x),
        decreases deps.len() - j,
    {
        let d = &deps[j];
        let ghost vb = visited@;
        let ghost wb = worklist@;
        proof {
            assert(name_views(deps@)[j as int] == d@);
            assert(struct_deps(structs, current@).contains(d@));
            lemma_extend_path(structs, start@, current@, d@);
            lemma_dep_is_key(structs, current@, d@);
        }
        if !list_has(visited, d.as_str()) {
            visited.push(owned(d.as_str()));
            worklist.push(owned(d.as_str()));
            proof {
                lemma_name_views_push(vb, visited@.last());
                lemma_name_views_push(wb, worklist@.last());
                assert forall|a: int, b: int| 0 <= a < name_views(visited@).len() && 0 <= b < name_views(visited@).len() && a != b
                    implies name_views(visited@)[a] != name_views(visited@)[b] by {
                    if a < vb.len() && b < vb.len() {
                        assert(name_views(visited@)[a] == name_views(vb)[a]);
                        assert(name_views(visited@)[b] == name_views(vb)[b]);
                    } else if a < vb.len() {
                        assert(name_views(visited@)[a] == name_views(vb)[a]);
                        assert(name_views(vb).contains(name_views(vb)[a]));
                    } else {
                        assert(name_views(visited@)[b] == name_views(vb)[b]);
                        assert(name_views(vb).contains(name_views(vb)[b]));
                    }
                }
                assert forall|k: int| 0 <= k < worklist@.len() implies name_views(visited@).contains(#[trigger] worklist@[k]@) by {
                    lemma_push_contains(name_views(vb), d@, worklist@[k]@);
                    if k < wb.len() {
                        assert(worklist@[k] == wb[k]);
                    }
                }
                assert forall|x: Seq<char>| #[trigger] name_views(visited@).contains(x) && !v0.contains(x)
                    implies name_views(worklist@).contains(x) by {
                    lemma_push_contains(name_views(vb), d@, x);
                    lemma_push_contains(name_views(wb), d@, x);
                }
                assert forall|x: Seq<char>| #[trigger] v0.contains(x) implies name_views(visited@).contains(x) by {
                    lemma_push_contains(name_views(vb), d@, x);
                }
                assert forall|x: Seq<char>| #[trigger] wv0.contains(x) implies name_views(worklist@).contains(x) by {
                    lemma_push_contains(name_views(wb), d@, x);
                }
                assert forall|x: Seq<char>| #[trigger] name_views(visited@).contains(x) implies struct_reaches_from(structs, start@, x)
                    && struct_keys(structs).contains(x) by {
                    lemma_push_contains(name_views(vb), d@, x);
                }
                assert forall|k: int| 0 <= k < j + 1 implies name_views(visited@).contains(#[trigger] name_views(deps@)[k]) by {
                    lemma_push_contains(name_views(vb), d@, name_views(deps@)[k]);
                }
            }
        }
        proof {
            assert(name_views(visited@).contains(d@));
        }
        j = j + 1;
    }
    proof {
        assert forall|x: Seq<char>| #[trigger] struct_deps(structs, current@).contains(x) implies name_views(visited@).contains(x) by {
            let k = choose|k: int| 0 <= k < name_views(deps@).len() && name_views(deps@)[k] == x;
        }
    }
}

/// One round of the search keeps its invariant: every struct reached is
/// still to be expanded or has all it names reached.
proof fn lemma_search_step(
    structs: Seq<StructView>,
    start: Seq<char>,
    current: Seq<char>,
    v0: Seq<Seq<char>>,
    v1: Seq<Seq<char>>,
    wf: Seq<Seq<char>>,
    w0: Seq<Seq<char>>,
    w1: Seq<Seq<char>>,
)
    requires
        wf == w0.push(current),
        forall|x: Seq<char>| #[trigger] v0.contains(x) ==> wf.contains(x) || deps_in(structs, v0, x),
        deps_in(structs, v0, start),
        forall|x: Seq<char>| #[trigger] v0.contains(x) ==> v1.contains(x),
        forall|x: Seq<char>| #[trigger] w0.contains(x) ==> w1.contains(x),
        deps_in(structs, v1, current),
        forall|x: Seq<char>| #[trigger] v1.contains(x) && !v0.contains(x) ==> w1.contains(x),
    ensures
        deps_in(structs, v1, start),
        forall|x: Seq<char>| #[trigger] v1.contains(x) ==> w1.contains(x) || deps_in(structs, v1, x),
{
    assert forall|d: Seq<char>| #[trigger] struct_deps(structs, start).contains(d) implies v1.contains(d) by {
        assert(v0.contains(d));
    }
    assert forall|x: Seq<char>| #[trigger] v1.contains(x) implies w1.contains(x) || deps_in(structs, v1, x) by {
        if v0.contains(x) && x != current {
            lemma_push_contains(w0, current, x);
            if !wf.contains(x) {
                assert forall|d: Seq<char>| #[trigger] struct_deps(structs, x).contains(d) implies v1.contains(d) by {
                    assert(v0.contains(d));
                }
            }
        }
    }
}

/// Whether struct `target` is reached from struct `start` through one or
/// more fields: a search from the structs `start` names, each reached
/// struct adding the ones it names in turn.
fn struct_reaches(symbols: &Vec<StructSymbol>, target: &str, start: &str) -> (r: bool)
    ensures
        r == struct_reaches_from(structs_view(symbols@), start@, target@),
{
    let ghost structs = structs_view(symbols@);
    let ghost universe = struct_keys(structs);
    let mut visited: Vec<String> = Vec::new();
    let mut worklist: Vec<String> = Vec::new();
    assert(name_views(visited@) =~= Seq::<Seq<char>>::empty());
    expand_struct(symbols, start, start, &mut visited, &mut worklist);
    proof { lemma_distinct_bound(name_views(visited@), universe); }
    while worklist.len() > 0
        invariant
            structs == structs_view(symbols@),
            universe == struct_keys(structs),
            name_views(visited@).no_duplicates(),
            visited@.len() <= universe.len(),
            forall|x: Seq<char>| #[trigger] name_views(visited@).contains(x) ==> struct_reaches_from(structs, start@, x)
                && universe.contains(x),
            forall|k: int| 0 <= k < worklist@.len() ==> name_views(visited@).contains(#[trigger] worklist@[k]@),
            deps_in(structs, name_views(visited@), start@),
            forall|x: Seq<char>| #[trigger] name_views(visited@).contains(x) ==> name_views(worklist@).contains(x)
                || deps_in(structs, name_views(visited@), x),
        decreases 2 * (universe.len() - visited@.len()) + worklist@.len(),
    {
        let ghost full_w = worklist@;
        let current = match worklist.pop() {
            Some(c) => c,
            None => {
                return false;
            },
        };
        let ghost v0 = name_views(visited@);
        let ghost w0 = worklist@;
        proof {
            assert(w0 =~= full_w.drop_last());
            assert(current == full_w.last());
            assert(name_views(visited@).contains(current@));
        }
        expand_struct(symbols, start, current.as_str(), &mut visited, &mut worklist);
        proof {
            assert(name_views(full_w) =~= name_views(w0).push(current@));
            lemma_search_step(structs, start@, current@, v0, name_views(visited@), name_views(full_w), name_views(w0), name_views(worklist@));
            lemma_distinct_bound(name_views(visited@), universe);
        }
    }
    proof {
        assert forall|x: Seq<char>| #[trigger] name_views(visited@).contains(x) implies deps_in(structs, name_views(visited@), x) by {
            if name_views(worklist@).contains(x) {
                let k = choose|k: int| 0 <= k < name_views(worklist@).len() && name_views(worklist@)[k] == x;
            }
        }
        if struct_reaches_from(structs, start@, target@) {
            let p = choose|p: Seq<Seq<char>>| #[trigger] is_struct_path(structs, p) && p[0] == start@ && p.last() == target@;
            lemma_closed_holds_paths(structs, start@, name_views(visited@), p);
        }
    }
    list_has(&visited, target)
}

/// The errors for structs that contain themselves, among the first `n`
/// declarations of `sites`, each struct once; with the structs reported.
pub open spec fn recursive_prefix(sites: Seq<SiteView>, n: int, structs: Seq<StructView>) -> (Seq<DiagView>, Seq<Seq<char>>)
    decreases n,
{
    if n <= 0 || n > sites.len() {
        (Seq::empty(), Seq::empty())
    } else {
        let prev = recursive_prefix(sites, n - 1, structs);
        let s = sites[n - 1];
        match s.2 {
            Object::StructDeclaration(d) => {
                let key = scoped(s.0, d.name@);
                if has_struct_key(structs, key) && !prev.1.contains(key) && struct_reaches_from(structs, key, key) {
                    (prev.0.push((DiagnosticSeverity::Error, "Recursive struct type '"@ + d.name@ + "' is not supported"@, d.span)), prev.1.push(key))
                } else {
                    prev
                }
            },
            _ => prev,
        }
    }
}

/// The errors in the struct declarations of `sites`: repeated structs and
/// fields, fields of unknown named types, and structs that contain
/// themselves.
pub open spec fn struct_checks(sites: Seq<SiteView>) -> Seq<DiagView> {
    let structs = sites_structs(sites);
    sites_struct_diags(sites) + sites_unknown(sites, structs, sites_enums(sites)) + recursive_prefix(sites, sites.len() as int, structs).0
}

/// The errors in struct declarations: a repeated struct in one scope, a
/// repeated field, a field of an unknown named type, and a struct that
/// contains itself.
pub fn struct_type_diagnostics(story: &Story) -> (r: Vec<Diagnostic>)
    ensures
        diag_views(r@) == struct_checks(story_sites(*story)),
{
    let (symbols, mut diagnostics) = build_struct_index(story);
    let (enums, _) = build_enum_index(story);
    let sites = collect_sites(story);
    let ghost sv = sites_view(sites@);
    let ghost structs = structs_view(symbols@);
    let ghost before = diag_views(diagnostics@);
    let mut k: usize = 0;
    assert(diag_views(diagnostics@) =~= before + sites_unknown(sv.take(0), structs, enums_view(enums@)));
    while k < sites.len()
        invariant
            k <= sites@.len(),
            sv == sites_view(sites@),
            structs == structs_view(symbols@),
            diag_views(diagnostics@) == before + sites_unknown(sv.take(k as int), structs, enums_view(enums@)),
        decreases sites.len() - k,
    {
        proof {
            assert(sv.take(k + 1).drop_last() =~= sv.take(k as int));
            assert(sv.take(k + 1).last() == site_view(sites@[k as int]));
        }
        match sites[k].object {
            Object::StructDeclaration(d) => {
                check_unknown_fields(d, sites[k].module, &symbols, &enums, &mut diagnostics);
            },
            _ => {},
        }
        assert(diag_views(diagnostics@) =~= before + sites_unknown(sv.take(k + 1), structs, enums_view(enums@)));
        k = k + 1;
    }
    assert(sv.take(sv.len() as int) =~= sv);
    let ghost middle = diag_views(diagnostics@);
    let mut reported: Vec<String> = Vec::new();
    let mut k: usize = 0;
    assert(name_views(reported@) =~= recursive_prefix(sv, 0, structs).1);
    assert(diag_views(diagnostics@) =~= middle + recursive_prefix(sv, 0, structs).0);
    while k < sites.len()
        invariant
            k <= sites@.len(),
            sv == sites_view(sites@),
            structs == structs_view(symbols@),
            diag_views(diagnostics@) == middle + recursive_prefix(sv, k as int, structs).0,
            name_views(reported@) == recursive_prefix(sv, k as int, structs).1,
        decreases sites.len() - k,
    {
        proof { assert(sv[k as int] == site_view(sites@[k as int])); }
        match sites[k].object {
            Object::StructDeclaration(d) => {
                let key = scoped_name(sites[k].module, d.name.as_str());
                if find_struct_key(&symbols, key.as_str()) && !list_has(&reported, key.as_str())
                    && struct_reaches(&symbols, key.as_str(), key.as_str()) {
                    let message = concat3("Recursive struct type '", d.name.as_str(), "' is not supported");
                    let ghost prev = diagnostics@;
                    let ghost prev_reported = reported@;
                    diagnostics.push(Diagnostic::error(d.span.duplicate(), message));
                    reported.push(key);
                    proof {
                        assert(diag_views(diagnostics@) =~= diag_views(prev).push(diag_view(diagnostics@.last())));
                        lemma_name_views_push(prev_reported, reported@.last());
                    }
                }
            },
            _ => {},
        }
        k = k + 1;
    }
    diagnostics
}

} // verus!
