//! What the type checks know about a story: its variables, struct and enum
//! types and call targets, and the names by which they are found.
use vstd::prelude::*;

use crate::analysis::modules::uses::{dot_from, double_colon_from, double_colon_index, dot_index};
use crate::parsed::TypeName;
use crate::text::{chars_of, concat3, str_eq};

verus! {

/// `module::name` inside a module, `name` outside.
pub open spec fn scoped(m: Option<Seq<char>>, name: Seq<char>) -> Seq<char> {
    match m {
        Some(m) => m + "::"@ + name,
        None => name,
    }
}

pub fn scoped_name(m: Option<&str>, name: &str) -> (r: String)
    ensures
        r@ == scoped(crate::analysis::sites::opt_str_view(m), name@),
{
    match m {
        Some(m) => concat3(m, "::", name),
        None => String::from_str(name),
    }
}

/// Whether `s` holds `::`.
pub open spec fn has_double_colon(s: Seq<char>) -> bool {
    double_colon_from(s, 0) >= 0
}

/// Whether `s` holds `.`.
pub open spec fn has_dot(s: Seq<char>) -> bool {
    dot_from(s, 0) < s.len()
}

pub fn contains_double_colon(s: &str) -> (r: bool)
    ensures
        r == has_double_colon(s@),
{
    let chars = chars_of(s);
    double_colon_index(&chars).is_some()
}

pub fn contains_dot(s: &str) -> (r: bool)
    ensures
        r == has_dot(s@),
{
    let chars = chars_of(s);
    dot_index(&chars) < chars.len()
}

#[derive(Debug, Clone, Copy, PartialEq, Eq, Structural)]
pub enum VariableKind {
    Constant,
    GlobalVariable,
    Local,
}

/// A variable: a global (no scope) or a local of the flow at `scope`.
#[derive(Debug)]
pub struct VariableSymbol {
    pub module: Option<String>,
    pub scope: Option<String>,
    pub name: String,
    pub declared_type: Option<TypeName>,
    pub kind: VariableKind,
}

pub open spec fn opt_view(o: Option<String>) -> Option<Seq<char>> {
    match o {
        Some(s) => Some(s@),
        None => None,
    }
}

pub open spec fn variable_matches(v: VariableSymbol, m: Option<Seq<char>>, scope: Option<Seq<char>>, name: Seq<char>) -> bool {
    opt_view(v.module) == m && opt_view(v.scope) == scope && v.name@ == name
}

/// The last variable of `vs` declared under that module, scope and name:
/// a later declaration replaces an earlier one.
pub open spec fn last_variable(vs: Seq<VariableSymbol>, m: Option<Seq<char>>, scope: Option<Seq<char>>, name: Seq<char>) -> Option<VariableSymbol>
    decreases vs.len(),
{
    if vs.len() == 0 {
        None
    } else if variable_matches(vs.last(), m, scope, name) {
        Some(vs.last())
    } else {
        last_variable(vs.drop_last(), m, scope, name)
    }
}

/// The variable that `name` means in flow `f` of module `m`: a local of
/// the flow, else a global of the module.
pub open spec fn visible_variable(vs: Seq<VariableSymbol>, m: Option<Seq<char>>, f: Option<Seq<char>>, name: Seq<char>) -> Option<VariableSymbol> {
    let local = match f {
        Some(path) => last_variable(vs, m, Some(path), name),
        None => None,
    };
    if local is Some {
        local
    } else {
        last_variable(vs, m, None, name)
    }
}

/// A field of a struct type.
#[derive(Debug)]
pub struct FieldSymbol {
    pub name: String,
    pub field_type: TypeName,
}

/// A struct type, keyed by its scoped name.
#[derive(Debug)]
pub struct StructSymbol {
    pub key: String,
    pub fields: Vec<FieldSymbol>,
}

/// An enum type, keyed by its scoped name.
#[derive(Debug)]
pub struct EnumSymbol {
    pub key: String,
    pub members: Vec<String>,
}

impl EnumSymbol {
    pub fn members(&self) -> (r: &Vec<String>)
        ensures
            *r == self.members,
    {
        &self.members
    }

    pub fn contains_member(&self, member: &str) -> (r: bool)
        ensures
            r == seq_has_name(self.members@, member@),
    {
        let mut i: usize = 0;
        while i < self.members.len()
            invariant
                i <= self.members@.len(),
                forall|k: int| 0 <= k < i ==> (#[trigger] self.members@[k])@ != member@,
            decreases self.members.len() - i,
        {
            if str_eq(self.members[i].as_str(), member) {
                return true;
            }
            i = i + 1;
        }
        false
    }
}

pub open spec fn seq_has_name(names: Seq<String>, name: Seq<char>) -> bool {
    exists|k: int| 0 <= k < names.len() && (#[trigger] names[k])@ == name
}

/// A parameter of a call target.
#[derive(Debug)]
pub struct ParameterSymbol {
    pub name: String,
    pub declared_type: Option<TypeName>,
}

/// Something a divert or call can name: a knot, stitch, function,
/// external function or label, keyed by its scoped path.
#[derive(Debug)]
pub struct TargetSymbol {
    pub key: String,
    pub is_function: bool,
    pub parameters: Vec<ParameterSymbol>,
    pub return_type: TypeName,
    pub has_typed_signature: bool,
}

/// Everything the type checks look names up in.
#[derive(Debug)]
pub struct TypeIndex {
    pub variables: Vec<VariableSymbol>,
    pub structs: Vec<StructSymbol>,
    pub enums: Vec<EnumSymbol>,
    pub targets: Vec<TargetSymbol>,
}

impl TypeIndex {
    /// An index that knows no names.
    pub fn empty() -> (r: Self)
        ensures
            r.variables@.len() == 0,
            r.structs@.len() == 0,
            r.enums@.len() == 0,
            r.targets@.len() == 0,
    {
        TypeIndex { variables: Vec::new(), structs: Vec::new(), enums: Vec::new(), targets: Vec::new() }
    }
}

/// The first struct with this key: a later duplicate is not indexed.
pub open spec fn first_struct(ss: Seq<StructSymbol>, key: Seq<char>) -> Option<StructSymbol>
    decreases ss.len(),
{
    if ss.len() == 0 {
        None
    } else if ss[0].key@ == key {
        Some(ss[0])
    } else {
        first_struct(ss.drop_first(), key)
    }
}

pub open spec fn first_field(fs: Seq<FieldSymbol>, name: Seq<char>) -> Option<FieldSymbol>
    decreases fs.len(),
{
    if fs.len() == 0 {
        None
    } else if fs[0].name@ == name {
        Some(fs[0])
    } else {
        first_field(fs.drop_first(), name)
    }
}

pub open spec fn first_enum(es: Seq<EnumSymbol>, key: Seq<char>) -> Option<EnumSymbol>
    decreases es.len(),
{
    if es.len() == 0 {
        None
    } else if es[0].key@ == key {
        Some(es[0])
    } else {
        first_enum(es.drop_first(), key)
    }
}

pub open spec fn first_target(ts: Seq<TargetSymbol>, key: Seq<char>) -> Option<TargetSymbol>
    decreases ts.len(),
{
    if ts.len() == 0 {
        None
    } else if ts[0].key@ == key {
        Some(ts[0])
    } else {
        first_target(ts.drop_first(), key)
    }
}

/// Whether an optional name equals an optional string slice.
pub fn same_optional(a: &Option<String>, b: Option<&str>) -> (r: bool)
    ensures
        r == (opt_view(*a) == crate::analysis::sites::opt_str_view(b)),
{
    match a {
        Some(x) => match b {
            Some(y) => {
                let e = str_eq(x.as_str(), y);
                proof {
                    if !e {
                        assert(opt_view(*a) != crate::analysis::sites::opt_str_view(b)) by {
                            if opt_view(*a) == crate::analysis::sites::opt_str_view(b) {
                                assert(Some(x@) == Some(y@));
                            }
                        }
                    }
                }
                e
            },
            None => false,
        },
        None => match b {
            Some(_) => false,
            None => true,
        },
    }
}

pub fn find_last_variable<'a>(vs: &'a Vec<VariableSymbol>, m: Option<&str>, scope: Option<&str>, name: &str) -> (r: Option<&'a VariableSymbol>)
    ensures
        match r {
            Some(v) => last_variable(vs@, crate::analysis::sites::opt_str_view(m), crate::analysis::sites::opt_str_view(scope), name@) == Some(*v),
            None => last_variable(vs@, crate::analysis::sites::opt_str_view(m), crate::analysis::sites::opt_str_view(scope), name@) is None,
        },
{
    let ghost mv = crate::analysis::sites::opt_str_view(m);
    let ghost sv = crate::analysis::sites::opt_str_view(scope);
    let mut k: usize = vs.len();
    assert(vs@.take(k as int) =~= vs@);
    while k > 0
        invariant
            k <= vs@.len(),
            mv == crate::analysis::sites::opt_str_view(m),
            sv == crate::analysis::sites::opt_str_view(scope),
            last_variable(vs@, mv, sv, name@) == last_variable(vs@.take(k as int), mv, sv, name@),
        decreases k,
    {
        let v = &vs[k - 1];
        assert(vs@.take(k as int).drop_last() =~= vs@.take(k - 1));
        assert(vs@.take(k as int).last() == *v);
        let module_ok = same_optional(&v.module, m);
        let scope_ok = same_optional(&v.scope, scope);
        if module_ok && scope_ok && str_eq(v.name.as_str(), name) {
            return Some(v);
        }
        k = k - 1;
    }
    None
}

pub fn find_struct<'a>(ss: &'a Vec<StructSymbol>, key: &str) -> (r: Option<&'a StructSymbol>)
    ensures
        match r {
            Some(s) => first_struct(ss@, key@) == Some(*s),
            None => first_struct(ss@, key@) is None,
        },
{
    let mut k: usize = 0;
    assert(ss@.skip(0) =~= ss@);
    while k < ss.len()
        invariant
            k <= ss@.len(),
            first_struct(ss@, key@) == first_struct(ss@.skip(k as int), key@),
        decreases ss.len() - k,
    {
        assert(ss@.skip(k as int)[0] == ss@[k as int]);
        assert(ss@.skip(k as int).drop_first() =~= ss@.skip(k + 1));
        if str_eq(ss[k].key.as_str(), key) {
            return Some(&ss[k]);
        }
        k = k + 1;
    }
    None
}

pub fn find_field<'a>(fs: &'a Vec<FieldSymbol>, name: &str) -> (r: Option<&'a FieldSymbol>)
    ensures
        match r {
            Some(f) => first_field(fs@, name@) == Some(*f),
            None => first_field(fs@, name@) is None,
        },
{
    let mut k: usize = 0;
    assert(fs@.skip(0) =~= fs@);
    while k < fs.len()
        invariant
            k <= fs@.len(),
            first_field(fs@, name@) == first_field(fs@.skip(k as int), name@),
        decreases fs.len() - k,
    {
        assert(fs@.skip(k as int)[0] == fs@[k as int]);
        assert(fs@.skip(k as int).drop_first() =~= fs@.skip(k + 1));
        if str_eq(fs[k].name.as_str(), name) {
            return Some(&fs[k]);
        }
        k = k + 1;
    }
    None
}

pub fn find_enum<'a>(es: &'a Vec<EnumSymbol>, key: &str) -> (r: Option<&'a EnumSymbol>)
    ensures
        match r {
            Some(e) => first_enum(es@, key@) == Some(*e),
            None => first_enum(es@, key@) is None,
        },
{
    let mut k: usize = 0;
    assert(es@.skip(0) =~= es@);
    while k < es.len()
        invariant
            k <= es@.len(),
            first_enum(es@, key@) == first_enum(es@.skip(k as int), key@),
        decreases es.len() - k,
    {
        assert(es@.skip(k as int)[0] == es@[k as int]);
        assert(es@.skip(k as int).drop_first() =~= es@.skip(k + 1));
        if str_eq(es[k].key.as_str(), key) {
            return Some(&es[k]);
        }
        k = k + 1;
    }
    None
}

pub fn find_target<'a>(ts: &'a Vec<TargetSymbol>, key: &str) -> (r: Option<&'a TargetSymbol>)
    ensures
        match r {
            Some(t) => first_target(ts@, key@) == Some(*t),
            None => first_target(ts@, key@) is None,
        },
{
    let mut k: usize = 0;
    assert(ts@.skip(0) =~= ts@);
    while k < ts.len()
        invariant
            k <= ts@.len(),
            first_target(ts@, key@) == first_target(ts@.skip(k as int), key@),
        decreases ts.len() - k,
    {
        assert(ts@.skip(k as int)[0] == ts@[k as int]);
        assert(ts@.skip(k as int).drop_first() =~= ts@.skip(k + 1));
        if str_eq(ts[k].key.as_str(), key) {
            return Some(&ts[k]);
        }
        k = k + 1;
    }
    None
}

} // verus!
