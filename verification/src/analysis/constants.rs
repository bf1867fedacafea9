//! Redefinitions of story-level constants.
use vstd::prelude::*;

use crate::analysis::sites::{collect_sites, site_view, sites_view, story_sites, Site, SiteView};
use crate::diagnostic::{diag_views, DiagView, Diagnostic, DiagnosticSeverity};
use crate::parsed::{expr_same, same_expression, ConstantDeclaration, Object, Story};
use crate::text::{concat3, str_eq};

verus! {

/// The last constant named `name` declared outside modules in `sites`.
pub open spec fn last_root_constant(sites: Seq<SiteView>, name: Seq<char>) -> Option<ConstantDeclaration>
    decreases sites.len(),
{
    if sites.len() == 0 {
        None
    } else {
        let s = sites.last();
        match s.2 {
            Object::ConstantDeclaration(d) => if s.0 is None && d.name@ == name {
                Some(d)
            } else {
                last_root_constant(sites.drop_last(), name)
            },
            _ => last_root_constant(sites.drop_last(), name),
        }
    }
}

pub open spec fn redefinition_message(name: Seq<char>) -> Seq<char> {
    "CONST '"@ + name + "' has been redefined with a different type or value"@
}

/// The error for the constant at the last site, if an earlier story-level
/// constant of that name has another type or value.
pub open spec fn constant_check(sites: Seq<SiteView>) -> Seq<DiagView> {
    let s = sites.last();
    match s.2 {
        Object::ConstantDeclaration(d) => if s.0 is None {
            match last_root_constant(sites.drop_last(), d.name@) {
                Some(e) => if e.declared_type.type_view() == d.declared_type.type_view() && expr_same(e.expression, d.expression) {
                    Seq::empty()
                } else {
                    seq![(DiagnosticSeverity::Error, redefinition_message(d.name@), d.span)]
                },
                None => Seq::empty(),
            }
        } else {
            Seq::empty()
        },
        _ => Seq::empty(),
    }
}

/// The redefinition errors of all sites, in order.
pub open spec fn constant_checks(sites: Seq<SiteView>) -> Seq<DiagView>
    decreases sites.len(),
{
    if sites.len() == 0 {
        Seq::empty()
    } else {
        constant_checks(sites.drop_last()) + constant_check(sites)
    }
}

/// Site `i` of `sites` declares a story-level constant named `name`.
pub open spec fn root_constant_at(sites: Seq<SiteView>, i: int, name: Seq<char>) -> bool {
    &&& 0 <= i < sites.len()
    &&& sites[i].0 is None
    &&& sites[i].2 is ConstantDeclaration
    &&& sites[i].2->ConstantDeclaration_0.name@ == name
}

/// Site `i` is the latest story-level constant named `name` before site `j`.
pub open spec fn latest_root_constant(sites: Seq<SiteView>, i: int, j: int, name: Seq<char>) -> bool {
    &&& 0 <= i < j
    &&& root_constant_at(sites, i, name)
    &&& forall|k: int| i < k < j ==> !#[trigger] root_constant_at(sites, k, name)
}

/// Site `j` declares a story-level constant whose name the latest earlier
/// story-level constant has, with another type or value.
pub open spec fn redefines_differently(sites: Seq<SiteView>, j: int) -> bool {
    &&& 0 <= j < sites.len()
    &&& sites[j].0 is None
    &&& sites[j].2 is ConstantDeclaration
    &&& {
        let d = sites[j].2->ConstantDeclaration_0;
        exists|i: int| #[trigger] latest_root_constant(sites, i, j, d.name@) && {
            let e = sites[i].2->ConstantDeclaration_0;
            !(e.declared_type.type_view() == d.declared_type.type_view() && expr_same(e.expression, d.expression))
        }
    }
}

proof fn lemma_last_root_constant(sites: Seq<SiteView>, n: int, name: Seq<char>)
    requires
        0 <= n <= sites.len(),
    ensures
        match last_root_constant(sites.take(n), name) {
            Some(e) => exists|i: int| #[trigger] latest_root_constant(sites, i, n, name) && sites[i].2->ConstantDeclaration_0 == e,
            None => forall|i: int| 0 <= i < n ==> !#[trigger] root_constant_at(sites, i, name),
        },
    decreases n,
{
    if n > 0 {
        lemma_last_root_constant(sites, n - 1, name);
        assert(sites.take(n).drop_last() =~= sites.take(n - 1));
        assert(sites.take(n).last() == sites[n - 1]);
        if root_constant_at(sites, n - 1, name) {
            assert(latest_root_constant(sites, n - 1, n, name));
        } else {
            match last_root_constant(sites.take(n - 1), name) {
                Some(e) => {
                    let i = choose|i: int| #[trigger] latest_root_constant(sites, i, n - 1, name) && sites[i].2->ConstantDeclaration_0 == e;
                    assert(latest_root_constant(sites, i, n, name));
                },
                None => {},
            }
        }
    }
}

/// Each story-level `CONST` adds exactly one error when the latest earlier
/// story-level `CONST` of its name has another type or value, and nothing
/// otherwise: a first declaration, the same type and value again, and
/// constants inside modules add nothing.
pub proof fn law_constant_redefinition(sites: Seq<SiteView>, j: int)
    requires
        0 <= j < sites.len(),
    ensures
        constant_checks(sites.take(j + 1)) == constant_checks(sites.take(j)) + if redefines_differently(sites, j) {
            seq![
                (DiagnosticSeverity::Error, redefinition_message(sites[j].2->ConstantDeclaration_0.name@), sites[j].2->ConstantDeclaration_0.span),
            ]
        } else {
            Seq::empty()
        },
{
    assert(sites.take(j + 1).drop_last() =~= sites.take(j));
    assert(sites.take(j + 1).last() == sites[j]);
    match sites[j].2 {
        Object::ConstantDeclaration(d) => {
            if sites[j].0 is None {
                lemma_last_root_constant(sites, j, d.name@);
                match last_root_constant(sites.take(j), d.name@) {
                    Some(e) => {
                        let i = choose|i: int| #[trigger] latest_root_constant(sites, i, j, d.name@) && sites[i].2->ConstantDeclaration_0 == e;
                        if redefines_differently(sites, j) {
                            let i2 = choose|i2: int| #[trigger] latest_root_constant(sites, i2, j, d.name@) && {
                                let e2 = sites[i2].2->ConstantDeclaration_0;
                                !(e2.declared_type.type_view() == d.declared_type.type_view() && expr_same(e2.expression, d.expression))
                            };
                            if i < i2 {
                                assert(!root_constant_at(sites, i2, d.name@));
                            } else if i2 < i {
                                assert(!root_constant_at(sites, i, d.name@));
                            }
                        }
                    },
                    None => {
                        if redefines_differently(sites, j) {
                            let i2 = choose|i2: int| #[trigger] latest_root_constant(sites, i2, j, d.name@) && {
                                let e2 = sites[i2].2->ConstantDeclaration_0;
                                !(e2.declared_type.type_view() == d.declared_type.type_view() && expr_same(e2.expression, d.expression))
                            };
                            assert(root_constant_at(sites, i2, d.name@));
                        }
                    },
                }
            }
        },
        _ => {},
    }
}

/// The last story-level constant named `name` among `sites[..end]`.
fn find_last_root_constant<'a>(sites: &Vec<Site<'a>>, end: usize, name: &str) -> (r: Option<&'a ConstantDeclaration>)
    requires
        end <= sites@.len(),
    ensures
        match r {
            Some(d) => last_root_constant(sites_view(sites@).take(end as int), name@) == Some(*d),
            None => last_root_constant(sites_view(sites@).take(end as int), name@) is None,
        },
{
    let ghost v = sites_view(sites@);
    let mut k: usize = end;
    while k > 0
        invariant
            k <= end <= sites@.len(),
            v == sites_view(sites@),
            last_root_constant(v.take(end as int), name@) == last_root_constant(v.take(k as int), name@),
        decreases k,
    {
        let site = &sites[k - 1];
        proof {
            assert(v.take(k as int).drop_last() =~= v.take(k - 1));
            assert(v.take(k as int).last() == site_view(*site));
        }
        match site.object {
            Object::ConstantDeclaration(d) => {
                if site.module.is_none() && str_eq(d.name.as_str(), name) {
                    return Some(d);
                }
            },
            _ => {},
        }
        k = k - 1;
    }
    None
}

/// An error for each story-level constant that repeats an earlier one's
/// name with another type or value. Module constants are left to the
/// module namespace checks.
pub fn constant_redefinition_diagnostics(story: &Story) -> (r: Vec<Diagnostic>)
    ensures
        diag_views(r@) == constant_checks(story_sites(*story)),
{
    let sites = collect_sites(story);
    let ghost v = sites_view(sites@);
    let mut out: Vec<Diagnostic> = Vec::new();
    let mut k: usize = 0;
    assert(diag_views(out@) =~= constant_checks(v.take(0)));
    while k < sites.len()
        invariant
            k <= sites@.len(),
            v == sites_view(sites@),
            diag_views(out@) == constant_checks(v.take(k as int)),
        decreases sites.len() - k,
    {
        let site = &sites[k];
        proof {
            assert(v.take(k + 1).drop_last() =~= v.take(k as int));
            assert(v.take(k + 1).last() == site_view(*site));
        }
        match site.object {
            Object::ConstantDeclaration(d) => {
                if site.module.is_none() {
                    match find_last_root_constant(&sites, k, d.name.as_str()) {
                        Some(e) => {
                            if !(e.declared_type.same_as(&d.declared_type) && same_expression(&e.expression, &d.expression)) {
                                let message = concat3("CONST '", d.name.as_str(), "' has been redefined with a different type or value");
                                out.push(Diagnostic::error(d.span.duplicate(), message));
                            }
                        },
                        None => {},
                    }
                }
            },
            _ => {},
        }
        assert(diag_views(out@) =~= constant_checks(v.take(k + 1)));
        k = k + 1;
    }
    assert(v.take(v.len() as int) =~= v);
    out
}

} // verus!
