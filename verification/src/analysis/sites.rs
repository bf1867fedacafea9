//! The story flattened into the places the checks visit: every object with
//! the module and flow it stands in, and every flow with its path.
use vstd::prelude::*;

use crate::parsed::{ConditionalBranch, Flow, Module, Object, Story};
use crate::text::concat3;

verus! {

/// An object of the story, with the module (if any) and the path of the
/// flow (`knot` or `knot.stitch`, if any) that hold it.
pub struct Site<'a> {
    pub module: Option<&'a str>,
    pub flow: Option<String>,
    pub object: &'a Object,
}

pub type SiteView = (Option<Seq<char>>, Option<Seq<char>>, Object);

pub open spec fn opt_str_view(o: Option<&str>) -> Option<Seq<char>> {
    match o {
        Some(s) => Some(s@),
        None => None,
    }
}

pub open spec fn opt_string_view(o: Option<String>) -> Option<Seq<char>> {
    match o {
        Some(s) => Some(s@),
        None => None,
    }
}

pub open spec fn site_view(s: Site) -> SiteView {
    (opt_str_view(s.module), opt_string_view(s.flow), *s.object)
}

pub open spec fn sites_view(s: Seq<Site>) -> Seq<SiteView> {
    s.map_values(|x: Site| site_view(x))
}

/// An object followed by the objects nested in it, in order.
pub open spec fn object_sites(m: Option<Seq<char>>, f: Option<Seq<char>>, o: Object) -> Seq<SiteView>
    decreases o, 0nat,
{
    seq![(m, f, o)] + match o {
        Object::ContentList(c) => objects_sites(m, f, c.objects@),
        Object::Conditional(c) => branches_sites(m, f, c.branches@),
        Object::Choice(c) => (match c.start_content {
            Some(sc) => objects_sites(m, f, sc.objects@),
            None => Seq::empty(),
        }) + objects_sites(m, f, c.inner_content.objects@),
        Object::Weave(w) => objects_sites(m, f, w.content@),
        _ => Seq::empty(),
    }
}

pub open spec fn objects_sites(m: Option<Seq<char>>, f: Option<Seq<char>>, os: Seq<Object>) -> Seq<SiteView>
    decreases os, 1nat,
{
    if os.len() == 0 {
        Seq::empty()
    } else {
        objects_sites(m, f, os.drop_last()) + object_sites(m, f, os.last())
    }
}

pub open spec fn branches_sites(m: Option<Seq<char>>, f: Option<Seq<char>>, bs: Seq<ConditionalBranch>) -> Seq<SiteView>
    decreases bs, 1nat,
{
    if bs.len() == 0 {
        Seq::empty()
    } else {
        branches_sites(m, f, bs.drop_last()) + objects_sites(m, f, bs.last().content.content@)
    }
}

/// The path of a flow named `name` inside the flow at `parent`.
pub open spec fn child_path(parent: Option<Seq<char>>, name: Seq<char>) -> Seq<char> {
    match parent {
        Some(p) => p + "."@ + name,
        None => name,
    }
}

/// The objects of a flow and of the flows nested in it.
pub open spec fn flow_sites(m: Option<Seq<char>>, parent: Option<Seq<char>>, fl: Flow) -> Seq<SiteView>
    decreases fl, 0nat,
{
    let path = child_path(parent, fl.name@);
    objects_sites(m, Some(path), fl.weave.content@) + flows_sites(m, Some(path), fl.child_flows@)
}

pub open spec fn flows_sites(m: Option<Seq<char>>, parent: Option<Seq<char>>, fs: Seq<Flow>) -> Seq<SiteView>
    decreases fs, 1nat,
{
    if fs.len() == 0 {
        Seq::empty()
    } else {
        flows_sites(m, parent, fs.drop_last()) + flow_sites(m, parent, fs.last())
    }
}

pub open spec fn module_sites(md: Module) -> Seq<SiteView> {
    objects_sites(Some(md.name@), None, md.weave.content@) + flows_sites(Some(md.name@), None, md.flows@)
}

pub open spec fn modules_sites(ms: Seq<Module>) -> Seq<SiteView>
    decreases ms.len(),
{
    if ms.len() == 0 {
        Seq::empty()
    } else {
        modules_sites(ms.drop_last()) + module_sites(ms.last())
    }
}

/// Every object of the story, in reading order: root content, root flows,
/// then each module's content and flows.
pub open spec fn story_sites(story: Story) -> Seq<SiteView> {
    objects_sites(None, None, story.root_weave.content@) + flows_sites(None, None, story.flows@)
        + modules_sites(story.modules@)
}

/// A copy of an optional path.
pub fn copy_path(f: &Option<String>) -> (r: Option<String>)
    ensures
        opt_string_view(r) == opt_string_view(*f),
{
    match f {
        Some(p) => Some(p.clone()),
        None => None,
    }
}

fn push_object_sites<'a>(m: Option<&'a str>, f: &Option<String>, o: &'a Object, out: &mut Vec<Site<'a>>)
    ensures
        sites_view(final(out)@) == sites_view(old(out)@) + object_sites(opt_str_view(m), opt_string_view(*f), *o),
    decreases *o, 0nat,
{
    let ghost mv = opt_str_view(m);
    let ghost fv = opt_string_view(*f);
    let ghost before = sites_view(out@);
    out.push(Site { module: m, flow: copy_path(f), object: o });
    let ghost first = sites_view(out@);
    assert(first =~= before + seq![(mv, fv, *o)]);
    match o {
        Object::ContentList(c) => {
            proof {
                assert(decreases_to!(*o => (*o)->ContentList_0));
                assert(decreases_to!((*o)->ContentList_0 => c.objects));
                assert(decreases_to!(c.objects => c.objects@));
            }
            push_objects_sites(m, f, &c.objects, out);
            assert(sites_view(out@) =~= before + object_sites(mv, fv, *o));
        },
        Object::Conditional(c) => {
            proof {
                assert(decreases_to!(*o => (*o)->Conditional_0));
                assert(decreases_to!((*o)->Conditional_0 => c.branches));
                assert(decreases_to!(c.branches => c.branches@));
            }
            push_branches_sites(m, f, &c.branches, out);
            assert(sites_view(out@) =~= before + object_sites(mv, fv, *o));
        },
        Object::Choice(c) => {
            match &c.start_content {
                Some(sc) => {
                    proof {
                        assert(decreases_to!(*o => (*o)->Choice_0));
                        assert(decreases_to!((*o)->Choice_0 => c.start_content));
                        assert(decreases_to!(c.start_content => sc));
                        assert(decreases_to!(sc => sc.objects));
                        assert(decreases_to!(sc.objects => sc.objects@));
                    }
                    push_objects_sites(m, f, &sc.objects, out);
                },
                None => {},
            }
            proof {
                assert(decreases_to!(*o => (*o)->Choice_0));
                assert(decreases_to!((*o)->Choice_0 => c.inner_content));
                assert(decreases_to!(c.inner_content => c.inner_content.objects));
                assert(decreases_to!(c.inner_content.objects => c.inner_content.objects@));
            }
            push_objects_sites(m, f, &c.inner_content.objects, out);
            assert(sites_view(out@) =~= before + object_sites(mv, fv, *o));
        },
        Object::Weave(w) => {
            proof {
                assert(decreases_to!(*o => (*o)->Weave_0));
                assert(decreases_to!((*o)->Weave_0 => w.content));
                assert(decreases_to!(w.content => w.content@));
            }
            push_objects_sites(m, f, &w.content, out);
            assert(sites_view(out@) =~= before + object_sites(mv, fv, *o));
        },
        _ => {
            assert(sites_view(out@) =~= before + object_sites(mv, fv, *o));
        },
    }
}

fn push_objects_sites<'a>(m: Option<&'a str>, f: &Option<String>, os: &'a Vec<Object>, out: &mut Vec<Site<'a>>)
    ensures
        sites_view(final(out)@) == sites_view(old(out)@) + objects_sites(opt_str_view(m), opt_string_view(*f), os@),
    decreases os@, 1nat,
{
    let ghost mv = opt_str_view(m);
    let ghost fv = opt_string_view(*f);
    let ghost before = sites_view(out@);
    let mut i: usize = 0;
    assert(sites_view(out@) =~= before + objects_sites(mv, fv, os@.take(0)));
    while i < os.len()
        invariant
            i <= os@.len(),
            mv == opt_str_view(m),
            fv == opt_string_view(*f),
            sites_view(out@) == before + objects_sites(mv, fv, os@.take(i as int)),
        decreases os.len() - i,
    {
        proof {
            assert(decreases_to!(os@ => os@[i as int]));
            assert(os@.take(i + 1).drop_last() =~= os@.take(i as int));
        }
        push_object_sites(m, f, &os[i], out);
        assert(sites_view(out@) =~= before + objects_sites(mv, fv, os@.take(i + 1)));
        i = i + 1;
    }
    assert(os@.take(os@.len() as int) =~= os@);
}

fn push_branches_sites<'a>(m: Option<&'a str>, f: &Option<String>, bs: &'a Vec<ConditionalBranch>, out: &mut Vec<Site<'a>>)
    ensures
        sites_view(final(out)@) == sites_view(old(out)@) + branches_sites(opt_str_view(m), opt_string_view(*f), bs@),
    decreases bs@, 1nat,
{
    let ghost mv = opt_str_view(m);
    let ghost fv = opt_string_view(*f);
    let ghost before = sites_view(out@);
    let mut i: usize = 0;
    assert(sites_view(out@) =~= before + branches_sites(mv, fv, bs@.take(0)));
    while i < bs.len()
        invariant
            i <= bs@.len(),
            mv == opt_str_view(m),
            fv == opt_string_view(*f),
            sites_view(out@) == before + branches_sites(mv, fv, bs@.take(i as int)),
        decreases bs.len() - i,
    {
        proof {
            assert(decreases_to!(bs@ => bs@[i as int]));
            assert(decreases_to!(bs@[i as int] => bs@[i as int].content));
            assert(decreases_to!(bs@[i as int].content => bs@[i as int].content.content));
            assert(decreases_to!(bs@[i as int].content.content => bs@[i as int].content.content@));
            assert(bs@.take(i + 1).drop_last() =~= bs@.take(i as int));
        }
        push_objects_sites(m, f, &bs[i].content.content, out);
        assert(sites_view(out@) =~= before + branches_sites(mv, fv, bs@.take(i + 1)));
        i = i + 1;
    }
    assert(bs@.take(bs@.len() as int) =~= bs@);
}

/// The path of flow `name` inside the flow at `parent`.
pub fn make_child_path(parent: &Option<String>, name: &str) -> (r: String)
    ensures
        r@ == child_path(opt_string_view(*parent), name@),
{
    match parent {
        Some(p) => concat3(p.as_str(), ".", name),
        None => String::from_str(name),
    }
}

fn push_flow_sites<'a>(m: Option<&'a str>, parent: &Option<String>, fl: &'a Flow, out: &mut Vec<Site<'a>>)
    ensures
        sites_view(final(out)@) == sites_view(old(out)@) + flow_sites(opt_str_view(m), opt_string_view(*parent), *fl),
    decreases *fl, 0nat,
{
    let ghost before = sites_view(out@);
    let path = Some(make_child_path(parent, fl.name.as_str()));
    push_objects_sites(m, &path, &fl.weave.content, out);
    proof {
        assert(decreases_to!(*fl => fl.child_flows));
        assert(decreases_to!(fl.child_flows => fl.child_flows@));
    }
    push_flows_sites(m, &path, &fl.child_flows, out);
    assert(sites_view(out@) =~= before + flow_sites(opt_str_view(m), opt_string_view(*parent), *fl));
}

fn push_flows_sites<'a>(m: Option<&'a str>, parent: &Option<String>, fs: &'a Vec<Flow>, out: &mut Vec<Site<'a>>)
    ensures
        sites_view(final(out)@) == sites_view(old(out)@) + flows_sites(opt_str_view(m), opt_string_view(*parent), fs@),
    decreases fs@, 1nat,
{
    let ghost mv = opt_str_view(m);
    let ghost pv = opt_string_view(*parent);
    let ghost before = sites_view(out@);
    let mut i: usize = 0;
    assert(sites_view(out@) =~= before + flows_sites(mv, pv, fs@.take(0)));
    while i < fs.len()
        invariant
            i <= fs@.len(),
            mv == opt_str_view(m),
            pv == opt_string_view(*parent),
            sites_view(out@) == before + flows_sites(mv, pv, fs@.take(i as int)),
        decreases fs.len() - i,
    {
        proof {
            assert(decreases_to!(fs@ => fs@[i as int]));
            assert(fs@.take(i + 1).drop_last() =~= fs@.take(i as int));
        }
        push_flow_sites(m, parent, &fs[i], out);
        assert(sites_view(out@) =~= before + flows_sites(mv, pv, fs@.take(i + 1)));
        i = i + 1;
    }
    assert(fs@.take(fs@.len() as int) =~= fs@);
}

/// Every object of `story`, in reading order, with its module and flow.
pub fn collect_sites<'a>(story: &'a Story) -> (r: Vec<Site<'a>>)
    ensures
        sites_view(r@) == story_sites(*story),
{
    let mut out: Vec<Site<'a>> = Vec::new();
    let no_flow: Option<String> = None;
    assert(sites_view(out@) =~= Seq::<SiteView>::empty());
    push_objects_sites(None, &no_flow, &story.root_weave.content, &mut out);
    push_flows_sites(None, &no_flow, &story.flows, &mut out);
    let ghost root = sites_view(out@);
    let mut i: usize = 0;
    assert(modules_sites(story.modules@.take(0)) =~= Seq::<SiteView>::empty());
    assert(sites_view(out@) =~= root + modules_sites(story.modules@.take(0)));
    while i < story.modules.len()
        invariant
            i <= story.modules@.len(),
            root == objects_sites(None, None, story.root_weave.content@) + flows_sites(None, None, story.flows@),
            no_flow is None,
            sites_view(out@) == root + modules_sites(story.modules@.take(i as int)),
        decreases story.modules.len() - i,
    {
        let md = &story.modules[i];
        push_objects_sites(Some(md.name.as_str()), &no_flow, &md.weave.content, &mut out);
        push_flows_sites(Some(md.name.as_str()), &no_flow, &md.flows, &mut out);
        assert(story.modules@.take(i + 1).drop_last() =~= story.modules@.take(i as int));
        assert(story.modules@.take(i + 1).last() == *md);
        assert(sites_view(out@) =~= root + modules_sites(story.modules@.take(i + 1)));
        i = i + 1;
    }
    assert(story.modules@.take(story.modules@.len() as int) =~= story.modules@);
    out
}

/// A flow of the story with its module, its path and its parent's path.
pub struct FlowSite<'a> {
    pub module: Option<&'a str>,
    pub path: String,
    pub parent: Option<String>,
    pub flow: &'a Flow,
}

pub type FlowSiteView = (Option<Seq<char>>, Seq<char>, Option<Seq<char>>, Flow);

pub open spec fn flow_site_view(s: FlowSite) -> FlowSiteView {
    (opt_str_view(s.module), s.path@, opt_string_view(s.parent), *s.flow)
}

pub open spec fn flow_sites_view(s: Seq<FlowSite>) -> Seq<FlowSiteView> {
    s.map_values(|x: FlowSite| flow_site_view(x))
}

/// A flow followed by the flows nested in it.
pub open spec fn flow_tree(m: Option<Seq<char>>, parent: Option<Seq<char>>, fl: Flow) -> Seq<FlowSiteView>
    decreases fl, 0nat,
{
    let path = child_path(parent, fl.name@);
    seq![(m, path, parent, fl)] + flows_tree(m, Some(path), fl.child_flows@)
}

pub open spec fn flows_tree(m: Option<Seq<char>>, parent: Option<Seq<char>>, fs: Seq<Flow>) -> Seq<FlowSiteView>
    decreases fs, 1nat,
{
    if fs.len() == 0 {
        Seq::empty()
    } else {
        flows_tree(m, parent, fs.drop_last()) + flow_tree(m, parent, fs.last())
    }
}

pub open spec fn modules_flows(ms: Seq<Module>) -> Seq<FlowSiteView>
    decreases ms.len(),
{
    if ms.len() == 0 {
        Seq::empty()
    } else {
        modules_flows(ms.drop_last()) + flows_tree(Some(ms.last().name@), None, ms.last().flows@)
    }
}

/// Every flow of the story: root flows, then each module's, each followed
/// by its stitches.
pub open spec fn story_flows(story: Story) -> Seq<FlowSiteView> {
    flows_tree(None, None, story.flows@) + modules_flows(story.modules@)
}

fn push_flow_tree<'a>(m: Option<&'a str>, parent: &Option<String>, fl: &'a Flow, out: &mut Vec<FlowSite<'a>>)
    ensures
        flow_sites_view(final(out)@) == flow_sites_view(old(out)@) + flow_tree(opt_str_view(m), opt_string_view(*parent), *fl),
    decreases *fl, 0nat,
{
    let ghost before = flow_sites_view(out@);
    let path = make_child_path(parent, fl.name.as_str());
    let child_parent = Some(path.clone());
    out.push(FlowSite { module: m, path, parent: copy_path(parent), flow: fl });
    let ghost first = flow_sites_view(out@);
    assert(first =~= before + seq![(opt_str_view(m), child_path(opt_string_view(*parent), fl.name@), opt_string_view(*parent), *fl)]);
    proof {
        assert(decreases_to!(*fl => fl.child_flows));
        assert(decreases_to!(fl.child_flows => fl.child_flows@));
    }
    push_flows_tree(m, &child_parent, &fl.child_flows, out);
    assert(flow_sites_view(out@) =~= before + flow_tree(opt_str_view(m), opt_string_view(*parent), *fl));
}

fn push_flows_tree<'a>(m: Option<&'a str>, parent: &Option<String>, fs: &'a Vec<Flow>, out: &mut Vec<FlowSite<'a>>)
    ensures
        flow_sites_view(final(out)@) == flow_sites_view(old(out)@) + flows_tree(opt_str_view(m), opt_string_view(*parent), fs@),
    decreases fs@, 1nat,
{
    let ghost mv = opt_str_view(m);
    let ghost pv = opt_string_view(*parent);
    let ghost before = flow_sites_view(out@);
    let mut i: usize = 0;
    assert(flow_sites_view(out@) =~= before + flows_tree(mv, pv, fs@.take(0)));
    while i < fs.len()
        invariant
            i <= fs@.len(),
            mv == opt_str_view(m),
            pv == opt_string_view(*parent),
            flow_sites_view(out@) == before + flows_tree(mv, pv, fs@.take(i as int)),
        decreases fs.len() - i,
    {
        proof {
            assert(decreases_to!(fs@ => fs@[i as int]));
            assert(fs@.take(i + 1).drop_last() =~= fs@.take(i as int));
        }
        push_flow_tree(m, parent, &fs[i], out);
        assert(flow_sites_view(out@) =~= before + flows_tree(mv, pv, fs@.take(i + 1)));
        i = i + 1;
    }
    assert(fs@.take(fs@.len() as int) =~= fs@);
}

/// Every flow of `story` with its module and path, root flows first.
pub fn collect_flows<'a>(story: &'a Story) -> (r: Vec<FlowSite<'a>>)
    ensures
        flow_sites_view(r@) == story_flows(*story),
{
    let mut out: Vec<FlowSite<'a>> = Vec::new();
    let no_parent: Option<String> = None;
    assert(flow_sites_view(out@) =~= Seq::<FlowSiteView>::empty());
    push_flows_tree(None, &no_parent, &story.flows, &mut out);
    let ghost root = flow_sites_view(out@);
    let mut i: usize = 0;
    assert(flow_sites_view(out@) =~= root + modules_flows(story.modules@.take(0)));
    while i < story.modules.len()
        invariant
            i <= story.modules@.len(),
            root == flows_tree(None, None, story.flows@),
            no_parent is None,
            flow_sites_view(out@) == root + modules_flows(story.modules@.take(i as int)),
        decreases story.modules.len() - i,
    {
        let md = &story.modules[i];
        push_flows_tree(Some(md.name.as_str()), &no_parent, &md.flows, &mut out);
        assert(story.modules@.take(i + 1).drop_last() =~= story.modules@.take(i as int));
        assert(story.modules@.take(i + 1).last() == *md);
        assert(flow_sites_view(out@) =~= root + modules_flows(story.modules@.take(i + 1)));
        i = i + 1;
    }
    assert(story.modules@.take(story.modules@.len() as int) =~= story.modules@);
    out
}

} // verus!
