//! Declarative descriptions, live trees, and the reconciler over them.
use vstd::prelude::*;
use crate::host::{HostCall, HostOp, Listener, Node, Patch};
use crate::zip::{paired_at, zip_longest, Paired};

verus! {

broadcast use vstd::std_specs::vec::group_vec_axioms;

/// What an attribute value means, over mathematical values.
pub enum AttrV {
    Str(Seq<char>),
    Handler(nat),
}

/// The value of an attribute: a plain string, or an event callback.
#[derive(Debug)]
pub enum Attr {
    StringAttr(String),
    EventHandler(Listener),
}

impl View for Attr {
    type V = AttrV;

    open spec fn view(&self) -> AttrV {
        match self {
            Attr::StringAttr(s) => AttrV::Str(s@),
            Attr::EventHandler(l) => AttrV::Handler(l.id as nat),
        }
    }
}

/// One entry of an attribute map.
#[derive(Debug)]
pub struct AttrEntry {
    pub key: String,
    pub value: Attr,
}

/// A declarative node: the desired shape of a UI tree, with no live handles.
#[derive(Debug)]
pub enum VDom {
    Text { text: String },
    Elem { name: String, attrs: Vec<AttrEntry>, children: Vec<VDom> },
}

/// A live node: a materialised tree, each node owning its host handle.
#[derive(Debug)]
pub enum LiveDom {
    Text { text: String, node: Node },
    Elem { name: String, attrs: Vec<AttrEntry>, children: Vec<LiveDom>, node: Node },
}

/// The attribute map as a sequence of (key, value) pairs.
pub open spec fn attrs_view(a: Seq<AttrEntry>) -> Seq<(Seq<char>, AttrV)> {
    a.map_values(|e: AttrEntry| (e.key@, e.value@))
}

/// The keys of an attribute map are distinct: it is a mapping.
pub open spec fn keys_unique(a: Seq<(Seq<char>, AttrV)>) -> bool {
    forall|i: int, j: int| 0 <= i < j < a.len() ==> #[trigger] a[i].0 != #[trigger] a[j].0
}

/// Every attribute map of the description is a mapping.
pub open spec fn well_formed(d: VDom) -> bool
    decreases d,
{
    match d {
        VDom::Text { .. } => true,
        VDom::Elem { attrs, children, .. } => {
            &&& keys_unique(attrs_view(attrs@))
            &&& forall|i: int| 0 <= i < children@.len() ==> well_formed(#[trigger] children@[i])
        },
    }
}

/// The number of nodes of a description.
pub open spec fn size(d: VDom) -> nat
    decreases d,
{
    match d {
        VDom::Text { .. } => 1,
        VDom::Elem { children, .. } => 1 + sizes(children@),
    }
}

/// The number of nodes of a sequence of descriptions.
pub open spec fn sizes(cs: Seq<VDom>) -> nat
    decreases cs,
{
    if cs.len() == 0 {
        0
    } else {
        sizes(cs.drop_last()) + size(cs.last())
    }
}

/// Taking one more description of `cs` adds its size.
pub proof fn lemma_sizes_step(cs: Seq<VDom>, k: int)
    requires
        0 <= k < cs.len(),
    ensures
        sizes(cs.take(k + 1)) == sizes(cs.take(k)) + size(cs[k]),
{
    assert(cs.take(k + 1).drop_last() =~= cs.take(k));
}

/// A longer prefix has at least as many nodes.
pub proof fn lemma_sizes_prefix(cs: Seq<VDom>, i: int, j: int)
    requires
        0 <= i <= j <= cs.len(),
    ensures
        sizes(cs.take(i)) <= sizes(cs.take(j)),
    decreases j - i,
{
    if i < j {
        lemma_sizes_step(cs, j - 1);
        lemma_sizes_prefix(cs, i, j - 1);
    }
}

/// The handle that a live node owns.
pub open spec fn handle_of(l: LiveDom) -> Node {
    match l {
        LiveDom::Text { node, .. } => node,
        LiveDom::Elem { node, .. } => node,
    }
}

/// The host call that puts one attribute onto a fresh node.
pub open spec fn install_call(node: nat, a: (Seq<char>, AttrV)) -> HostCall {
    match a.1 {
        AttrV::Str(s) => HostCall::SetAttribute(node, a.0, s),
        AttrV::Handler(l) => HostCall::AddListener(node, a.0, l),
    }
}

/// The host calls that put a whole attribute map onto a fresh node.
pub open spec fn install_calls(node: nat, a: Seq<(Seq<char>, AttrV)>) -> Seq<HostCall> {
    a.map_values(|p: (Seq<char>, AttrV)| install_call(node, p))
}

/// The host calls that materialise `d`, its nodes taking the handles
/// `next`, `next + 1`, ... in pre-order: each node is created, then its
/// attributes are set, then its children are built and appended in order.
pub open spec fn build_calls(d: VDom, next: nat) -> Seq<HostCall>
    decreases d,
{
    match d {
        VDom::Text { text } => seq![HostCall::CreateText(next, text@)],
        VDom::Elem { name, attrs, children } => seq![HostCall::CreateElement(next, name@)]
            + install_calls(next, attrs_view(attrs@)) + build_children_calls(
            next,
            children@,
            next + 1,
        ),
    }
}

/// The host calls that build `cs` in order, from handle `start` on, and
/// append each result to `parent`.
pub open spec fn build_children_calls(parent: nat, cs: Seq<VDom>, start: nat) -> Seq<HostCall>
    decreases cs,
{
    if cs.len() == 0 {
        seq![]
    } else {
        let at = start + sizes(cs.drop_last());
        build_children_calls(parent, cs.drop_last(), start) + build_calls(cs.last(), at) + seq![
            HostCall::AppendChild(parent, at),
        ]
    }
}

/// `l` mirrors `d` exactly: same variants, texts, names, attributes and
/// children, whatever its handles.
pub open spec fn mirrors(l: LiveDom, d: VDom) -> bool
    decreases l,
{
    match (l, d) {
        (LiveDom::Text { text, .. }, VDom::Text { text: t }) => text@ == t@,
        (
            LiveDom::Elem { name, attrs, children, .. },
            VDom::Elem { name: n, attrs: a, children: cs },
        ) => {
            &&& name@ == n@
            &&& attrs_view(attrs@) == attrs_view(a@)
            &&& children@.len() == cs@.len()
            &&& forall|i: int|
                0 <= i < children@.len() ==> mirrors(#[trigger] children@[i], cs@[i])
        },
        _ => false,
    }
}

/// `l` is what building `d` from handle `next` gives: it mirrors `d`, and
/// its nodes hold the handles `next`, `next + 1`, ... in pre-order.
pub open spec fn built(l: LiveDom, d: VDom, next: nat) -> bool
    decreases l,
{
    match (l, d) {
        (LiveDom::Text { text, node }, VDom::Text { text: t }) => text@ == t@ && node.id == next,
        (
            LiveDom::Elem { name, attrs, children, node },
            VDom::Elem { name: n, attrs: a, children: cs },
        ) => {
            &&& node.id == next
            &&& name@ == n@
            &&& attrs_view(attrs@) == attrs_view(a@)
            &&& children@.len() == cs@.len()
            &&& forall|i: int|
                0 <= i < children@.len() ==> built(
                    #[trigger] children@[i],
                    cs@[i],
                    next + 1 + sizes(cs@.take(i)),
                )
        },
        _ => false,
    }
}

/// The host call that releases one attribute of a node being torn down:
/// listeners are unregistered, string attributes need nothing.
pub open spec fn release_call(node: nat, a: (Seq<char>, AttrV)) -> Seq<HostCall> {
    match a.1 {
        AttrV::Handler(l) => seq![HostCall::RemoveListener(node, a.0, l)],
        AttrV::Str(_) => seq![],
    }
}

/// The host calls that release the listeners of an attribute map, in order.
pub open spec fn release_calls(node: nat, a: Seq<(Seq<char>, AttrV)>) -> Seq<HostCall>
    decreases a.len(),
{
    if a.len() == 0 {
        seq![]
    } else {
        release_calls(node, a.drop_last()) + release_call(node, a.last())
    }
}

/// The call that detaches a handle from its parent, if it has one.
pub open spec fn detach_calls(parent: Option<Node>, child: Node) -> Seq<HostCall> {
    match parent {
        Some(p) => seq![HostCall::RemoveChild(p.id as nat, child.id as nat)],
        None => seq![],
    }
}

/// The host calls that tear `l` down: each node, in pre-order, is detached
/// from its parent (the root from `parent`, if any) and has its listeners
/// released.
pub open spec fn halt_calls(l: LiveDom, parent: Option<Node>) -> Seq<HostCall>
    decreases l,
{
    match l {
        LiveDom::Text { node, .. } => detach_calls(parent, node),
        LiveDom::Elem { attrs, children, node, .. } => detach_calls(parent, node) + release_calls(
            node.id as nat,
            attrs_view(attrs@),
        ) + halt_children_calls(node, children@),
    }
}

/// The host calls that tear down each of `cs`, children of `parent`, in order.
pub open spec fn halt_children_calls(parent: Node, cs: Seq<LiveDom>) -> Seq<HostCall>
    decreases cs,
{
    if cs.len() == 0 {
        seq![]
    } else {
        halt_children_calls(parent, cs.drop_last()) + halt_calls(cs.last(), Some(parent))
    }
}

/// The value of `k` in an attribute map (its last entry, where it repeats).
pub open spec fn lookup(a: Seq<(Seq<char>, AttrV)>, k: Seq<char>) -> Option<AttrV>
    decreases a.len(),
{
    if a.len() == 0 {
        None
    } else if a.last().0 == k {
        Some(a.last().1)
    } else {
        lookup(a.drop_last(), k)
    }
}

/// The host calls that take one attribute off a node that stays.
pub open spec fn uninstall_call(node: nat, a: (Seq<char>, AttrV)) -> HostCall {
    match a.1 {
        AttrV::Str(_) => HostCall::RemoveAttribute(node, a.0),
        AttrV::Handler(l) => HostCall::RemoveListener(node, a.0, l),
    }
}

/// The host calls that bring the attribute `a` of a node up to date, given
/// the value `prev` that its key had before: nothing where the value is
/// unchanged; an overwrite where a string stays a string; otherwise the old
/// installation is removed before the new one is put in place.
pub open spec fn entry_calls(node: nat, prev: Option<AttrV>, a: (Seq<char>, AttrV)) -> Seq<
    HostCall,
> {
    match prev {
        None => seq![install_call(node, a)],
        Some(p) => if p == a.1 {
            seq![]
        } else {
            match (p, a.1) {
                (AttrV::Str(_), AttrV::Str(s)) => seq![HostCall::SetAttribute(node, a.0, s)],
                _ => seq![uninstall_call(node, (a.0, p)), install_call(node, a)],
            }
        },
    }
}

/// The host calls that bring each attribute of `new` up to date, in order.
pub open spec fn update_new_calls(
    node: nat,
    old: Seq<(Seq<char>, AttrV)>,
    new: Seq<(Seq<char>, AttrV)>,
) -> Seq<HostCall>
    decreases new.len(),
{
    if new.len() == 0 {
        seq![]
    } else {
        update_new_calls(node, old, new.drop_last()) + entry_calls(
            node,
            lookup(old, new.last().0),
            new.last(),
        )
    }
}

/// The host calls that remove, in order, each attribute of `old` whose key
/// `new` no longer has.
pub open spec fn stale_calls(
    node: nat,
    old: Seq<(Seq<char>, AttrV)>,
    new: Seq<(Seq<char>, AttrV)>,
) -> Seq<HostCall>
    decreases old.len(),
{
    if old.len() == 0 {
        seq![]
    } else {
        stale_calls(node, old.drop_last(), new) + if lookup(new, old.last().0) is None {
            seq![uninstall_call(node, old.last())]
        } else {
            seq![]
        }
    }
}

/// The host calls that turn the attributes `old` of a node into `new`.
pub open spec fn attr_calls(
    node: nat,
    old: Seq<(Seq<char>, AttrV)>,
    new: Seq<(Seq<char>, AttrV)>,
) -> Seq<HostCall> {
    update_new_calls(node, old, new) + stale_calls(node, old, new)
}

/// The longer of two lengths.
pub open spec fn longer(a: nat, b: nat) -> nat {
    if a >= b {
        a
    } else {
        b
    }
}

/// The number of fresh handles that stepping `l` against `d` takes.
pub open spec fn step_used(l: LiveDom, d: VDom) -> nat
    decreases l, 0nat,
{
    match (l, d) {
        (LiveDom::Text { .. }, VDom::Text { .. }) => 0,
        (LiveDom::Elem { name, children, .. }, VDom::Elem { name: n, children: cs, .. }) => {
            if name@ == n@ {
                children_used(children@, cs@, longer(children@.len(), cs@.len()))
            } else {
                size(d)
            }
        },
        _ => size(d),
    }
}

/// The number of fresh handles that reconciling the first `k` positions of
/// `olds` against `news` takes.
pub open spec fn children_used(olds: Seq<LiveDom>, news: Seq<VDom>, k: nat) -> nat
    decreases olds, k,
{
    if k == 0 {
        0
    } else {
        let i = k - 1;
        children_used(olds, news, i as nat) + if i < olds.len() && i < news.len() {
            step_used(olds[i], news[i])
        } else if i < news.len() {
            size(news[i])
        } else {
            0
        }
    }
}

/// The host calls of a replacement: `l` is torn down, `d` is built from
/// handle `next`, and the new root is appended to `parent`, if any. Being
/// appended, it keeps `l`'s place among its siblings only where `l` was the
/// last of them.
pub open spec fn replace_calls(l: LiveDom, d: VDom, parent: Option<Node>, next: nat) -> Seq<
    HostCall,
> {
    halt_calls(l, parent) + build_calls(d, next) + match parent {
        Some(p) => seq![HostCall::AppendChild(p.id as nat, next)],
        None => seq![],
    }
}

/// The host calls that reconcile `l`, a child of `parent` (if any),
/// against `d`, fresh handles being taken from `next` on.
///
/// Text against text changes the text in place, and only if it differs.
/// An element against an element of the same name keeps its handle: its
/// attributes, then its children are reconciled. Any other pair is a
/// replacement.
pub open spec fn step_calls(l: LiveDom, d: VDom, parent: Option<Node>, next: nat) -> Seq<
    HostCall,
>
    decreases l, 0nat,
{
    match (l, d) {
        (LiveDom::Text { text, node }, VDom::Text { text: t }) => {
            if text@ == t@ {
                seq![]
            } else {
                seq![HostCall::SetText(node.id as nat, t@)]
            }
        },
        (
            LiveDom::Elem { name, attrs, children, node },
            VDom::Elem { name: n, attrs: a, children: cs },
        ) => {
            if name@ == n@ {
                attr_calls(node.id as nat, attrs_view(attrs@), attrs_view(a@)) + children_calls(
                    node,
                    children@,
                    cs@,
                    longer(children@.len(), cs@.len()),
                    next,
                )
            } else {
                replace_calls(l, d, parent, next)
            }
        },
        _ => replace_calls(l, d, parent, next),
    }
}

/// The host calls that reconcile the first `k` positions of the children
/// `olds` of `parent` against `news`, by position: where both have a node
/// it is stepped, where only `olds` has one it is torn down, and where only
/// `news` has one it is built and appended.
pub open spec fn children_calls(
    parent: Node,
    olds: Seq<LiveDom>,
    news: Seq<VDom>,
    k: nat,
    next: nat,
) -> Seq<HostCall>
    decreases olds, k,
{
    if k == 0 {
        seq![]
    } else {
        let i = k - 1;
        let at = next + children_used(olds, news, i as nat);
        children_calls(parent, olds, news, i as nat, next) + if i < olds.len() && i < news.len() {
            step_calls(olds[i], news[i], Some(parent), at)
        } else if i < olds.len() {
            halt_calls(olds[i], Some(parent))
        } else {
            build_calls(news[i], at) + seq![HostCall::AppendChild(parent.id as nat, at)]
        }
    }
}

/// `r` is what stepping `l` against `d` gives, fresh handles being taken
/// from `next` on: a node that is kept keeps its handle, and a node that is
/// built is `built`.
pub open spec fn stepped(r: LiveDom, l: LiveDom, d: VDom, next: nat) -> bool
    decreases l, 0nat,
{
    match (l, d) {
        (LiveDom::Text { node, .. }, VDom::Text { text: t }) => match r {
            LiveDom::Text { text, node: rn } => text@ == t@ && rn == node,
            _ => false,
        },
        (
            LiveDom::Elem { name, children, node, .. },
            VDom::Elem { name: n, attrs: a, children: cs },
        ) => {
            if name@ == n@ {
                match r {
                    LiveDom::Elem { name: rname, attrs: ra, children: rc, node: rn } => {
                        &&& rname@ == n@
                        &&& attrs_view(ra@) == attrs_view(a@)
                        &&& rn == node
                        &&& rc@.len() == cs@.len()
                        &&& forall|i: int|
                            0 <= i < cs@.len() ==> child_result(
                                #[trigger] rc@[i],
                                children@,
                                cs@,
                                i,
                                next,
                            )
                    },
                    _ => false,
                }
            } else {
                built(r, d, next)
            }
        },
        _ => built(r, d, next),
    }
}

/// `r` is what reconciling position `i` of `olds` against `news` gives.
pub open spec fn child_result(
    r: LiveDom,
    olds: Seq<LiveDom>,
    news: Seq<VDom>,
    i: int,
    next: nat,
) -> bool
    decreases olds, 1nat,
{
    let at = next + children_used(olds, news, i as nat);
    if 0 <= i < olds.len() && i < news.len() {
        stepped(r, olds[i], news[i], at)
    } else if 0 <= i < news.len() {
        built(r, news[i], at)
    } else {
        false
    }
}

/// Stepping never takes more fresh handles than the description has nodes.
pub proof fn lemma_step_used_bound(l: LiveDom, d: VDom)
    ensures
        step_used(l, d) <= size(d),
    decreases l, 0nat,
{
    match (l, d) {
        (LiveDom::Elem { name, children, .. }, VDom::Elem { name: n, children: cs, .. }) => {
            if name@ == n@ {
                let m = longer(children@.len(), cs@.len());
                lemma_children_used_bound(children@, cs@, m);
                assert(cs@.take(cs@.len() as int) =~= cs@);
            }
        },
        _ => {},
    }
}

/// Reconciling a prefix of positions takes no more fresh handles than the
/// descriptions at those positions have nodes.
pub proof fn lemma_children_used_bound(olds: Seq<LiveDom>, news: Seq<VDom>, k: nat)
    ensures
        children_used(olds, news, k) <= sizes(
            news.take(if k <= news.len() { k as int } else { news.len() as int }),
        ),
    decreases olds, k,
{
    if k > 0 {
        let i = (k - 1) as int;
        lemma_children_used_bound(olds, news, (k - 1) as nat);
        if i < news.len() {
            lemma_sizes_step(news, i);
            if i < olds.len() {
                lemma_step_used_bound(olds[i], news[i]);
            }
        }
    }
}

impl LiveDom {
    /// The handle that this node owns.
    pub fn node(&self) -> (r: Node)
        ensures
            r == handle_of(*self),
    {
        match self {
            LiveDom::Text { node, .. } => *node,
            LiveDom::Elem { node, .. } => *node,
        }
    }
}

/// The number of nodes of `d`, or `u64::MAX` where it has more.
pub fn node_count(d: &VDom) -> (r: u64)
    ensures
        r == if size(*d) <= u64::MAX {
            size(*d)
        } else {
            u64::MAX as nat
        },
    decreases d,
{
    match d {
        VDom::Text { .. } => 1,
        VDom::Elem { children, .. } => {
            let ghost cs = children@;
            let mut total: u64 = 1;
            let mut i: usize = 0;
            while i < children.len()
                invariant
                    i <= children.len(),
                    cs == children@,
                    *d is Elem,
                    cs == d->Elem_children@,
                    total == if 1 + sizes(cs.take(i as int)) <= u64::MAX {
                        1 + sizes(cs.take(i as int))
                    } else {
                        u64::MAX as nat
                    },
                decreases children.len() - i,
            {
                proof {
                    vstd::seq::axiom_seq_index_decreases(cs, i as int);
                    lemma_sizes_step(cs, i as int);
                }
                let c = node_count(&children[i]);
                if c > u64::MAX - total {
                    total = u64::MAX;
                } else {
                    total = total + c;
                }
                i = i + 1;
            }
            assert(cs.take(cs.len() as int) =~= cs);
            total
        },
    }
}

/// Issues the host calls that put each attribute of `attrs` onto `node`.
fn install_attrs(node: Node, attrs: &Vec<AttrEntry>, patch: &mut Patch)
    ensures
        final(patch)@ == old(patch)@ + install_calls(node.id as nat, attrs_view(attrs@)),
{
    let ghost a = attrs_view(attrs@);
    let mut i: usize = 0;
    while i < attrs.len()
        invariant
            i <= attrs.len(),
            a == attrs_view(attrs@),
            patch@ == old(patch)@ + install_calls(node.id as nat, a.take(i as int)),
        decreases attrs.len() - i,
    {
        let e = &attrs[i];
        match &e.value {
            Attr::StringAttr(v) => {
                patch.push(HostOp::SetAttribute { node, key: e.key.clone(), value: v.clone() });
            },
            Attr::EventHandler(l) => {
                patch.push(HostOp::AddListener { node, event: e.key.clone(), listener: *l });
            },
        }
        assert(a.take(i + 1) =~= a.take(i as int).push(a[i as int]));
        assert(install_calls(node.id as nat, a.take(i + 1)) =~= install_calls(
            node.id as nat,
            a.take(i as int),
        ).push(install_call(node.id as nat, a[i as int])));
        i = i + 1;
    }
    assert(a.take(i as int) =~= a);
}

/// Issues the host calls that release the listeners of `attrs` on `node`.
fn release_attrs(node: Node, attrs: &Vec<AttrEntry>, patch: &mut Patch)
    ensures
        final(patch)@ == old(patch)@ + release_calls(node.id as nat, attrs_view(attrs@)),
{
    let ghost a = attrs_view(attrs@);
    let mut i: usize = 0;
    while i < attrs.len()
        invariant
            i <= attrs.len(),
            a == attrs_view(attrs@),
            patch@ == old(patch)@ + release_calls(node.id as nat, a.take(i as int)),
        decreases attrs.len() - i,
    {
        let e = &attrs[i];
        match &e.value {
            Attr::StringAttr(_) => {},
            Attr::EventHandler(l) => {
                patch.push(HostOp::RemoveListener { node, event: e.key.clone(), listener: *l });
            },
        }
        assert(a.take(i + 1).drop_last() =~= a.take(i as int));
        assert(patch@ =~= old(patch)@ + release_calls(node.id as nat, a.take(i + 1)));
        i = i + 1;
    }
    assert(a.take(i as int) =~= a);
}

/// Tears `l` down: detaches every node of it from its parent (the root from
/// `parent`, if it has one) and releases every listener it holds.
pub fn halt(l: LiveDom, parent: Option<Node>, patch: &mut Patch)
    ensures
        final(patch)@ == old(patch)@ + halt_calls(l, parent),
    decreases l,
{
    let ghost l0 = l;
    match l {
        LiveDom::Text { node, .. } => {
            if let Some(p) = parent {
                patch.push(HostOp::RemoveChild { parent: p, child: node });
            }
            assert(patch@ =~= old(patch)@ + halt_calls(l0, parent));
        },
        LiveDom::Elem { attrs, children, node, .. } => {
            if let Some(p) = parent {
                patch.push(HostOp::RemoveChild { parent: p, child: node });
            }
            release_attrs(node, &attrs, patch);
            let ghost before = patch@;
            let ghost cs = children@;
            let ghost cv = children;
            assert(decreases_to!(l0 => cv));
            for c in it: children.into_iter()
                invariant
                    it.seq() == cs,
                    cv@ == cs,
                    l0 == l,
                    decreases_to!(l0 => cv),
                    patch@ == before + halt_children_calls(node, cs.take(it.index() as int)),
            {
                let ghost k = it.index() as int;
                assert(c == cs[k]);
                proof {
                    assert(decreases_to!(cv => cv@));
                    vstd::seq::axiom_seq_index_decreases(cs, k);
                }
                halt(c, Some(node), patch);
                assert(cs.take(k + 1).drop_last() =~= cs.take(k));
                assert(patch@ =~= before + halt_children_calls(node, cs.take(k + 1)));
            }
            assert(cs.take(cs.len() as int) =~= cs);
            assert(patch@ =~= old(patch)@ + halt_calls(l0, parent));
        },
    }
}

/// Whether two attribute values are the same.
fn same_attr(a: &Attr, b: &Attr) -> (r: bool)
    ensures
        r == (a@ == b@),
{
    match (a, b) {
        (Attr::StringAttr(x), Attr::StringAttr(y)) => *x == *y,
        (Attr::EventHandler(x), Attr::EventHandler(y)) => x.id == y.id,
        _ => false,
    }
}

/// The position of the entry that gives `key` its value in `attrs`.
fn find_attr(attrs: &Vec<AttrEntry>, key: &String) -> (r: Option<usize>)
    ensures
        match r {
            Some(j) => j < attrs@.len() && attrs@[j as int].key@ == key@ && lookup(
                attrs_view(attrs@),
                key@,
            ) == Some(attrs@[j as int].value@),
            None => lookup(attrs_view(attrs@), key@) is None,
        },
{
    let ghost a = attrs_view(attrs@);
    let mut j: usize = attrs.len();
    assert(a.take(j as int) =~= a);
    while j > 0
        invariant
            j <= attrs.len(),
            a == attrs_view(attrs@),
            lookup(a, key@) == lookup(a.take(j as int), key@),
        decreases j,
    {
        j = j - 1;
        assert(a.take(j + 1).drop_last() =~= a.take(j as int));
        if attrs[j].key == *key {
            return Some(j);
        }
    }
    assert(a.take(0) =~= Seq::<(Seq<char>, AttrV)>::empty());
    None
}

/// Issues the host calls that put the attribute `a` onto `node`.
fn install_attr(node: Node, a: &AttrEntry, patch: &mut Patch)
    ensures
        final(patch)@ == old(patch)@.push(install_call(node.id as nat, (a.key@, a.value@))),
{
    match &a.value {
        Attr::StringAttr(v) => {
            patch.push(HostOp::SetAttribute { node, key: a.key.clone(), value: v.clone() });
        },
        Attr::EventHandler(l) => {
            patch.push(HostOp::AddListener { node, event: a.key.clone(), listener: *l });
        },
    }
}

/// Issues the host call that takes the attribute `a` off `node`.
fn uninstall_attr(node: Node, a: &AttrEntry, patch: &mut Patch)
    ensures
        final(patch)@ == old(patch)@.push(uninstall_call(node.id as nat, (a.key@, a.value@))),
{
    match &a.value {
        Attr::StringAttr(_) => {
            patch.push(HostOp::RemoveAttribute { node, key: a.key.clone() });
        },
        Attr::EventHandler(l) => {
            patch.push(HostOp::RemoveListener { node, event: a.key.clone(), listener: *l });
        },
    }
}

/// Reconciles the attributes of `node` from `attrs_old` to `attrs_new`:
/// each new attribute is brought up to date in order, then each old one
/// whose key is gone is removed.
pub fn update_node_attrs(
    node: Node,
    attrs_old: &Vec<AttrEntry>,
    attrs_new: &Vec<AttrEntry>,
    patch: &mut Patch,
)
    ensures
        final(patch)@ == old(patch)@ + attr_calls(
            node.id as nat,
            attrs_view(attrs_old@),
            attrs_view(attrs_new@),
        ),
{
    let ghost o = attrs_view(attrs_old@);
    let ghost n = attrs_view(attrs_new@);
    let ghost id = node.id as nat;
    let mut i: usize = 0;
    while i < attrs_new.len()
        invariant
            i <= attrs_new.len(),
            o == attrs_view(attrs_old@),
            n == attrs_view(attrs_new@),
            id == node.id,
            patch@ == old(patch)@ + update_new_calls(id, o, n.take(i as int)),
        decreases attrs_new.len() - i,
    {
        let e = &attrs_new[i];
        let ghost before = patch@;
        match find_attr(attrs_old, &e.key) {
            None => {
                install_attr(node, e, patch);
            },
            Some(j) => {
                let p = &attrs_old[j].value;
                if same_attr(p, &e.value) {
                } else {
                    match (p, &e.value) {
                        (Attr::StringAttr(_), Attr::StringAttr(v)) => {
                            patch.push(
                                HostOp::SetAttribute { node, key: e.key.clone(), value: v.clone() },
                            );
                        },
                        _ => {
                            uninstall_attr(node, &attrs_old[j], patch);
                            install_attr(node, e, patch);
                        },
                    }
                }
            },
        }
        assert(n.take(i + 1).drop_last() =~= n.take(i as int));
        assert(n[i as int] == (e.key@, e.value@));
        assert(patch@ =~= before + entry_calls(id, lookup(o, e.key@), n[i as int]));
        i = i + 1;
    }
    assert(n.take(i as int) =~= n);
    let ghost mid = patch@;
    let mut i: usize = 0;
    while i < attrs_old.len()
        invariant
            i <= attrs_old.len(),
            o == attrs_view(attrs_old@),
            n == attrs_view(attrs_new@),
            id == node.id,
            patch@ == mid + stale_calls(id, o.take(i as int), n),
        decreases attrs_old.len() - i,
    {
        let e = &attrs_old[i];
        let ghost before = patch@;
        if find_attr(attrs_new, &e.key).is_none() {
            uninstall_attr(node, e, patch);
        }
        assert(o.take(i + 1).drop_last() =~= o.take(i as int));
        assert(o[i as int] == (e.key@, e.value@));
        assert(patch@ =~= mid + stale_calls(id, o.take(i + 1), n));
        i = i + 1;
    }
    assert(o.take(i as int) =~= o);
    assert(patch@ =~= old(patch)@ + attr_calls(id, o, n));
}

/// Replaces `l` by `d`: tears `l` down, builds `d`, and appends the new
/// root to `parent`, if `l` had one.
pub fn halt_and_build(
    l: LiveDom,
    d: VDom,
    parent: Option<Node>,
    next: &mut u64,
    patch: &mut Patch,
) -> (r: LiveDom)
    requires
        *old(next) + size(d) <= u64::MAX,
    ensures
        *final(next) == *old(next) + size(d),
        final(patch)@ == old(patch)@ + replace_calls(l, d, parent, *old(next) as nat),
        built(r, d, *old(next) as nat),
{
    let ghost start = *next as nat;
    let ghost d0 = d;
    halt(l, parent, patch);
    let r = build(d, next, patch);
    assert(handle_of(r).id == start) by {
        reveal_with_fuel(built, 1);
    }
    if let Some(p) = parent {
        patch.push(HostOp::AppendChild { parent: p, child: r.node() });
    }
    assert(patch@ =~= old(patch)@ + replace_calls(l, d0, parent, start));
    r
}

/// Reconciles `l`, a child of `parent` (if any), against `d`: see
/// `step_calls`. Fresh handles are taken from `*next` on.
pub fn step(l: LiveDom, d: VDom, parent: Option<Node>, next: &mut u64, patch: &mut Patch) -> (r:
    LiveDom)
    requires
        *old(next) + size(d) <= u64::MAX,
    ensures
        *final(next) == *old(next) + step_used(l, d),
        final(patch)@ == old(patch)@ + step_calls(l, d, parent, *old(next) as nat),
        stepped(r, l, d, *old(next) as nat),
    decreases l, 0nat,
{
    let ghost start = *next as nat;
    let ghost l0 = l;
    let ghost d0 = d;
    match d {
        VDom::Text { text: tnew } => match l {
            LiveDom::Text { text: told, node } => {
                if tnew != told {
                    patch.push(HostOp::SetText { node, text: tnew.clone() });
                }
                assert(patch@ =~= old(patch)@ + step_calls(l0, d0, parent, start));
                LiveDom::Text { text: tnew, node }
            },
            LiveDom::Elem { .. } => halt_and_build(l, VDom::Text { text: tnew }, parent, next, patch),
        },
        VDom::Elem { name, attrs, children: cs } => match l {
            LiveDom::Elem { name: name_old, attrs: attrs_old, children: children_old, node } => {
                if name == name_old {
                    proof {
                        lemma_step_used_bound(l0, d0);
                    }
                    update_node_attrs(node, &attrs_old, &attrs, patch);
                    let children = update_children(node, children_old, cs, next, patch);
                    assert(patch@ =~= old(patch)@ + step_calls(l0, d0, parent, start));
                    LiveDom::Elem { name, attrs, children, node }
                } else {
                    halt_and_build(
                        LiveDom::Elem {
                            name: name_old,
                            attrs: attrs_old,
                            children: children_old,
                            node,
                        },
                        VDom::Elem { name, attrs, children: cs },
                        parent,
                        next,
                        patch,
                    )
                }
            },
            LiveDom::Text { .. } => halt_and_build(
                l,
                VDom::Elem { name, attrs, children: cs },
                parent,
                next,
                patch,
            ),
        },
    }
}

/// Reconciles the children `olds` of `parent` against `news`, by position:
/// see `children_calls`. Returns the new children, one for each of `news`.
pub fn update_children(
    parent: Node,
    olds: Vec<LiveDom>,
    news: Vec<VDom>,
    next: &mut u64,
    patch: &mut Patch,
) -> (r: Vec<LiveDom>)
    requires
        *old(next) + sizes(news@) <= u64::MAX,
    ensures
        *final(next) == *old(next) + children_used(
            olds@,
            news@,
            longer(olds@.len(), news@.len()),
        ),
        final(patch)@ == old(patch)@ + children_calls(
            parent,
            olds@,
            news@,
            longer(olds@.len(), news@.len()),
            *old(next) as nat,
        ),
        r@.len() == news@.len(),
        forall|i: int|
            0 <= i < news@.len() ==> child_result(#[trigger] r@[i], olds@, news@, i, *old(next) as nat),
    decreases olds, 1nat,
{
    let ghost start = *next as nat;
    let ghost os = olds@;
    let ghost ns = news@;
    let ghost ov = olds;
    let ghost before = patch@;
    let zipped = zip_longest(olds, news);
    let ghost zs = zipped@;
    let mut out: Vec<LiveDom> = Vec::new();
    for z in it: zipped.into_iter()
        invariant
            it.seq() == zs,
            zs.len() == longer(os.len(), ns.len()),
            forall|i: int| 0 <= i < zs.len() ==> #[trigger] zs[i] == paired_at(os, ns, i),
            ov@ == os,
            ov == olds,
            start + sizes(ns) <= u64::MAX,
            *next == start + children_used(os, ns, it.index() as nat),
            patch@ == before + children_calls(parent, os, ns, it.index() as nat, start),
            out@.len() == if it.index() <= ns.len() {
                it.index() as int
            } else {
                ns.len() as int
            },
            forall|j: int|
                0 <= j < out@.len() ==> child_result(#[trigger] out@[j], os, ns, j, start),
    {
        let ghost k = it.index() as int;
        assert(z == zs[k]);
        let ghost at = start + children_used(os, ns, k as nat);
        proof {
            lemma_children_used_bound(os, ns, k as nat);
            if k < ns.len() {
                lemma_sizes_step(ns, k);
                lemma_sizes_prefix(ns, k + 1, ns.len() as int);
                assert(ns.take(ns.len() as int) =~= ns);
            }
        }
        match z {
            Paired::Both(c, dd) => {
                assert(c == os[k]);
                assert(decreases_to!(ov => ov@[k]));
                let child = step(c, dd, Some(parent), next, patch);
                out.push(child);
            },
            Paired::Left(c) => {
                halt(c, Some(parent), patch);
            },
            Paired::Right(dd) => {
                let child = build(dd, next, patch);
                assert(handle_of(child).id == at) by {
                    reveal_with_fuel(built, 1);
                }
                patch.push(HostOp::AppendChild { parent, child: child.node() });
                out.push(child);
            },
        }
        assert(patch@ =~= before + children_calls(parent, os, ns, (k + 1) as nat, start));
    }
    out
}

/// Materialises `d`: creates a handle for each of its nodes, from `*next`
/// on in pre-order, sets its attributes and appends its children.
pub fn build(d: VDom, next: &mut u64, patch: &mut Patch) -> (r: LiveDom)
    requires
        *old(next) + size(d) <= u64::MAX,
    ensures
        *final(next) == *old(next) + size(d),
        final(patch)@ == old(patch)@ + build_calls(d, *old(next) as nat),
        built(r, d, *old(next) as nat),
    decreases d,
{
    let ghost d0 = d;
    let ghost start = *next as nat;
    match d {
        VDom::Text { text } => {
            let node = Node { id: *next };
            *next = *next + 1;
            patch.push(HostOp::CreateText { node, text: text.clone() });
            assert(patch@ =~= old(patch)@ + build_calls(d0, start));
            LiveDom::Text { text, node }
        },
        VDom::Elem { name, attrs, children } => {
            let node = Node { id: *next };
            *next = *next + 1;
            patch.push(HostOp::CreateElement { node, name: name.clone() });
            install_attrs(node, &attrs, patch);
            let ghost before = patch@;
            let ghost cs = children@;
            let ghost cv = children;
            assert(decreases_to!(d0 => cv));
            let mut kids: Vec<LiveDom> = Vec::new();
            for c in it: children.into_iter()
                invariant
                    it.seq() == cs,
                    cv@ == cs,
                    d0 == d,
                    node.id == start,
                    decreases_to!(d0 => cv),
                    size(d0) == 1 + sizes(cs),
                    kids@.len() == it.index(),
                    *next == start + 1 + sizes(cs.take(it.index() as int)),
                    start + size(d0) <= u64::MAX,
                    patch@ == before + build_children_calls(
                        start,
                        cs.take(it.index() as int),
                        start + 1,
                    ),
                    forall|j: int|
                        0 <= j < kids@.len() ==> built(
                            #[trigger] kids@[j],
                            cs[j],
                            start + 1 + sizes(cs.take(j)),
                        ),
            {
                let ghost k = it.index() as int;
                assert(decreases_to!(cv => cv@));
                assert(c == cs[k]);
                proof {
                    vstd::seq::axiom_seq_index_decreases(cs, k);
                    lemma_sizes_step(cs, k);
                    lemma_sizes_prefix(cs, k + 1, cs.len() as int);
                    assert(cs.take(cs.len() as int) =~= cs);
                }
                let ghost at = start + 1 + sizes(cs.take(k));
                let ghost mid = patch@;
                let child = build(c, next, patch);
                assert(handle_of(child).id == at) by {
                    reveal_with_fuel(built, 1);
                }
                patch.push(HostOp::AppendChild { parent: node, child: child.node() });
                assert(cs.take(k + 1).drop_last() =~= cs.take(k));
                assert(build_children_calls(start, cs.take(k + 1), start + 1) == build_children_calls(
                    start,
                    cs.take(k),
                    start + 1,
                ) + build_calls(cs[k], at) + seq![HostCall::AppendChild(start, at)]);
                assert(patch@ =~= before + build_children_calls(start, cs.take(k + 1), start + 1));
                kids.push(child);
            }
            assert(cs.take(cs.len() as int) =~= cs);
            assert(patch@ =~= old(patch)@ + build_calls(d0, start));
            LiveDom::Elem { name, attrs, children: kids, node }
        },
    }
}

} // verus!
