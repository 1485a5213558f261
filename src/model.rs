//! What host calls do: a model of the host's nodes, their installed
//! attributes and listeners, and their children.
use vstd::prelude::*;
use crate::host::HostCall;
use crate::vdom::{attrs_view, lookup, sizes, AttrV, VDom};

verus! {

broadcast use vstd::std_specs::vec::group_vec_axioms;

/// What a host node has installed: string attributes by key, and
/// (event, listener) registrations.
pub struct AttrState {
    pub strs: Map<Seq<char>, Seq<char>>,
    pub handlers: Set<(Seq<char>, nat)>,
}

/// What one host call does to the installed attributes of its node.
pub open spec fn apply_attr_call(s: AttrState, c: HostCall) -> AttrState {
    match c {
        HostCall::SetAttribute(_, k, v) => AttrState { strs: s.strs.insert(k, v), ..s },
        HostCall::RemoveAttribute(_, k) => AttrState { strs: s.strs.remove(k), ..s },
        HostCall::AddListener(_, k, l) => AttrState { handlers: s.handlers.insert((k, l)), ..s },
        HostCall::RemoveListener(_, k, l) => AttrState {
            handlers: s.handlers.remove((k, l)),
            ..s
        },
        _ => s,
    }
}

/// What a sequence of host calls, all on one node, does to its installed
/// attributes.
pub open spec fn apply_attr_calls(s: AttrState, cs: Seq<HostCall>) -> AttrState
    decreases cs.len(),
{
    if cs.len() == 0 {
        s
    } else {
        apply_attr_call(apply_attr_calls(s, cs.drop_last()), cs.last())
    }
}

/// The installed attributes that give each key the value `f` gives it.
pub open spec fn state_of(f: spec_fn(Seq<char>) -> Option<AttrV>) -> AttrState {
    AttrState {
        strs: Map::new(
            |k: Seq<char>| f(k) is Some && f(k)->0 is Str,
            |k: Seq<char>| f(k)->0->Str_0,
        ),
        handlers: Set::new(|p: (Seq<char>, nat)| f(p.0) == Some(AttrV::Handler(p.1))),
    }
}

/// The installed attributes that realise an attribute map exactly.
pub open spec fn attr_state(a: Seq<(Seq<char>, AttrV)>) -> AttrState {
    state_of(|k: Seq<char>| lookup(a, k))
}

/// Nothing installed.
pub open spec fn no_attrs() -> AttrState {
    AttrState { strs: Map::empty(), handlers: Set::empty() }
}

/// What a host node is: a text, or an element of a name.
pub enum HostKind {
    Text(Seq<char>),
    Elem(Seq<char>),
}

/// A node of the host, as far as the reconciler can tell.
pub struct HostNode {
    pub kind: HostKind,
    pub attrs: AttrState,
    pub children: Seq<nat>,
}

/// The host's nodes by handle.
pub type HostNodes = Map<nat, HostNode>;

/// What one host call does to the host's nodes. A node is created bare;
/// an operation on a handle the host does not know changes nothing; an
/// appended child goes last; a removed child leaves its parent's list.
pub open spec fn apply_call(h: HostNodes, c: HostCall) -> HostNodes {
    match c {
        HostCall::CreateText(id, t) => h.insert(
            id,
            HostNode { kind: HostKind::Text(t), attrs: no_attrs(), children: seq![] },
        ),
        HostCall::CreateElement(id, n) => h.insert(
            id,
            HostNode { kind: HostKind::Elem(n), attrs: no_attrs(), children: seq![] },
        ),
        HostCall::SetText(id, t) => if h.contains_key(id) {
            h.insert(id, HostNode { kind: HostKind::Text(t), ..h[id] })
        } else {
            h
        },
        HostCall::SetAttribute(id, _, _) | HostCall::RemoveAttribute(id, _)
        | HostCall::AddListener(id, _, _) | HostCall::RemoveListener(id, _, _) => if h.contains_key(
            id,
        ) {
            h.insert(id, HostNode { attrs: apply_attr_call(h[id].attrs, c), ..h[id] })
        } else {
            h
        },
        HostCall::AppendChild(p, ch) => if h.contains_key(p) {
            h.insert(p, HostNode { children: h[p].children.push(ch), ..h[p] })
        } else {
            h
        },
        HostCall::RemoveChild(p, ch) => if h.contains_key(p) {
            h.insert(p, HostNode { children: h[p].children.filter(|x: nat| x != ch), ..h[p] })
        } else {
            h
        },
        HostCall::InstallRoot(_) => h,
    }
}

/// What a sequence of host calls does to the host's nodes.
pub open spec fn apply_calls(h: HostNodes, cs: Seq<HostCall>) -> HostNodes
    decreases cs.len(),
{
    if cs.len() == 0 {
        h
    } else {
        apply_call(apply_calls(h, cs.drop_last()), cs.last())
    }
}

/// The host knows no handle from `n` on.
pub open spec fn fresh_from(h: HostNodes, n: nat) -> bool {
    forall|id: nat| id >= n ==> !#[trigger] h.contains_key(id)
}

/// The two hosts hold the same nodes at every handle in `lo .. hi`.
pub open spec fn agree(h1: HostNodes, h2: HostNodes, lo: nat, hi: nat) -> bool {
    forall|id: nat|
        #![trigger h1.contains_key(id)]
        #![trigger h2.contains_key(id)]
        lo <= id < hi ==> {
            &&& h1.contains_key(id) == h2.contains_key(id)
            &&& h1.contains_key(id) ==> h1[id] == h2[id]
        }
}

/// The handles that building `cs` from handle `start` gives their roots.
pub open spec fn child_ids(cs: Seq<VDom>, start: nat) -> Seq<nat> {
    Seq::new(cs.len(), |i: int| start + sizes(cs.take(i)))
}

/// The host holds `d` at handle `id`, its nodes numbered in pre-order: each
/// node has the kind, the installed attributes and the children in order
/// that `d` gives it.
pub open spec fn realizes(h: HostNodes, d: VDom, id: nat) -> bool
    decreases d,
{
    &&& h.contains_key(id)
    &&& match d {
        VDom::Text { text } => {
            &&& h[id].kind == HostKind::Text(text@)
            &&& h[id].attrs == no_attrs()
            &&& h[id].children == Seq::<nat>::empty()
        },
        VDom::Elem { name, attrs, children } => {
            &&& h[id].kind == HostKind::Elem(name@)
            &&& h[id].attrs == attr_state(attrs_view(attrs@))
            &&& h[id].children == child_ids(children@, id + 1)
            &&& forall|i: int|
                0 <= i < children@.len() ==> realizes(
                    h,
                    #[trigger] children@[i],
                    id + 1 + sizes(children@.take(i)),
                )
        },
    }
}

} // verus!
