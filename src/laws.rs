//! Properties of the reconciler that relate its operations to each other.
use vstd::prelude::*;
use crate::host::{HostCall, Node};
use crate::model::{
    agree, apply_attr_call, apply_attr_calls, apply_call, apply_calls, attr_state, child_ids,
    fresh_from, no_attrs, realizes, state_of, AttrState, HostKind, HostNode, HostNodes,
};
use crate::vdom::{
    attr_calls, attrs_view, build_calls, build_children_calls, built, install_call, install_calls,
    lemma_sizes_prefix, lemma_sizes_step, size, sizes, child_result, children_calls, children_used,
    detach_calls, entry_calls, uninstall_call, halt_calls, halt_children_calls, keys_unique, longer, lookup,
    mirrors, release_call, release_calls, stale_calls, step_calls, step_used, stepped,
    update_new_calls, well_formed, AttrV, LiveDom, VDom,
};

verus! {

broadcast use vstd::std_specs::vec::group_vec_axioms;

/// The number of nodes of a live tree.
pub open spec fn live_size(l: LiveDom) -> nat
    decreases l,
{
    match l {
        LiveDom::Text { .. } => 1,
        LiveDom::Elem { children, .. } => 1 + live_sizes(children@),
    }
}

/// The number of nodes of a sequence of live trees.
pub open spec fn live_sizes(cs: Seq<LiveDom>) -> nat
    decreases cs,
{
    if cs.len() == 0 {
        0
    } else {
        live_sizes(cs.drop_last()) + live_size(cs.last())
    }
}

/// The number of event-handler entries of an attribute map.
pub open spec fn handler_count(a: Seq<(Seq<char>, AttrV)>) -> nat
    decreases a.len(),
{
    if a.len() == 0 {
        0
    } else {
        handler_count(a.drop_last()) + if a.last().1 is Handler {
            1nat
        } else {
            0nat
        }
    }
}

/// The number of event-handler attributes of a live tree.
pub open spec fn listener_count(l: LiveDom) -> nat
    decreases l,
{
    match l {
        LiveDom::Text { .. } => 0,
        LiveDom::Elem { attrs, children, .. } => handler_count(attrs_view(attrs@))
            + listener_counts(children@),
    }
}

/// The number of event-handler attributes of a sequence of live trees.
pub open spec fn listener_counts(cs: Seq<LiveDom>) -> nat
    decreases cs,
{
    if cs.len() == 0 {
        0
    } else {
        listener_counts(cs.drop_last()) + listener_count(cs.last())
    }
}

/// The number of calls that detach a child from its parent.
pub open spec fn detaches(c: Seq<HostCall>) -> nat
    decreases c.len(),
{
    if c.len() == 0 {
        0
    } else {
        detaches(c.drop_last()) + if c.last() is RemoveChild {
            1nat
        } else {
            0nat
        }
    }
}

/// The number of calls that unregister a listener.
pub open spec fn releases(c: Seq<HostCall>) -> nat
    decreases c.len(),
{
    if c.len() == 0 {
        0
    } else {
        releases(c.drop_last()) + if c.last() is RemoveListener {
            1nat
        } else {
            0nat
        }
    }
}

/// Both tallies add up over concatenation.
pub proof fn lemma_tallies_add(a: Seq<HostCall>, b: Seq<HostCall>)
    ensures
        detaches(a + b) == detaches(a) + detaches(b),
        releases(a + b) == releases(a) + releases(b),
    decreases b.len(),
{
    if b.len() == 0 {
        assert(a + b =~= a);
    } else {
        lemma_tallies_add(a, b.drop_last());
        assert((a + b).drop_last() =~= a + b.drop_last());
    }
}

/// Releasing an attribute map unregisters one listener per event handler
/// and detaches nothing.
pub proof fn lemma_release_tallies(node: nat, a: Seq<(Seq<char>, AttrV)>)
    ensures
        detaches(release_calls(node, a)) == 0,
        releases(release_calls(node, a)) == handler_count(a),
    decreases a.len(),
{
    if a.len() > 0 {
        lemma_release_tallies(node, a.drop_last());
        lemma_tallies_add(release_calls(node, a.drop_last()), release_call(node, a.last()));
        reveal_with_fuel(detaches, 2);
        reveal_with_fuel(releases, 2);
    }
}

/// Tearing a tree down visits each of its nodes once: every node but a
/// root without a parent is detached exactly once, and exactly one listener
/// is released per event-handler attribute in the tree.
pub proof fn lemma_halt_totality(l: LiveDom, parent: Option<Node>)
    ensures
        detaches(halt_calls(l, parent)) + (if parent is None {
            1nat
        } else {
            0nat
        }) == live_size(l),
        releases(halt_calls(l, parent)) == listener_count(l),
    decreases l, 0nat,
{
    reveal_with_fuel(detaches, 2);
    reveal_with_fuel(releases, 2);
    match l {
        LiveDom::Text { node, .. } => {},
        LiveDom::Elem { attrs, children, node, .. } => {
            let a = attrs_view(attrs@);
            lemma_release_tallies(node.id as nat, a);
            lemma_halt_children_totality(node, children@);
            lemma_tallies_add(detach_calls(parent, node), release_calls(node.id as nat, a));
            lemma_tallies_add(
                detach_calls(parent, node) + release_calls(node.id as nat, a),
                halt_children_calls(node, children@),
            );
        },
    }
}

/// Tearing down a sequence of children detaches each of their nodes once
/// and releases each of their listeners once.
pub proof fn lemma_halt_children_totality(parent: Node, cs: Seq<LiveDom>)
    ensures
        detaches(halt_children_calls(parent, cs)) == live_sizes(cs),
        releases(halt_children_calls(parent, cs)) == listener_counts(cs),
    decreases cs,
{
    if cs.len() > 0 {
        lemma_halt_children_totality(parent, cs.drop_last());
        lemma_halt_totality(cs.last(), Some(parent));
        lemma_tallies_add(
            halt_children_calls(parent, cs.drop_last()),
            halt_calls(cs.last(), Some(parent)),
        );
    }
}

/// In a mapping, each key looks up its own value.
pub proof fn lemma_lookup_unique(a: Seq<(Seq<char>, AttrV)>, i: int)
    requires
        keys_unique(a),
        0 <= i < a.len(),
    ensures
        lookup(a, a[i].0) == Some(a[i].1),
    decreases a.len(),
{
    if i < a.len() - 1 {
        assert(a[i].0 != a[a.len() - 1].0);
        let b = a.drop_last();
        assert(b[i] == a[i]);
        lemma_lookup_unique(b, i);
    }
}

/// Reconciling a mapping against itself issues no host call.
pub proof fn lemma_attrs_quiet(node: nat, a: Seq<(Seq<char>, AttrV)>)
    requires
        keys_unique(a),
    ensures
        attr_calls(node, a, a) == Seq::<HostCall>::empty(),
{
    lemma_update_new_quiet(node, a, a.len() as int);
    lemma_stale_quiet(node, a, a.len() as int);
    assert(a.take(a.len() as int) =~= a);
}

/// Bringing a prefix of a mapping up to date against the mapping itself
/// issues no host call.
pub proof fn lemma_update_new_quiet(node: nat, a: Seq<(Seq<char>, AttrV)>, j: int)
    requires
        keys_unique(a),
        0 <= j <= a.len(),
    ensures
        update_new_calls(node, a, a.take(j)) == Seq::<HostCall>::empty(),
    decreases j,
{
    if j > 0 {
        lemma_update_new_quiet(node, a, j - 1);
        lemma_lookup_unique(a, j - 1);
        assert(a.take(j).drop_last() =~= a.take(j - 1));
        assert(entry_calls(node, lookup(a, a[j - 1].0), a[j - 1]) =~= Seq::<HostCall>::empty());
        assert(update_new_calls(node, a, a.take(j)) =~= Seq::<HostCall>::empty());
    }
}

/// No key of a prefix of a mapping is stale against the mapping itself.
pub proof fn lemma_stale_quiet(node: nat, a: Seq<(Seq<char>, AttrV)>, j: int)
    requires
        keys_unique(a),
        0 <= j <= a.len(),
    ensures
        stale_calls(node, a.take(j), a) == Seq::<HostCall>::empty(),
    decreases j,
{
    if j > 0 {
        lemma_stale_quiet(node, a, j - 1);
        lemma_lookup_unique(a, j - 1);
        assert(a.take(j).drop_last() =~= a.take(j - 1));
        assert(stale_calls(node, a.take(j), a) =~= Seq::<HostCall>::empty());
    }
}

/// Stepping a live tree against a description that it already mirrors
/// issues no host call and takes no fresh handle.
pub proof fn lemma_step_quiet(l: LiveDom, d: VDom, parent: Option<Node>, next: nat)
    requires
        well_formed(d),
        mirrors(l, d),
    ensures
        step_calls(l, d, parent, next) == Seq::<HostCall>::empty(),
        step_used(l, d) == 0,
    decreases l, 0nat,
{
    match (l, d) {
        (LiveDom::Text { .. }, VDom::Text { .. }) => {},
        (LiveDom::Elem { attrs, children, node, .. }, VDom::Elem { attrs: a, children: cs, .. }) => {
            lemma_attrs_quiet(node.id as nat, attrs_view(a@));
            lemma_children_quiet(node, children@, cs@, children@.len(), next);
            assert(step_calls(l, d, parent, next) =~= Seq::<HostCall>::empty());
        },
        _ => {},
    }
}

/// Reconciling children against descriptions that they already mirror,
/// position by position, issues no host call and takes no fresh handle.
pub proof fn lemma_children_quiet(
    parent: Node,
    olds: Seq<LiveDom>,
    news: Seq<VDom>,
    k: nat,
    next: nat,
)
    requires
        olds.len() == news.len(),
        k <= olds.len(),
        forall|i: int| 0 <= i < olds.len() ==> mirrors(#[trigger] olds[i], news[i]),
        forall|i: int| 0 <= i < news.len() ==> well_formed(#[trigger] news[i]),
    ensures
        children_calls(parent, olds, news, k, next) == Seq::<HostCall>::empty(),
        children_used(olds, news, k) == 0,
    decreases olds, k,
{
    if k > 0 {
        let i = k - 1;
        lemma_children_quiet(parent, olds, news, (k - 1) as nat, next);
        lemma_step_quiet(olds[i], news[i], Some(parent), next);
        assert(children_calls(parent, olds, news, k, next) =~= Seq::<HostCall>::empty());
    }
}

/// What `step` returns mirrors the description it was stepped against.
pub proof fn lemma_stepped_mirrors(r: LiveDom, l: LiveDom, d: VDom, next: nat)
    requires
        stepped(r, l, d, next),
    ensures
        mirrors(r, d),
    decreases l, 0nat,
{
    match (l, d) {
        (LiveDom::Text { .. }, VDom::Text { .. }) => {},
        (LiveDom::Elem { name, children, .. }, VDom::Elem { name: n, children: cs, .. }) => {
            if name@ == n@ {
                match r {
                    LiveDom::Elem { children: rc, .. } => {
                        assert forall|i: int| 0 <= i < rc@.len() implies mirrors(
                            #[trigger] rc@[i],
                            cs@[i],
                        ) by {
                            lemma_child_result_mirrors(rc@[i], children@, cs@, i, next);
                        }
                    },
                    _ => {},
                }
            } else {
                lemma_built_mirrors(r, d, next);
            }
        },
        _ => {
            lemma_built_mirrors(r, d, next);
        },
    }
}

/// What reconciling one position gives mirrors the description there.
pub proof fn lemma_child_result_mirrors(
    r: LiveDom,
    olds: Seq<LiveDom>,
    news: Seq<VDom>,
    i: int,
    next: nat,
)
    requires
        child_result(r, olds, news, i, next),
    ensures
        mirrors(r, news[i]),
    decreases olds, 1nat,
{
    let at = next + children_used(olds, news, i as nat);
    if 0 <= i < olds.len() && i < news.len() {
        lemma_stepped_mirrors(r, olds[i], news[i], at);
    } else {
        lemma_built_mirrors(r, news[i], at);
    }
}

/// Stepping twice with the same description: once `step` has reconciled a
/// live tree against a well-formed description `d`, stepping its result
/// against `d` again issues no host call and takes no fresh handle.
pub proof fn lemma_step_idempotent(
    l: LiveDom,
    d: VDom,
    next: nat,
    r: LiveDom,
    parent: Option<Node>,
    next_again: nat,
)
    requires
        well_formed(d),
        stepped(r, l, d, next),
    ensures
        step_calls(r, d, parent, next_again) == Seq::<HostCall>::empty(),
        step_used(r, d) == 0,
{
    lemma_stepped_mirrors(r, l, d, next);
    lemma_step_quiet(r, d, parent, next_again);
}

/// Replacing a text node by an element: the text node is detached from its
/// parent (it holds no listener), the element is built from handle `next`
/// and appended to that parent, and the result is an element of the
/// description's name.
pub proof fn lemma_replace_text_by_element(
    l: LiveDom,
    d: VDom,
    parent: Node,
    next: nat,
    r: LiveDom,
)
    requires
        l is Text,
        d is Elem,
        stepped(r, l, d, next),
    ensures
        step_calls(l, d, Some(parent), next) == seq![
            HostCall::RemoveChild(parent.id as nat, l->Text_node.id as nat),
        ] + build_calls(d, next) + seq![HostCall::AppendChild(parent.id as nat, next)],
        r is Elem,
        r->Elem_name@ == d->Elem_name@,
        r->Elem_node.id == next,
        mirrors(r, d),
{
    lemma_stepped_mirrors(r, l, d, next);
}

/// Applying calls one after the other.
pub proof fn lemma_apply_attr_calls_add(s: AttrState, a: Seq<HostCall>, b: Seq<HostCall>)
    ensures
        apply_attr_calls(s, a + b) == apply_attr_calls(apply_attr_calls(s, a), b),
    decreases b.len(),
{
    if b.len() == 0 {
        assert(a + b =~= a);
    } else {
        lemma_apply_attr_calls_add(s, a, b.drop_last());
        assert((a + b).drop_last() =~= a + b.drop_last());
    }
}

/// Looking up a key in a prefix one longer.
pub proof fn lemma_lookup_take_step(a: Seq<(Seq<char>, AttrV)>, j: int, k: Seq<char>)
    requires
        0 <= j < a.len(),
    ensures
        lookup(a.take(j + 1), k) == if k == a[j].0 {
            Some(a[j].1)
        } else {
            lookup(a.take(j), k)
        },
{
    assert(a.take(j + 1).drop_last() =~= a.take(j));
}

/// In a mapping, a key is absent from the prefix before its entry.
pub proof fn lemma_lookup_before_entry(a: Seq<(Seq<char>, AttrV)>, j: int, k: Seq<char>)
    requires
        keys_unique(a),
        0 <= j < a.len(),
        k == a[j].0,
    ensures
        lookup(a.take(j), k) is None,
    decreases j,
{
    if j > 0 {
        lemma_lookup_take_step(a, j - 1, k);
        lemma_lookup_before_entry_prefix(a, j - 1, j, k);
    }
}

/// A key absent from `a.take(j)` for the entry at `j`: induction over the
/// prefix length `i <= j`.
pub proof fn lemma_lookup_before_entry_prefix(
    a: Seq<(Seq<char>, AttrV)>,
    i: int,
    j: int,
    k: Seq<char>,
)
    requires
        keys_unique(a),
        0 <= i < j < a.len(),
        k == a[j].0,
    ensures
        lookup(a.take(i + 1), k) is None,
    decreases i,
{
    lemma_lookup_take_step(a, i, k);
    assert(a[i].0 != a[j].0);
    if i > 0 {
        lemma_lookup_before_entry_prefix(a, i - 1, j, k);
    } else {
        assert(a.take(0) =~= Seq::<(Seq<char>, AttrV)>::empty());
    }
}

/// The installed attributes after the first `j` new entries are brought up
/// to date: new values for their keys, old values for the others.
pub open spec fn after_new(o: Seq<(Seq<char>, AttrV)>, n: Seq<(Seq<char>, AttrV)>, j: int) -> spec_fn(
    Seq<char>,
) -> Option<AttrV> {
    |k: Seq<char>|
        if lookup(n.take(j), k) is Some {
            lookup(n.take(j), k)
        } else {
            lookup(o, k)
        }
}

/// The installed attributes after every new entry is brought up to date
/// and the first `i` old entries are checked for staleness.
pub open spec fn after_stale(o: Seq<(Seq<char>, AttrV)>, n: Seq<(Seq<char>, AttrV)>, i: int) -> spec_fn(
    Seq<char>,
) -> Option<AttrV> {
    |k: Seq<char>|
        if lookup(n, k) is Some {
            lookup(n, k)
        } else if lookup(o.take(i), k) is Some {
            None
        } else {
            lookup(o, k)
        }
}

/// Bringing the new entries up to date, one at a time.
pub proof fn lemma_update_new_effect(
    node: nat,
    o: Seq<(Seq<char>, AttrV)>,
    n: Seq<(Seq<char>, AttrV)>,
    j: int,
)
    requires
        keys_unique(o),
        keys_unique(n),
        0 <= j <= n.len(),
    ensures
        apply_attr_calls(attr_state(o), update_new_calls(node, o, n.take(j))) == state_of(
            after_new(o, n, j),
        ),
    decreases j,
{
    if j == 0 {
        assert(n.take(0) =~= Seq::<(Seq<char>, AttrV)>::empty());
        assert(state_of(after_new(o, n, 0)).strs =~= attr_state(o).strs);
        assert(state_of(after_new(o, n, 0)).handlers =~= attr_state(o).handlers);
    } else {
        let i = j - 1;
        lemma_update_new_effect(node, o, n, i);
        assert(n.take(j).drop_last() =~= n.take(i));
        let k = n[i].0;
        let v = n[i].1;
        let prev = lookup(o, k);
        let before = state_of(after_new(o, n, i));
        let calls = entry_calls(node, prev, n[i]);
        lemma_apply_attr_calls_add(attr_state(o), update_new_calls(node, o, n.take(i)), calls);
        lemma_lookup_before_entry(n, i, k);
        assert forall|k2: Seq<char>| #[trigger] lookup(n.take(j), k2) == if k2 == k {
            Some(v)
        } else {
            lookup(n.take(i), k2)
        } by {
            lemma_lookup_take_step(n, i, k2);
        }
        let after = state_of(after_new(o, n, j));
        assert(after_new(o, n, i)(k) == prev);
        let r = apply_attr_calls(before, calls);
        reveal_with_fuel(apply_attr_calls, 3);
        assert(r.strs =~= after.strs);
        assert(r.handlers =~= after.handlers);
    }
}

/// Removing the stale entries, one old entry at a time.
pub proof fn lemma_stale_effect(
    node: nat,
    o: Seq<(Seq<char>, AttrV)>,
    n: Seq<(Seq<char>, AttrV)>,
    i: int,
)
    requires
        keys_unique(o),
        keys_unique(n),
        0 <= i <= o.len(),
    ensures
        apply_attr_calls(state_of(after_stale(o, n, 0)), stale_calls(node, o.take(i), n))
            == state_of(after_stale(o, n, i)),
    decreases i,
{
    if i == 0 {
        assert(o.take(0) =~= Seq::<(Seq<char>, AttrV)>::empty());
    } else {
        let h = i - 1;
        lemma_stale_effect(node, o, n, h);
        assert(o.take(i).drop_last() =~= o.take(h));
        let k = o[h].0;
        let p = o[h].1;
        lemma_lookup_before_entry(o, h, k);
        lemma_lookup_unique(o, h);
        assert forall|k2: Seq<char>| #[trigger] lookup(o.take(i), k2) == if k2 == k {
            Some(p)
        } else {
            lookup(o.take(h), k2)
        } by {
            lemma_lookup_take_step(o, h, k2);
        }
        let before = state_of(after_stale(o, n, h));
        let after = state_of(after_stale(o, n, i));
        let tail: Seq<HostCall> = if lookup(n, k) is None {
            seq![uninstall_call(node, o[h])]
        } else {
            seq![]
        };
        lemma_apply_attr_calls_add(
            state_of(after_stale(o, n, 0)),
            stale_calls(node, o.take(h), n),
            tail,
        );
        reveal_with_fuel(apply_attr_calls, 2);
        let r = apply_attr_calls(before, tail);
        assert(r.strs =~= after.strs);
        assert(r.handlers =~= after.handlers);
    }
}

/// Reconciling the attributes of a node leaves exactly the new attribute
/// map installed: every new string attribute set to its value, every new
/// handler registered, and nothing else, in particular no listener of the
/// old map that the new one does not hold.
pub proof fn lemma_attr_calls_install_new(
    node: nat,
    old: Seq<(Seq<char>, AttrV)>,
    new: Seq<(Seq<char>, AttrV)>,
)
    requires
        keys_unique(old),
        keys_unique(new),
    ensures
        apply_attr_calls(attr_state(old), attr_calls(node, old, new)) == attr_state(new),
{
    lemma_update_new_effect(node, old, new, new.len() as int);
    assert(new.take(new.len() as int) =~= new);
    assert(old.take(0) =~= Seq::<(Seq<char>, AttrV)>::empty());
    let mid = state_of(after_new(old, new, new.len() as int));
    assert(mid.strs =~= state_of(after_stale(old, new, 0)).strs);
    assert(mid.handlers =~= state_of(after_stale(old, new, 0)).handlers);
    lemma_stale_effect(node, old, new, old.len() as int);
    assert(old.take(old.len() as int) =~= old);
    lemma_apply_attr_calls_add(
        attr_state(old),
        update_new_calls(node, old, new),
        stale_calls(node, old, new),
    );
    let fin = state_of(after_stale(old, new, old.len() as int));
    assert(fin.strs =~= attr_state(new).strs);
    assert(fin.handlers =~= attr_state(new).handlers);
}

/// Putting a mapping onto a bare node is reconciling it against no
/// attributes at all.
pub proof fn lemma_install_from_nothing(node: nat, a: Seq<(Seq<char>, AttrV)>)
    ensures
        attr_calls(node, seq![], a) == install_calls(node, a),
    decreases a.len(),
{
    if a.len() > 0 {
        lemma_install_from_nothing(node, a.drop_last());
        assert(install_calls(node, a) =~= install_calls(node, a.drop_last()).push(
            install_call(node, a.last()),
        ));
    }
    assert(attr_calls(node, seq![], a) =~= install_calls(node, a));
}

/// A call that only changes the installed attributes of `id`.
pub open spec fn attr_call_on(c: HostCall, id: nat) -> bool {
    match c {
        HostCall::SetAttribute(n, _, _) => n == id,
        HostCall::RemoveAttribute(n, _) => n == id,
        HostCall::AddListener(n, _, _) => n == id,
        HostCall::RemoveListener(n, _, _) => n == id,
        _ => false,
    }
}

/// Calls on the attributes of one known node change that node's installed
/// attributes, and nothing else.
pub proof fn lemma_apply_attr_only(h: HostNodes, id: nat, cs: Seq<HostCall>)
    requires
        h.contains_key(id),
        forall|i: int| 0 <= i < cs.len() ==> attr_call_on(#[trigger] cs[i], id),
    ensures
        apply_calls(h, cs) == h.insert(
            id,
            HostNode { attrs: apply_attr_calls(h[id].attrs, cs), ..h[id] },
        ),
    decreases cs.len(),
{
    if cs.len() == 0 {
        assert(h.insert(id, HostNode { attrs: h[id].attrs, ..h[id] }) =~= h);
    } else {
        lemma_apply_attr_only(h, id, cs.drop_last());
        assert(attr_call_on(cs[cs.len() - 1], id));
        let m = apply_calls(h, cs.drop_last());
        assert(apply_call(m, cs.last()) =~= h.insert(
            id,
            HostNode { attrs: apply_attr_calls(h[id].attrs, cs), ..h[id] },
        ));
    }
}

/// Applying a single call.
pub proof fn lemma_apply_one(h: HostNodes, c: HostCall)
    ensures
        apply_calls(h, seq![c]) == apply_call(h, c),
{
    reveal_with_fuel(apply_calls, 2);
    assert(seq![c].drop_last() =~= Seq::<HostCall>::empty());
}

/// Applying calls one after the other, on the host's nodes.
pub proof fn lemma_apply_calls_add(h: HostNodes, a: Seq<HostCall>, b: Seq<HostCall>)
    ensures
        apply_calls(h, a + b) == apply_calls(apply_calls(h, a), b),
    decreases b.len(),
{
    if b.len() == 0 {
        assert(a + b =~= a);
    } else {
        lemma_apply_calls_add(h, a, b.drop_last());
        assert((a + b).drop_last() =~= a + b.drop_last());
    }
}

/// Agreement over a range holds over any range within it.
pub proof fn lemma_agree_within(h1: HostNodes, h2: HostNodes, lo: nat, hi: nat, lo2: nat, hi2: nat)
    requires
        agree(h1, h2, lo, hi),
        lo <= lo2,
        hi2 <= hi,
    ensures
        agree(h1, h2, lo2, hi2),
{
}

/// A host keeps holding a description where its nodes stay as they were.
#[verifier::spinoff_prover]
pub proof fn lemma_realizes_frame(h1: HostNodes, h2: HostNodes, d: VDom, id: nat)
    requires
        realizes(h1, d, id),
        agree(h1, h2, id, id + size(d)),
    ensures
        realizes(h2, d, id),
    decreases d,
{
    assert(h1.contains_key(id));
    assert(h2.contains_key(id) && h2[id] == h1[id]);
    match d {
        VDom::Text { .. } => {},
        VDom::Elem { children, .. } => {
            let cs = children@;
            assert(size(d) == 1 + sizes(cs));
            assert forall|i: int| 0 <= i < cs.len() implies realizes(
                h2,
                #[trigger] cs[i],
                id + 1 + sizes(cs.take(i)),
            ) by {
                lemma_realizes_frame_child(h1, h2, d, id, i);
            }
        },
    }
}

/// One child of a held element stays held where its nodes stay as they were.
#[verifier::spinoff_prover]
pub proof fn lemma_realizes_frame_child(h1: HostNodes, h2: HostNodes, d: VDom, id: nat, i: int)
    requires
        d is Elem,
        realizes(h1, d, id),
        agree(h1, h2, id, id + size(d)),
        0 <= i < d->Elem_children@.len(),
    ensures
        realizes(h2, d->Elem_children@[i], id + 1 + sizes(d->Elem_children@.take(i))),
    decreases d, 0nat,
{
    let cs = d->Elem_children@;
    let c = id + 1 + sizes(cs.take(i));
    lemma_sizes_step(cs, i);
    lemma_sizes_prefix(cs, i + 1, cs.len() as int);
    assert(cs.take(cs.len() as int) =~= cs);
    assert(size(d) == 1 + sizes(cs));
    lemma_agree_within(h1, h2, id, id + size(d), c, c + size(cs[i]));
    assert(realizes(h1, cs[i], c));
    assert(decreases_to!(d => cs[i])) by {
        assert(decreases_to!(d => d->Elem_children));
        assert(decreases_to!(d->Elem_children => cs));
        vstd::seq::axiom_seq_index_decreases(cs, i);
    }
    lemma_realizes_frame(h1, h2, cs[i], c);
}

/// Building a well-formed description against a host that knows no handle
/// from `next` on leaves the host holding the description at `next`, its
/// nodes numbered in pre-order; the nodes below `next` stay as they were,
/// and no handle from `next + size(d)` on is taken.
pub proof fn lemma_build_realizes(h: HostNodes, d: VDom, next: nat)
    requires
        well_formed(d),
        fresh_from(h, next),
    ensures
        realizes(apply_calls(h, build_calls(d, next)), d, next),
        agree(h, apply_calls(h, build_calls(d, next)), 0, next),
        fresh_from(apply_calls(h, build_calls(d, next)), next + size(d)),
    decreases d, 0nat,
{
    match d {
        VDom::Text { text } => {
            lemma_apply_one(h, HostCall::CreateText(next, text@));
        },
        VDom::Elem { name, attrs, children } => {
            let a = attrs_view(attrs@);
            let cs = children@;
            let create = seq![HostCall::CreateElement(next, name@)];
            let inst = install_calls(next, a);
            let h1 = apply_calls(h, create);
            lemma_apply_one(h, HostCall::CreateElement(next, name@));
            lemma_apply_attr_only(h1, next, inst);
            let h2 = apply_calls(h1, inst);
            lemma_install_from_nothing(next, a);
            lemma_attr_calls_install_new(next, seq![], a);
            assert(attr_state(seq![]).strs =~= no_attrs().strs);
            assert(attr_state(seq![]).handlers =~= no_attrs().handlers);
            assert(h2[next].attrs == attr_state(a));
            lemma_build_children_realizes(h2, next, cs, next + 1);
            let h3 = apply_calls(h2, build_children_calls(next, cs, next + 1));
            lemma_apply_calls_add(h, create, inst);
            lemma_apply_calls_add(h, create + inst, build_children_calls(next, cs, next + 1));
            assert(build_calls(d, next) == create + inst + build_children_calls(next, cs, next + 1));
            assert(h3[next].children =~= child_ids(cs, next + 1));
        },
    }
}

/// Building a sequence of descriptions in order and appending each to
/// `parent`: each is held at its handle, `parent` gains their roots as its
/// last children, and the other nodes below `start` stay as they were.
#[verifier::spinoff_prover]
pub proof fn lemma_build_children_realizes(h: HostNodes, parent: nat, cs: Seq<VDom>, start: nat)
    requires
        h.contains_key(parent),
        parent < start,
        fresh_from(h, start),
        forall|i: int| 0 <= i < cs.len() ==> well_formed(#[trigger] cs[i]),
    ensures
        ({
            let h2 = apply_calls(h, build_children_calls(parent, cs, start));
            &&& h2.contains_key(parent)
            &&& h2[parent] == HostNode {
                children: h[parent].children + child_ids(cs, start),
                ..h[parent]
            }
            &&& forall|id: nat|
                #![trigger h2.contains_key(id)]
                id < start && id != parent ==> {
                    &&& h.contains_key(id) == h2.contains_key(id)
                    &&& h.contains_key(id) ==> h[id] == h2[id]
                }
            &&& forall|i: int|
                0 <= i < cs.len() ==> realizes(h2, #[trigger] cs[i], start + sizes(cs.take(i)))
            &&& fresh_from(h2, start + sizes(cs))
        }),
    decreases cs,
{
    if cs.len() == 0 {
        assert(h[parent].children + child_ids(cs, start) =~= h[parent].children);
        assert(HostNode { children: h[parent].children, ..h[parent] } == h[parent]);
    } else {
        let pre = cs.drop_last();
        let last = cs.last();
        let n = (cs.len() - 1) as int;
        let at = start + sizes(pre);
        lemma_build_children_realizes(h, parent, pre, start);
        let ha = apply_calls(h, build_children_calls(parent, pre, start));
        lemma_build_realizes(ha, last, at);
        let hb = apply_calls(ha, build_calls(last, at));
        let app = seq![HostCall::AppendChild(parent, at)];
        let hc = apply_calls(hb, app);
        lemma_apply_one(hb, HostCall::AppendChild(parent, at));
        assert(hb.contains_key(parent));
        assert(hc == hb.insert(parent, HostNode { children: hb[parent].children.push(at), ..hb[parent] }));
        lemma_apply_calls_add(h, build_children_calls(parent, pre, start), build_calls(last, at));
        lemma_apply_calls_add(
            h,
            build_children_calls(parent, pre, start) + build_calls(last, at),
            app,
        );
        assert(build_children_calls(parent, cs, start) == build_children_calls(parent, pre, start)
            + build_calls(last, at) + app);
        assert(apply_calls(h, build_children_calls(parent, cs, start)) == hc);
        assert(cs.take(n) =~= pre);
        assert forall|i: int| 0 <= i < n implies #[trigger] cs.take(i) == pre.take(i) by {
            assert(cs.take(i) =~= pre.take(i));
        }
        assert(child_ids(cs, start) =~= child_ids(pre, start).push(at));
        assert(hc[parent].children =~= h[parent].children + child_ids(cs, start));
        lemma_realizes_frame(hb, hc, last, at);
        assert forall|i: int| 0 <= i < cs.len() implies realizes(
            hc,
            #[trigger] cs[i],
            start + sizes(cs.take(i)),
        ) by {
            if i < n {
                assert(pre[i] == cs[i]);
                assert(pre.take(i) =~= cs.take(i));
                let c = start + sizes(cs.take(i));
                lemma_sizes_step(pre, i);
                lemma_sizes_prefix(pre, i + 1, pre.len() as int);
                assert(pre.take(pre.len() as int) =~= pre);
                assert(realizes(ha, pre[i], c));
                lemma_realizes_frame(ha, hc, cs[i], c);
            }
        }
        assert forall|id: nat| id < start && id != parent implies {
            &&& h.contains_key(id) == #[trigger] hc.contains_key(id)
            &&& h.contains_key(id) ==> h[id] == hc[id]
        } by {
            assert(ha.contains_key(id) == h.contains_key(id));
            assert(hb.contains_key(id) == ha.contains_key(id));
        }
        assert(sizes(cs) == sizes(pre) + size(last));
        assert forall|id: nat| id >= start + sizes(cs) implies !#[trigger] hc.contains_key(id) by {
            assert(!hb.contains_key(id));
        }
    }
}

/// Replacing a text node by an element, as the host sees it: once the calls
/// are carried out, the parent no longer holds the text node's handle, the
/// new element sits last among its children, and the host holds the
/// element's description from handle `next` on.
pub proof fn lemma_replace_text_in_host(
    h: HostNodes,
    l: LiveDom,
    d: VDom,
    parent: Node,
    next: nat,
)
    requires
        l is Text,
        d is Elem,
        well_formed(d),
        h.contains_key(parent.id as nat),
        parent.id < next,
        l->Text_node.id < next,
        fresh_from(h, next),
    ensures
        ({
            let h2 = apply_calls(h, step_calls(l, d, Some(parent), next));
            &&& h2.contains_key(parent.id as nat)
            &&& !h2[parent.id as nat].children.contains(l->Text_node.id as nat)
            &&& h2[parent.id as nat].children.last() == next
            &&& realizes(h2, d, next)
        }),
{
    let p = parent.id as nat;
    let old = l->Text_node.id as nat;
    let rm = seq![HostCall::RemoveChild(p, old)];
    let app = seq![HostCall::AppendChild(p, next)];
    let calls = step_calls(l, d, Some(parent), next);
    assert(calls == rm + build_calls(d, next) + app);
    let h1 = apply_calls(h, rm);
    lemma_apply_one(h, HostCall::RemoveChild(p, old));
    let kept = h[p].children.filter(|x: nat| x != old);
    assert(h1 == h.insert(p, HostNode { children: kept, ..h[p] }));
    assert forall|id: nat| id >= next implies !#[trigger] h1.contains_key(id) by {
        assert(h.contains_key(id) == h1.contains_key(id));
    }
    lemma_build_realizes(h1, d, next);
    let h2 = apply_calls(h1, build_calls(d, next));
    assert(h2.contains_key(p));
    assert(h2[p] == h1[p]);
    let h3 = apply_calls(h2, app);
    lemma_apply_one(h2, HostCall::AppendChild(p, next));
    assert(h3 == h2.insert(p, HostNode { children: kept.push(next), ..h2[p] }));
    lemma_apply_calls_add(h, rm, build_calls(d, next));
    lemma_apply_calls_add(h, rm + build_calls(d, next), app);
    assert(apply_calls(h, calls) == h3);
    assert forall|i: int| 0 <= i < kept.len() implies #[trigger] kept[i] != old by {
        h[p].children.lemma_filter_pred(|x: nat| x != old, i);
    }
    assert(!kept.push(next).contains(old)) by {
        if kept.push(next).contains(old) {
            let i = choose|i: int| 0 <= i < kept.push(next).len() && kept.push(next)[i] == old;
            if i < kept.len() {
                assert(kept[i] != old);
            }
        }
    }
    lemma_realizes_frame(h2, h3, d, next);
}

/// The element names of a description, in pre-order.
pub open spec fn desc_tags(d: VDom) -> Seq<Seq<char>>
    decreases d,
{
    match d {
        VDom::Text { .. } => seq![],
        VDom::Elem { name, children, .. } => seq![name@] + desc_tags_all(children@),
    }
}

/// The element names of a sequence of descriptions, in pre-order.
pub open spec fn desc_tags_all(cs: Seq<VDom>) -> Seq<Seq<char>>
    decreases cs,
{
    if cs.len() == 0 {
        seq![]
    } else {
        desc_tags_all(cs.drop_last()) + desc_tags(cs.last())
    }
}

/// The element names of a live tree, in pre-order.
pub open spec fn live_tags(l: LiveDom) -> Seq<Seq<char>>
    decreases l,
{
    match l {
        LiveDom::Text { .. } => seq![],
        LiveDom::Elem { name, children, .. } => seq![name@] + live_tags_all(children@),
    }
}

/// The element names of a sequence of live trees, in pre-order.
pub open spec fn live_tags_all(cs: Seq<LiveDom>) -> Seq<Seq<char>>
    decreases cs,
{
    if cs.len() == 0 {
        seq![]
    } else {
        live_tags_all(cs.drop_last()) + live_tags(cs.last())
    }
}

/// The texts of a description, in pre-order.
pub open spec fn desc_texts(d: VDom) -> Seq<Seq<char>>
    decreases d,
{
    match d {
        VDom::Text { text } => seq![text@],
        VDom::Elem { children, .. } => desc_texts_all(children@),
    }
}

/// The texts of a sequence of descriptions, in pre-order.
pub open spec fn desc_texts_all(cs: Seq<VDom>) -> Seq<Seq<char>>
    decreases cs,
{
    if cs.len() == 0 {
        seq![]
    } else {
        desc_texts_all(cs.drop_last()) + desc_texts(cs.last())
    }
}

/// The texts of a live tree, in pre-order.
pub open spec fn live_texts(l: LiveDom) -> Seq<Seq<char>>
    decreases l,
{
    match l {
        LiveDom::Text { text, .. } => seq![text@],
        LiveDom::Elem { children, .. } => live_texts_all(children@),
    }
}

/// The texts of a sequence of live trees, in pre-order.
pub open spec fn live_texts_all(cs: Seq<LiveDom>) -> Seq<Seq<char>>
    decreases cs,
{
    if cs.len() == 0 {
        seq![]
    } else {
        live_texts_all(cs.drop_last()) + live_texts(cs.last())
    }
}

/// A tree that `build` produced mirrors its description.
pub proof fn lemma_built_mirrors(r: LiveDom, d: VDom, next: nat)
    requires
        built(r, d, next),
    ensures
        mirrors(r, d),
    decreases r,
{
    match (r, d) {
        (LiveDom::Elem { children, .. }, VDom::Elem { children: cs, .. }) => {
            assert forall|i: int| 0 <= i < children@.len() implies mirrors(
                #[trigger] children@[i],
                cs@[i],
            ) by {
                lemma_built_mirrors(children@[i], cs@[i], next + 1 + crate::vdom::sizes(cs@.take(i)));
            }
        },
        _ => {},
    }
}

/// Mirroring trees have the same element names and texts, in pre-order.
pub proof fn lemma_mirrors_traversals(l: LiveDom, d: VDom)
    requires
        mirrors(l, d),
    ensures
        live_tags(l) == desc_tags(d),
        live_texts(l) == desc_texts(d),
    decreases l, 0nat,
{
    match (l, d) {
        (LiveDom::Elem { children, .. }, VDom::Elem { children: cs, .. }) => {
            lemma_mirrors_traversals_all(children@, cs@);
        },
        _ => {},
    }
}

/// Pairwise mirroring sequences have the same element names and texts.
pub proof fn lemma_mirrors_traversals_all(ls: Seq<LiveDom>, ds: Seq<VDom>)
    requires
        ls.len() == ds.len(),
        forall|i: int| 0 <= i < ls.len() ==> mirrors(#[trigger] ls[i], ds[i]),
    ensures
        live_tags_all(ls) == desc_tags_all(ds),
        live_texts_all(ls) == desc_texts_all(ds),
    decreases ls, 1nat,
{
    if ls.len() > 0 {
        lemma_mirrors_traversals_all(ls.drop_last(), ds.drop_last());
        lemma_mirrors_traversals(ls.last(), ds.last());
    }
}

/// Building a description gives a live tree with the same shape: its
/// element names in pre-order are those of the description, and so are its
/// texts.
pub proof fn lemma_build_round_trip(d: VDom, next: nat, r: LiveDom)
    requires
        built(r, d, next),
    ensures
        mirrors(r, d),
        live_tags(r) == desc_tags(d),
        live_texts(r) == desc_texts(d),
{
    lemma_built_mirrors(r, d, next);
    lemma_mirrors_traversals(r, d);
}

} // verus!
