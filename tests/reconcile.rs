use vdom::host::{HostOp, Listener, Node, Patch};
use vdom::vdom::{build, halt, halt_and_build, node_count, step, update_children, update_node_attrs, Attr, AttrEntry, LiveDom, VDom};

fn s(x: &str) -> String {
    x.to_string()
}

fn text(t: &str) -> VDom {
    VDom::Text { text: s(t) }
}

fn attr(k: &str, v: Attr) -> AttrEntry {
    AttrEntry { key: s(k), value: v }
}

fn sattr(k: &str, v: &str) -> AttrEntry {
    attr(k, Attr::StringAttr(s(v)))
}

fn handler(k: &str, id: u64) -> AttrEntry {
    attr(k, Attr::EventHandler(Listener { id }))
}

fn elem(name: &str, attrs: Vec<AttrEntry>, children: Vec<VDom>) -> VDom {
    VDom::Elem { name: s(name), attrs, children }
}

fn n(id: u64) -> Node {
    Node { id }
}

fn built(d: VDom, next: &mut u64) -> LiveDom {
    let mut patch = Patch::new();
    build(d, next, &mut patch)
}

fn names(l: &LiveDom, out: &mut Vec<String>) {
    if let LiveDom::Elem { name, children, .. } = l {
        out.push(name.clone());
        for c in children {
            names(c, out);
        }
    }
}

fn texts(l: &LiveDom, out: &mut Vec<String>) {
    match l {
        LiveDom::Text { text, .. } => out.push(text.clone()),
        LiveDom::Elem { children, .. } => {
            for c in children {
                texts(c, out);
            }
        }
    }
}

#[test]
fn build_text_creates_one_node() {
    let mut next: u64 = 5;
    let mut patch = Patch::new();
    let l = build(text("hi"), &mut next, &mut patch);
    assert_eq!(next, 6);
    assert_eq!(patch.ops, vec![HostOp::CreateText { node: n(5), text: s("hi") }]);
    assert_eq!(l.node(), n(5));
}

#[test]
fn build_element_in_pre_order() {
    let d = elem(
        "div",
        vec![sattr("class", "x"), handler("click", 9)],
        vec![text("a"), elem("p", vec![], vec![text("b")])],
    );
    let mut next: u64 = 1;
    let mut patch = Patch::new();
    let l = build(d, &mut next, &mut patch);
    assert_eq!(next, 5);
    assert_eq!(
        patch.ops,
        vec![
            HostOp::CreateElement { node: n(1), name: s("div") },
            HostOp::SetAttribute { node: n(1), key: s("class"), value: s("x") },
            HostOp::AddListener { node: n(1), event: s("click"), listener: Listener { id: 9 } },
            HostOp::CreateText { node: n(2), text: s("a") },
            HostOp::AppendChild { parent: n(1), child: n(2) },
            HostOp::CreateElement { node: n(3), name: s("p") },
            HostOp::CreateText { node: n(4), text: s("b") },
            HostOp::AppendChild { parent: n(3), child: n(4) },
            HostOp::AppendChild { parent: n(1), child: n(3) },
        ]
    );
    assert_eq!(l.node(), n(1));
}

#[test]
fn build_round_trip_keeps_tags_and_texts() {
    let d = elem(
        "ul",
        vec![],
        vec![
            elem("li", vec![], vec![text("one")]),
            elem("li", vec![], vec![elem("b", vec![], vec![text("two")]), text("three")]),
            text("four"),
        ],
    );
    let mut next: u64 = 1;
    let l = built(d, &mut next);
    let mut ns = Vec::new();
    names(&l, &mut ns);
    assert_eq!(ns, vec![s("ul"), s("li"), s("li"), s("b")]);
    let mut ts = Vec::new();
    texts(&l, &mut ts);
    assert_eq!(ts, vec![s("one"), s("two"), s("three"), s("four")]);
    assert_eq!(next, 9);
}

#[test]
fn step_text_changes_text_in_place() {
    let mut next: u64 = 1;
    let l = built(text("old"), &mut next);
    let mut patch = Patch::new();
    let r = step(l, text("new"), Some(n(0)), &mut next, &mut patch);
    assert_eq!(patch.ops, vec![HostOp::SetText { node: n(1), text: s("new") }]);
    assert_eq!(r.node(), n(1));
    assert_eq!(next, 2);
}

#[test]
fn step_same_text_issues_nothing() {
    let mut next: u64 = 1;
    let l = built(text("same"), &mut next);
    let mut patch = Patch::new();
    let r = step(l, text("same"), Some(n(0)), &mut next, &mut patch);
    assert!(patch.ops.is_empty());
    assert_eq!(r.node(), n(1));
}

#[test]
fn step_twice_with_same_description_is_quiet() {
    let make = || {
        elem(
            "div",
            vec![sattr("id", "main"), handler("click", 3)],
            vec![text("x"), elem("span", vec![sattr("k", "v")], vec![text("y")])],
        )
    };
    let mut next: u64 = 1;
    let l = built(elem("div", vec![sattr("id", "old")], vec![text("z")]), &mut next);
    let mut patch = Patch::new();
    let l = step(l, make(), None, &mut next, &mut patch);
    assert!(!patch.ops.is_empty());
    let mut again = Patch::new();
    let before = next;
    let _ = step(l, make(), None, &mut next, &mut again);
    assert!(again.ops.is_empty());
    assert_eq!(next, before);
}

#[test]
fn replace_text_with_div() {
    let mut next: u64 = 1;
    let l = built(text("hello"), &mut next);
    let mut patch = Patch::new();
    let r = step(l, elem("div", vec![], vec![]), Some(n(0)), &mut next, &mut patch);
    assert_eq!(
        patch.ops,
        vec![
            HostOp::RemoveChild { parent: n(0), child: n(1) },
            HostOp::CreateElement { node: n(2), name: s("div") },
            HostOp::AppendChild { parent: n(0), child: n(2) },
        ]
    );
    match r {
        LiveDom::Elem { name, node, .. } => {
            assert_eq!(name, s("div"));
            assert_eq!(node, n(2));
        }
        _ => panic!("expected an element"),
    }
}

#[test]
fn replace_element_with_text_releases_listeners() {
    let mut next: u64 = 1;
    let l = built(elem("button", vec![handler("click", 7)], vec![text("b")]), &mut next);
    let mut patch = Patch::new();
    let r = step(l, text("plain"), Some(n(0)), &mut next, &mut patch);
    assert_eq!(
        patch.ops,
        vec![
            HostOp::RemoveChild { parent: n(0), child: n(1) },
            HostOp::RemoveListener { node: n(1), event: s("click"), listener: Listener { id: 7 } },
            HostOp::RemoveChild { parent: n(1), child: n(2) },
            HostOp::CreateText { node: n(3), text: s("plain") },
            HostOp::AppendChild { parent: n(0), child: n(3) },
        ]
    );
    assert_eq!(r.node(), n(3));
}

#[test]
fn replace_on_tag_change() {
    let mut next: u64 = 1;
    let l = built(elem("div", vec![], vec![]), &mut next);
    let mut patch = Patch::new();
    let r = step(l, elem("span", vec![], vec![]), None, &mut next, &mut patch);
    assert_eq!(patch.ops, vec![HostOp::CreateElement { node: n(2), name: s("span") }]);
    assert_eq!(r.node(), n(2));
}

#[test]
fn same_tag_keeps_handle() {
    let mut next: u64 = 1;
    let l = built(elem("div", vec![sattr("a", "1")], vec![]), &mut next);
    let mut patch = Patch::new();
    let r = step(l, elem("div", vec![sattr("a", "2")], vec![]), None, &mut next, &mut patch);
    assert_eq!(patch.ops, vec![HostOp::SetAttribute { node: n(1), key: s("a"), value: s("2") }]);
    assert_eq!(r.node(), n(1));
}

#[test]
fn attribute_delta() {
    let mut next: u64 = 1;
    let l = built(elem("div", vec![sattr("a", "1"), handler("b", 1)], vec![]), &mut next);
    let mut patch = Patch::new();
    let _ = step(l, elem("div", vec![sattr("a", "2"), sattr("c", "x")], vec![]), None, &mut next, &mut patch);
    assert_eq!(
        patch.ops,
        vec![
            HostOp::SetAttribute { node: n(1), key: s("a"), value: s("2") },
            HostOp::SetAttribute { node: n(1), key: s("c"), value: s("x") },
            HostOp::RemoveListener { node: n(1), event: s("b"), listener: Listener { id: 1 } },
        ]
    );
}

#[test]
fn attribute_kind_changes() {
    let node = n(4);
    let old = vec![sattr("x", "1"), handler("y", 2), handler("z", 3)];
    let new = vec![handler("x", 5), sattr("y", "s"), handler("z", 6)];
    let mut patch = Patch::new();
    update_node_attrs(node, &old, &new, &mut patch);
    assert_eq!(
        patch.ops,
        vec![
            HostOp::RemoveAttribute { node, key: s("x") },
            HostOp::AddListener { node, event: s("x"), listener: Listener { id: 5 } },
            HostOp::RemoveListener { node, event: s("y"), listener: Listener { id: 2 } },
            HostOp::SetAttribute { node, key: s("y"), value: s("s") },
            HostOp::RemoveListener { node, event: s("z"), listener: Listener { id: 3 } },
            HostOp::AddListener { node, event: s("z"), listener: Listener { id: 6 } },
        ]
    );
}

#[test]
fn attributes_unchanged_issue_nothing() {
    let old = vec![sattr("x", "1"), handler("y", 2)];
    let new = vec![handler("y", 2), sattr("x", "1")];
    let mut patch = Patch::new();
    update_node_attrs(n(1), &old, &new, &mut patch);
    assert!(patch.ops.is_empty());
}

#[test]
fn stale_string_attribute_is_removed() {
    let old = vec![sattr("gone", "1")];
    let new: Vec<AttrEntry> = vec![];
    let mut patch = Patch::new();
    update_node_attrs(n(1), &old, &new, &mut patch);
    assert_eq!(patch.ops, vec![HostOp::RemoveAttribute { node: n(1), key: s("gone") }]);
}

#[test]
fn children_truncation() {
    let mut next: u64 = 1;
    let l = built(
        elem(
            "div",
            vec![],
            vec![text("A"), elem("b", vec![handler("click", 8)], vec![]), text("C")],
        ),
        &mut next,
    );
    assert_eq!(next, 5);
    let mut patch = Patch::new();
    let r = step(l, elem("div", vec![], vec![text("A2")]), None, &mut next, &mut patch);
    assert_eq!(
        patch.ops,
        vec![
            HostOp::SetText { node: n(2), text: s("A2") },
            HostOp::RemoveChild { parent: n(1), child: n(3) },
            HostOp::RemoveListener { node: n(3), event: s("click"), listener: Listener { id: 8 } },
            HostOp::RemoveChild { parent: n(1), child: n(4) },
        ]
    );
    match r {
        LiveDom::Elem { children, .. } => {
            assert_eq!(children.len(), 1);
            assert_eq!(children[0].node(), n(2));
        }
        _ => panic!("expected an element"),
    }
}

#[test]
fn children_extension() {
    let mut next: u64 = 1;
    let l = built(elem("div", vec![], vec![text("A")]), &mut next);
    let mut patch = Patch::new();
    let r = step(l, elem("div", vec![], vec![text("A2"), text("B")]), None, &mut next, &mut patch);
    assert_eq!(
        patch.ops,
        vec![
            HostOp::SetText { node: n(2), text: s("A2") },
            HostOp::CreateText { node: n(3), text: s("B") },
            HostOp::AppendChild { parent: n(1), child: n(3) },
        ]
    );
    match r {
        LiveDom::Elem { children, .. } => {
            assert_eq!(children.len(), 2);
            assert_eq!(children[1].node(), n(3));
        }
        _ => panic!("expected an element"),
    }
    assert_eq!(next, 4);
}

#[test]
fn update_children_pairs_by_position() {
    let mut next: u64 = 1;
    let olds = vec![built(text("a"), &mut next), built(text("b"), &mut next)];
    let mut patch = Patch::new();
    let r = update_children(n(0), olds, vec![text("a"), text("c"), text("d")], &mut next, &mut patch);
    assert_eq!(r.len(), 3);
    assert_eq!(
        patch.ops,
        vec![
            HostOp::SetText { node: n(2), text: s("c") },
            HostOp::CreateText { node: n(3), text: s("d") },
            HostOp::AppendChild { parent: n(0), child: n(3) },
        ]
    );
}

#[test]
fn update_children_to_none_halts_all() {
    let mut next: u64 = 1;
    let olds = vec![built(text("a"), &mut next), built(text("b"), &mut next)];
    let mut patch = Patch::new();
    let r = update_children(n(0), olds, vec![], &mut next, &mut patch);
    assert!(r.is_empty());
    assert_eq!(
        patch.ops,
        vec![
            HostOp::RemoveChild { parent: n(0), child: n(1) },
            HostOp::RemoveChild { parent: n(0), child: n(2) },
        ]
    );
}

#[test]
fn halt_visits_every_node_once() {
    let mut next: u64 = 1;
    let l = built(
        elem(
            "div",
            vec![handler("click", 1), sattr("k", "v")],
            vec![
                elem("p", vec![handler("hover", 2)], vec![text("t")]),
                text("u"),
                elem("i", vec![], vec![]),
            ],
        ),
        &mut next,
    );
    let mut patch = Patch::new();
    halt(l, Some(n(0)), &mut patch);
    let detached: Vec<u64> = patch
        .ops
        .iter()
        .filter_map(|o| match o {
            HostOp::RemoveChild { child, .. } => Some(child.id),
            _ => None,
        })
        .collect();
    assert_eq!(detached, vec![1, 2, 3, 4, 5]);
    let released = patch.ops.iter().filter(|o| matches!(o, HostOp::RemoveListener { .. })).count();
    assert_eq!(released, 2);
    assert_eq!(patch.ops.len(), 7);
}

#[test]
fn halt_root_without_parent() {
    let mut next: u64 = 1;
    let l = built(text("t"), &mut next);
    let mut patch = Patch::new();
    halt(l, None, &mut patch);
    assert!(patch.ops.is_empty());
}

#[test]
fn halt_and_build_appends_to_parent() {
    let mut next: u64 = 1;
    let l = built(text("t"), &mut next);
    let mut patch = Patch::new();
    let r = halt_and_build(l, text("u"), Some(n(0)), &mut next, &mut patch);
    assert_eq!(
        patch.ops,
        vec![
            HostOp::RemoveChild { parent: n(0), child: n(1) },
            HostOp::CreateText { node: n(2), text: s("u") },
            HostOp::AppendChild { parent: n(0), child: n(2) },
        ]
    );
    assert_eq!(r.node(), n(2));
}

#[test]
fn node_count_counts_nodes() {
    assert_eq!(node_count(&text("x")), 1);
    let d = elem("a", vec![], vec![text("x"), elem("b", vec![], vec![text("y")])]);
    assert_eq!(node_count(&d), 4);
    assert_eq!(node_count(&elem("a", vec![], vec![])), 1);
}
