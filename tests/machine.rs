use vdom::host::{HostOp, Listener, Node};
use vdom::machine::{MachineError, VDomMachine, ROOT_ID};
use vdom::monad::V;
use vdom::sample::{annotate, counter, decimal_text, many_counter};
use vdom::vdom::{Attr, LiveDom, VDom};

fn s(x: &str) -> String {
    x.to_string()
}

#[test]
fn machine_build_install_step_halt() {
    let mut m = VDomMachine::build(VDom::Text { text: s("Initialising...") }).unwrap();
    assert_eq!(m.next, 2);
    m.install();
    let ops = m.take_ops();
    assert_eq!(
        ops,
        vec![
            HostOp::CreateText { node: Node { id: 1 }, text: s("Initialising...") },
            HostOp::InstallRoot { node: Node { id: 1 } },
        ]
    );
    assert!(m.take_ops().is_empty());
    assert_eq!(m.step(counter(0, Listener { id: 1 })), Ok(()));
    let ops = m.take_ops();
    assert_eq!(ops[0], HostOp::RemoveChild { parent: Node { id: ROOT_ID }, child: Node { id: 1 } });
    assert_eq!(ops[1], HostOp::CreateElement { node: Node { id: 2 }, name: s("div") });
    assert_eq!(*ops.last().unwrap(), HostOp::AppendChild { parent: Node { id: ROOT_ID }, child: Node { id: 2 } });
    assert_eq!(m.step(counter(1, Listener { id: 2 })), Ok(()));
    let ops = m.take_ops();
    assert_eq!(
        ops,
        vec![
            HostOp::RemoveListener { node: Node { id: 3 }, event: s("click"), listener: Listener { id: 1 } },
            HostOp::AddListener { node: Node { id: 3 }, event: s("click"), listener: Listener { id: 2 } },
            HostOp::SetText { node: Node { id: 4 }, text: s("Count: 1") },
        ]
    );
    let rest = m.halt();
    assert_eq!(rest.ops[0], HostOp::RemoveChild { parent: Node { id: ROOT_ID }, child: Node { id: 2 } });
    assert_eq!(rest.ops.len(), 4);
}

#[test]
fn machine_step_refuses_when_handles_run_out() {
    let mut m = VDomMachine::build(VDom::Text { text: s("a") }).unwrap();
    m.next = u64::MAX - 1;
    let r = m.step(VDom::Elem { name: s("div"), attrs: vec![], children: vec![] });
    assert_eq!(r, Err(MachineError::HandlesExhausted));
    assert_eq!(m.next, u64::MAX - 1);
    assert_eq!(m.patch.ops.len(), 1);
    assert_eq!(m.step(VDom::Text { text: s("a") }), Err(MachineError::HandlesExhausted));
}

#[test]
fn machine_step_before_install_has_no_parent() {
    let mut m = VDomMachine::build(VDom::Text { text: s("a") }).unwrap();
    let _ = m.take_ops();
    assert_eq!(m.step(VDom::Elem { name: s("p"), attrs: vec![], children: vec![] }), Ok(()));
    assert_eq!(m.take_ops(), vec![HostOp::CreateElement { node: Node { id: 2 }, name: s("p") }]);
    match &m.vdom {
        LiveDom::Elem { name, .. } => assert_eq!(name, "p"),
        _ => panic!("expected an element"),
    }
}

#[test]
fn decimal_text_values() {
    assert_eq!(decimal_text(0), "0");
    assert_eq!(decimal_text(7), "7");
    assert_eq!(decimal_text(42), "42");
    assert_eq!(decimal_text(-305), "-305");
    assert_eq!(decimal_text(i32::MAX), "2147483647");
    assert_eq!(decimal_text(i32::MIN), "-2147483648");
}

#[test]
fn counter_shape() {
    match counter(12, Listener { id: 4 }) {
        VDom::Elem { name, attrs, children } => {
            assert_eq!(name, "div");
            assert!(attrs.is_empty());
            assert_eq!(children.len(), 1);
            match &children[0] {
                VDom::Elem { name, attrs, children } => {
                    assert_eq!(name, "button");
                    assert_eq!(attrs.len(), 1);
                    assert_eq!(attrs[0].key, "click");
                    assert!(matches!(attrs[0].value, Attr::EventHandler(Listener { id: 4 })));
                    match &children[0] {
                        VDom::Text { text } => assert_eq!(text, "Count: 12"),
                        _ => panic!("expected a text"),
                    }
                }
                _ => panic!("expected a button"),
            }
        }
        _ => panic!("expected a div"),
    }
}

#[test]
fn many_counter_holds_n_counters() {
    match many_counter(3, -1, Listener { id: 2 }) {
        VDom::Elem { name, children, .. } => {
            assert_eq!(name, "div");
            assert_eq!(children.len(), 3);
        }
        _ => panic!("expected a div"),
    }
    match many_counter(0, 0, Listener { id: 2 }) {
        VDom::Elem { children, .. } => assert!(children.is_empty()),
        _ => panic!("expected a div"),
    }
}

#[test]
fn monad_and_then_and_lift() {
    let v = V::lift(20);
    assert_eq!(v.a, 20);
    let w = v.and_then(|x: i32| V { a: x + 1 });
    assert_eq!(w.a, 21);
}

#[test]
fn annotate_returns_its_argument() {
    let f = annotate(|| {});
    f();
}
