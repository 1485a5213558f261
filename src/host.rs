//! Handles and the operations that the reconciler asks of a rendering host.
use vstd::prelude::*;

verus! {

/// A handle to a node that the host has materialised (an element, or a
/// text-bearing node). Handles are plain numbers chosen by the reconciler;
/// the host keeps the mapping from handle to its own representation.
#[derive(Clone, Copy, Debug, PartialEq, Eq, Structural)]
pub struct Node {
    pub id: u64,
}

/// A callback that the application supplies for an event attribute.
/// It is opaque to the reconciler: only its identity is compared.
#[derive(Clone, Copy, Debug, PartialEq, Eq, Structural)]
pub struct Listener {
    pub id: u64,
}

/// What a host operation means, over mathematical values.
pub enum HostCall {
    CreateText(nat, Seq<char>),
    CreateElement(nat, Seq<char>),
    SetText(nat, Seq<char>),
    SetAttribute(nat, Seq<char>, Seq<char>),
    RemoveAttribute(nat, Seq<char>),
    AddListener(nat, Seq<char>, nat),
    RemoveListener(nat, Seq<char>, nat),
    AppendChild(nat, nat),
    RemoveChild(nat, nat),
    InstallRoot(nat),
}

/// One primitive operation of the host capability interface.
#[derive(Debug, PartialEq, Eq)]
pub enum HostOp {
    /// Create a text-bearing node holding `text`, known from now on as `node`.
    CreateText { node: Node, text: String },
    /// Create an element named `name`, known from now on as `node`.
    CreateElement { node: Node, name: String },
    /// Replace the text of a text-bearing node.
    SetText { node: Node, text: String },
    /// Set the string attribute `key` of `node` to `value`.
    SetAttribute { node: Node, key: String, value: String },
    /// Remove the string attribute `key` of `node`.
    RemoveAttribute { node: Node, key: String },
    /// Register `listener` for the event `event` of `node`.
    AddListener { node: Node, event: String, listener: Listener },
    /// Unregister `listener` from the event `event` of `node`.
    RemoveListener { node: Node, event: String, listener: Listener },
    /// Append `child` as the last child of `parent`.
    AppendChild { parent: Node, child: Node },
    /// Detach `child` from `parent`.
    RemoveChild { parent: Node, child: Node },
    /// Attach `node` to the application's root container.
    InstallRoot { node: Node },
}

impl View for HostOp {
    type V = HostCall;

    open spec fn view(&self) -> HostCall {
        match self {
            HostOp::CreateText { node, text } => HostCall::CreateText(node.id as nat, text@),
            HostOp::CreateElement { node, name } => HostCall::CreateElement(node.id as nat, name@),
            HostOp::SetText { node, text } => HostCall::SetText(node.id as nat, text@),
            HostOp::SetAttribute { node, key, value } => HostCall::SetAttribute(
                node.id as nat,
                key@,
                value@,
            ),
            HostOp::RemoveAttribute { node, key } => HostCall::RemoveAttribute(node.id as nat, key@),
            HostOp::AddListener { node, event, listener } => HostCall::AddListener(
                node.id as nat,
                event@,
                listener.id as nat,
            ),
            HostOp::RemoveListener { node, event, listener } => HostCall::RemoveListener(
                node.id as nat,
                event@,
                listener.id as nat,
            ),
            HostOp::AppendChild { parent, child } => HostCall::AppendChild(
                parent.id as nat,
                child.id as nat,
            ),
            HostOp::RemoveChild { parent, child } => HostCall::RemoveChild(
                parent.id as nat,
                child.id as nat,
            ),
            HostOp::InstallRoot { node } => HostCall::InstallRoot(node.id as nat),
        }
    }
}

/// The operations that a reconciliation has issued so far, in order.
pub struct Patch {
    pub ops: Vec<HostOp>,
}

impl View for Patch {
    type V = Seq<HostCall>;

    open spec fn view(&self) -> Seq<HostCall> {
        self.ops@.map_values(|o: HostOp| o@)
    }
}

impl Patch {
    pub fn new() -> (r: Patch)
        ensures
            r@ == Seq::<HostCall>::empty(),
    {
        let r = Patch { ops: Vec::new() };
        assert(r@ =~= Seq::<HostCall>::empty());
        r
    }

    pub fn push(&mut self, op: HostOp)
        ensures
            final(self)@ == old(self)@.push(op@),
    {
        let ghost op_v = op@;
        self.ops.push(op);
        assert(final(self)@ =~= old(self)@.push(op_v));
    }
}

} // verus!
