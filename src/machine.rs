//! A live tree together with its handle counter and the host calls that it
//! has issued and the host has not yet carried out.
use vstd::prelude::*;
use crate::host::{HostCall, HostOp, Node, Patch};
use crate::vdom::{
    build, build_calls, built, halt, halt_calls, handle_of, node_count, size, step, step_calls,
    step_used, stepped, LiveDom, VDom,
};

verus! {

/// Relies on take_mut::take: it moves the value out of `mut_ref`, hands it
/// to `closure` and writes back what the closure returns (the process
/// aborts if the closure panics).
pub assume_specification<T, F>[ take_mut::take::<T, F> ](mut_ref: &mut T, closure: F)
    where
        F: FnOnce(T) -> T,
    requires
        closure.requires((*old(mut_ref),)),
    ensures
        closure.ensures((*old(mut_ref),), *final(mut_ref)),
;

/// The handle that stands for the host's root container; the handles of
/// live nodes start after it.
pub const ROOT_ID: u64 = 0;

/// Why the machine refused a description.
#[derive(Clone, Copy, Debug, PartialEq, Eq, Structural)]
pub enum MachineError {
    /// The description has more nodes than fresh handles are left.
    HandlesExhausted,
}

/// A live tree and what it takes to keep reconciling it.
pub struct VDomMachine {
    pub vdom: LiveDom,
    /// The next fresh handle.
    pub next: u64,
    /// Whether the root of the live tree sits in the root container.
    pub installed: bool,
    /// The host calls issued and not yet handed to the host.
    pub patch: Patch,
}

impl VDomMachine {
    /// The parent of the live tree's root: the root container once installed.
    pub open spec fn root_parent(&self) -> Option<Node> {
        if self.installed {
            Some(Node { id: ROOT_ID })
        } else {
            None
        }
    }

    /// Builds a machine whose live tree materialises `d`, from the first
    /// handle after the root container's.
    pub fn build(d: VDom) -> (r: Result<VDomMachine, MachineError>)
        ensures
            match r {
                Ok(m) => {
                    &&& size(d) < u64::MAX
                    &&& built(m.vdom, d, 1)
                    &&& m.next == 1 + size(d)
                    &&& !m.installed
                    &&& m.patch@ == build_calls(d, 1)
                },
                Err(e) => size(d) >= u64::MAX && e == MachineError::HandlesExhausted,
            },
    {
        if node_count(&d) == u64::MAX {
            return Err(MachineError::HandlesExhausted);
        }
        let mut next: u64 = ROOT_ID + 1;
        let mut patch = Patch::new();
        let vdom = build(d, &mut next, &mut patch);
        assert(patch@ =~= build_calls(d, 1));
        Ok(VDomMachine { vdom, next, installed: false, patch })
    }

    /// Puts the root of the live tree into the host's root container.
    pub fn install(&mut self)
        ensures
            final(self).patch@ == old(self).patch@.push(
                HostCall::InstallRoot(handle_of(old(self).vdom).id as nat),
            ),
            final(self).installed,
            final(self).vdom == old(self).vdom,
            final(self).next == old(self).next,
    {
        let node = self.vdom.node();
        self.patch.push(HostOp::InstallRoot { node });
        self.installed = true;
    }

    /// The machine after stepping its live tree against `d`.
    fn stepped(self, d: VDom) -> (r: VDomMachine)
        requires
            self.next + size(d) <= u64::MAX,
        ensures
            stepped(r.vdom, self.vdom, d, self.next as nat),
            r.next == self.next + step_used(self.vdom, d),
            r.installed == self.installed,
            r.patch@ == self.patch@ + step_calls(
                self.vdom,
                d,
                self.root_parent(),
                self.next as nat,
            ),
    {
        let VDomMachine { vdom, mut next, installed, mut patch } = self;
        let parent = if installed {
            Some(Node { id: ROOT_ID })
        } else {
            None
        };
        let vdom = step(vdom, d, parent, &mut next, &mut patch);
        VDomMachine { vdom, next, installed, patch }
    }

    /// Reconciles the live tree against `d`, unless `d` has as many nodes as
    /// fresh handles are left, or more, in which case nothing changes.
    pub fn step(&mut self, d: VDom) -> (r: Result<(), MachineError>)
        ensures
            r is Ok <==> old(self).next + size(d) < u64::MAX,
            r is Ok ==> {
                &&& stepped(final(self).vdom, old(self).vdom, d, old(self).next as nat)
                &&& final(self).next == old(self).next + step_used(old(self).vdom, d)
                &&& final(self).installed == old(self).installed
                &&& final(self).patch@ == old(self).patch@ + step_calls(
                    old(self).vdom,
                    d,
                    old(self).root_parent(),
                    old(self).next as nat,
                )
            },
            r is Err ==> *final(self) == *old(self),
    {
        let n = node_count(&d);
        if n == u64::MAX || n >= u64::MAX - self.next {
            return Err(MachineError::HandlesExhausted);
        }
        let ghost d0 = d;
        let f = move |m: VDomMachine| -> (r: VDomMachine)
            requires
                m.next + size(d0) <= u64::MAX,
            ensures
                stepped(r.vdom, m.vdom, d0, m.next as nat),
                r.next == m.next + step_used(m.vdom, d0),
                r.installed == m.installed,
                r.patch@ == m.patch@ + step_calls(m.vdom, d0, m.root_parent(), m.next as nat),
            {
                m.stepped(d)
            };
        take_mut::take(self, f);
        Ok(())
    }

    /// Hands over the host calls issued so far, leaving none pending.
    pub fn take_ops(&mut self) -> (r: Vec<HostOp>)
        ensures
            r@.map_values(|o: HostOp| o@) == old(self).patch@,
            final(self).patch@ == Seq::<HostCall>::empty(),
            final(self).vdom == old(self).vdom,
            final(self).next == old(self).next,
            final(self).installed == old(self).installed,
    {
        let mut fresh = Patch::new();
        std::mem::swap(&mut self.patch, &mut fresh);
        fresh.ops
    }

    /// Tears the live tree down, and returns every host call still pending,
    /// the teardown's last.
    pub fn halt(self) -> (r: Patch)
        ensures
            r@ == self.patch@ + halt_calls(self.vdom, self.root_parent()),
    {
        let VDomMachine { vdom, installed, mut patch, .. } = self;
        let parent = if installed {
            Some(Node { id: ROOT_ID })
        } else {
            None
        };
        halt(vdom, parent, &mut patch);
        patch
    }
}

} // verus!
