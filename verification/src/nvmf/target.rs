//! The process-wide NVMe-oF target: a state machine bracketing
//! initialisation and shutdown of the transport table, the per-core poll
//! groups and the subsystem table.

use vstd::prelude::*;
use crate::nvmf::subsystem::{claims_device, NvmfSubsystem};
use crate::nvmf::{Error, Transport, ERRNO_EEXIST};

verus! {

/// Lifecycle of the target.
#[derive(Clone, Copy, Debug, PartialEq, Eq, Structural)]
pub enum TargetState {
    Init,
    ConfiguringTransports,
    AcceptingConnections,
    ShuttingDown,
    Stopped,
}

/// The target composes the configured transports, the per-core poll groups
/// and the table of exported subsystems.
pub struct Target {
    pub state: TargetState,
    pub transports: Vec<Transport>,
    /// Number of per-core poll groups allocated during reactor start.
    pub poll_groups: usize,
    pub subsystems: Vec<NvmfSubsystem>,
}

/// Is some subsystem in the table claiming the named device?
pub open spec fn device_claimed(subs: Seq<NvmfSubsystem>, device_name: Seq<char>) -> bool {
    exists|i: int| 0 <= i < subs.len() && claims_device(#[trigger] subs[i], device_name)
}

impl Target {
    /// NQNs are unique across the table.
    pub open spec fn nqns_unique(self) -> bool {
        forall|i: int, j: int|
            0 <= i < j < self.subsystems@.len() ==> (#[trigger] self.subsystems@[i]).nqn@ != (
            #[trigger] self.subsystems@[j]).nqn@
    }

    /// A device is claimed by at most one subsystem.
    pub open spec fn claims_exclusive(self) -> bool {
        forall|i: int, j: int|
            0 <= i < j < self.subsystems@.len() ==> match (
                (#[trigger] self.subsystems@[i]).ns,
                (#[trigger] self.subsystems@[j]).ns,
            ) {
                (Some(a), Some(b)) => a.device_name@ != b.device_name@,
                _ => true,
            }
    }

    /// Structural invariant of the target.
    pub open spec fn wf(self) -> bool {
        self.nqns_unique() && self.claims_exclusive()
    }

    /// The state one driver step advances to: initialisation walks forward
    /// while each step succeeds and its prerequisites hold (at least one
    /// transport and one poll group before accepting connections), any
    /// fatal failure jumps to shutdown, and shutdown runs to completion.
    pub open spec fn next_state_spec(self, step_ok: bool) -> TargetState {
        match self.state {
            TargetState::Init => if step_ok {
                TargetState::ConfiguringTransports
            } else {
                TargetState::ShuttingDown
            },
            TargetState::ConfiguringTransports => if step_ok && self.transports@.len() >= 1
                && self.poll_groups >= 1 {
                TargetState::AcceptingConnections
            } else {
                TargetState::ShuttingDown
            },
            TargetState::AcceptingConnections => TargetState::ShuttingDown,
            TargetState::ShuttingDown => TargetState::Stopped,
            TargetState::Stopped => TargetState::Stopped,
        }
    }

    /// A fresh target, before initialisation.
    pub fn new() -> (r: Target)
        ensures
            r.wf(),
            r.state == TargetState::Init,
            r.transports@.len() == 0,
            r.poll_groups == 0,
            r.subsystems@.len() == 0,
    {
        Target { state: TargetState::Init, transports: Vec::new(), poll_groups: 0, subsystems: Vec::new() }
    }

    /// Drive the target one step forward; `step_ok` reports whether the
    /// outside work of the previous step (creating a transport, allocating
    /// poll groups, accepting) succeeded. Reaching `Stopped` drains the poll
    /// groups and then frees the transports.
    pub fn next_state(&mut self, step_ok: bool) -> (r: TargetState)
        requires
            old(self).wf(),
        ensures
            final(self).wf(),
            final(self).subsystems@ == old(self).subsystems@,
            r == final(self).state,
            final(self).state == old(self).next_state_spec(step_ok),
            final(self).state == TargetState::Stopped ==> final(self).poll_groups == 0
                && final(self).transports@.len() == 0,
            final(self).state != TargetState::Stopped ==> final(self).poll_groups == old(
                self,
            ).poll_groups && final(self).transports@ == old(self).transports@,
    {
        let next = match self.state {
            TargetState::Init => {
                if step_ok {
                    TargetState::ConfiguringTransports
                } else {
                    TargetState::ShuttingDown
                }
            },
            TargetState::ConfiguringTransports => {
                if step_ok && self.transports.len() >= 1 && self.poll_groups >= 1 {
                    TargetState::AcceptingConnections
                } else {
                    TargetState::ShuttingDown
                }
            },
            TargetState::AcceptingConnections => TargetState::ShuttingDown,
            TargetState::ShuttingDown => TargetState::Stopped,
            TargetState::Stopped => TargetState::Stopped,
        };
        if matches!(next, TargetState::Stopped) {
            // teardown drains all poll groups before freeing the transports
            self.poll_groups = 0;
            self.transports = Vec::new();
        }
        self.state = next;
        next
    }

    /// Register a configured transport; one with the same canonical identity
    /// may exist only once.
    pub fn add_transport(&mut self, t: Transport) -> (r: Result<(), Error>)
        requires
            old(self).wf(),
            old(self).state == TargetState::ConfiguringTransports,
    ensures
            final(self).wf(),
            final(self).state == old(self).state,
            final(self).poll_groups == old(self).poll_groups,
            final(self).subsystems@ == old(self).subsystems@,
            ({
                let dup = exists|j: int|
                    0 <= j < old(self).transports@.len() && (#[trigger] old(
                        self,
                    ).transports@[j]).address@ == t.address@ && old(self).transports@[j].port
                        == t.port;
                if dup {
                    &&& final(self).transports@ == old(self).transports@
                    &&& r matches Err(Error::Transport { source, .. }) && source == ERRNO_EEXIST
                } else {
                    &&& final(self).transports@.len() == old(self).transports@.len() + 1
                    &&& forall|j: int|
                        0 <= j < old(self).transports@.len() ==> final(self).transports@[j]
                            == old(self).transports@[j]
                    &&& final(self).transports@.last() == t
                    &&& r is Ok
                }
            }),
    {
        let n = self.transports.len();
        let mut i: usize = 0;
        while i < n
            invariant
                i <= n,
                n == self.transports@.len(),
                *self == *old(self),
                old(self).wf(),
                forall|j: int|
                    0 <= j < i ==> !((#[trigger] self.transports@[j]).address@ == t.address@
                        && self.transports@[j].port == t.port),
            decreases n - i,
        {
            if crate::strutil::str_eq(self.transports[i].address.as_str(), t.address.as_str())
                && self.transports[i].port == t.port {
                return Err(Error::Transport {
                    source: ERRNO_EEXIST,
                    msg: "transport already configured".to_owned(),
                });
            }
            i += 1;
        }
        self.transports.push(t);
        Ok(())
    }

    /// Is the named device held as a namespace by any subsystem?
    pub fn device_is_claimed(&self, device_name: &str) -> (r: bool)
        ensures
            r == device_claimed(self.subsystems@, device_name@),
    {
        let n = self.subsystems.len();
        let mut i: usize = 0;
        while i < n
            invariant
                i <= n,
                n == self.subsystems@.len(),
                forall|j: int|
                    0 <= j < i ==> !claims_device(#[trigger] self.subsystems@[j], device_name@),
            decreases n - i,
        {
            let holds = match self.subsystems[i].ns.as_ref() {
                Some(ns) => crate::strutil::str_eq(ns.device_name.as_str(), device_name),
                None => false,
            };
            if holds {
                proof {
                    assert(claims_device(self.subsystems@[i as int], device_name@));
                }
                return true;
            }
            i += 1;
        }
        false
    }

    /// Allocate one per-core poll group.
    pub fn create_poll_group(&mut self)
        requires
            old(self).wf(),
            old(self).state == TargetState::ConfiguringTransports,
            old(self).poll_groups < usize::MAX,
        ensures
            final(self).wf(),
            final(self).poll_groups == old(self).poll_groups + 1,
            final(self).state == old(self).state,
            final(self).transports@ == old(self).transports@,
            final(self).subsystems@ == old(self).subsystems@,
    {
        self.poll_groups += 1;
    }
}

} // verus!
