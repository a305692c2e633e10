//! The per-export subsystem state machine: create, bind a namespace, add
//! listeners, start, stop, pause, resume and destroy, with the rollback that
//! a failed start destroys the half-initialised subsystem.

use vstd::prelude::*;
use crate::lookup::{find_first, lemma_find_first};
use crate::nvmf::target::{device_claimed, Target};
use crate::nvmf::{uri_prefix_of, BdevInfo, Error, Transport, ERRNO_EEXIST};
use crate::strutil::str_eq;

verus! {

/// Subtype of a subsystem: ordinary NVMe, or the discovery controller that
/// the underlying layer keeps as the first entry of its table.
#[derive(Clone, Copy, Debug, PartialEq, Eq, Structural)]
pub enum SubType {
    Nvme,
    Discovery,
}

/// Lifecycle of one subsystem; an absent subsystem has no state.
#[derive(Clone, Copy, Debug, PartialEq, Eq, Structural)]
pub enum SubsystemState {
    Created,
    NsAttached,
    Listening,
    Active,
    Paused,
}

/// Binding of a block device to namespace 1 of a subsystem; `nguid` carries
/// the device UUID.
pub struct Namespace {
    pub nsid: u32,
    pub device_name: String,
    pub nguid: String,
}

/// An NVMe-oF exported entity, addressed by its NQN. It owns at most one
/// namespace and its listeners; removing the subsystem removes both.
pub struct NvmfSubsystem {
    pub nqn: String,
    pub serial: String,
    pub mn: String,
    pub allow_any_host: bool,
    pub subtype: SubType,
    pub ns: Option<Namespace>,
    pub listeners: Vec<Transport>,
    pub state: SubsystemState,
}

/// The NQN derived for an identifier.
pub open spec fn nqn_of(id: Seq<char>) -> Seq<char> {
    "nqn.2019-05.io.openebs:"@ + id
}

/// The fixed, wire-visible serial number of every exported subsystem.
pub open spec fn serial_literal() -> Seq<char> {
    "33' ~'~._`o##o>"@
}

/// The fixed model number; the initiator helper recognises controllers by it.
pub open spec fn model_literal() -> Seq<char> {
    "Mayastor NVMe controller"@
}

/// Predicate matching a subsystem by NQN.
pub open spec fn subsystem_with_nqn(nqn: Seq<char>) -> spec_fn(NvmfSubsystem) -> bool {
    |s: NvmfSubsystem| s.nqn@ == nqn
}

/// Does this subsystem hold the named device as its namespace?
pub open spec fn claims_device(s: NvmfSubsystem, device_name: Seq<char>) -> bool {
    match s.ns {
        Some(ns) => ns.device_name@ == device_name,
        None => false,
    }
}

/// The URI under which a subsystem is reachable through one listener.
pub open spec fn subsystem_uri(address: Seq<char>, port: u16, nqn: Seq<char>) -> Seq<char> {
    uri_prefix_of(address, port) + "/"@ + nqn
}

/// Everything but the listeners and the state agrees between `s0` and `s1`.
pub open spec fn same_but_listeners_and_state(s0: NvmfSubsystem, s1: NvmfSubsystem) -> bool {
    &&& s1.nqn == s0.nqn
    &&& s1.serial == s0.serial
    &&& s1.mn == s0.mn
    &&& s1.allow_any_host == s0.allow_any_host
    &&& s1.subtype == s0.subtype
    &&& s1.ns == s0.ns
}

/// `s1` has the listeners of `s0` plus one more at the end.
pub open spec fn listeners_extended(
    s0: NvmfSubsystem,
    s1: NvmfSubsystem,
    address: Seq<char>,
    port: u16,
) -> bool {
    &&& s1.listeners@.len() == s0.listeners@.len() + 1
    &&& forall|j: int| 0 <= j < s0.listeners@.len() ==> s1.listeners@[j] == s0.listeners@[j]
    &&& s1.listeners@.last().address@ == address
    &&& s1.listeners@.last().port == port
}

/// Derive the NQN for an identifier.
pub fn gen_nqn(id: &str) -> (r: String)
    ensures
        r@ == nqn_of(id@),
{
    let mut s = "nqn.2019-05.io.openebs:".to_owned();
    s.append(id);
    s
}

impl NvmfSubsystem {
    /// Create a subsystem whose NQN derives from `uuid` and register it in
    /// the target's table; the serial and model strings are fixed constants
    /// and any-host access starts disabled. Fails when the NQN already
    /// exists. Returns the table index of the new subsystem.
    pub fn new(tgt: &mut Target, uuid: &str) -> (r: Result<usize, Error>)
        requires
            old(tgt).wf(),
        ensures
            final(tgt).wf(),
            final(tgt).state == old(tgt).state,
            final(tgt).transports@ == old(tgt).transports@,
            final(tgt).poll_groups == old(tgt).poll_groups,
            ({
                let subs0 = old(tgt).subsystems@;
                if find_first(subs0, subsystem_with_nqn(nqn_of(uuid@))) != -1 {
                    &&& final(tgt).subsystems@ == subs0
                    &&& r matches Err(Error::Subsystem { source, nqn, .. }) && source
                        == ERRNO_EEXIST && nqn@ == uuid@
                } else {
                    &&& r matches Ok(i) && i as int == subs0.len()
                    &&& final(tgt).subsystems@.len() == subs0.len() + 1
                    &&& forall|j: int|
                        0 <= j < subs0.len() ==> final(tgt).subsystems@[j] == subs0[j]
                    &&& ({
                        let s = final(tgt).subsystems@.last();
                        &&& s.nqn@ == nqn_of(uuid@)
                        &&& s.serial@ == serial_literal()
                        &&& s.mn@ == model_literal()
                        &&& s.allow_any_host == false
                        &&& s.subtype == SubType::Nvme
                        &&& s.ns is None
                        &&& s.listeners@.len() == 0
                        &&& s.state == SubsystemState::Created
                    })
                }
            }),
    {
        let nqn = gen_nqn(uuid);
        let ghost p = subsystem_with_nqn(nqn_of(uuid@));
        let n = tgt.subsystems.len();
        let mut i: usize = 0;
        while i < n
            invariant
                i <= n,
                n == tgt.subsystems@.len(),
                *tgt == *old(tgt),
                old(tgt).wf(),
                nqn@ == nqn_of(uuid@),
                p == subsystem_with_nqn(nqn_of(uuid@)),
                forall|j: int| 0 <= j < i ==> !p(#[trigger] tgt.subsystems@[j]),
            decreases n - i,
        {
            if str_eq(tgt.subsystems[i].nqn.as_str(), nqn.as_str()) {
                proof {
                    lemma_find_first(tgt.subsystems@, p);
                    assert(p(tgt.subsystems@[i as int]));
                }
                return Err(Error::Subsystem {
                    source: ERRNO_EEXIST,
                    nqn: uuid.to_owned(),
                    msg: "subsystem already exists".to_owned(),
                });
            }
            proof {
                assert(!p(tgt.subsystems@[i as int]));
            }
            i += 1;
        }
        proof {
            lemma_find_first(tgt.subsystems@, p);
        }
        // look closely, its a race car!
        let serial = "33' ~'~._`o##o>".to_owned();
        let mn = "Mayastor NVMe controller".to_owned();
        let ss = NvmfSubsystem {
            nqn,
            serial,
            mn,
            allow_any_host: false,
            subtype: SubType::Nvme,
            ns: None,
            listeners: Vec::new(),
            state: SubsystemState::Created,
        };
        tgt.subsystems.push(ss);
        proof {
            assert forall|a: int, b: int|
                0 <= a < b < tgt.subsystems@.len() implies (#[trigger] tgt.subsystems@[a]).nqn@
                != (#[trigger] tgt.subsystems@[b]).nqn@ by {
                if b == tgt.subsystems@.len() - 1 {
                    assert(!p(tgt.subsystems@[a]));
                }
            }
            assert forall|a: int, b: int|
                0 <= a < b < tgt.subsystems@.len() implies (match (
                (#[trigger] tgt.subsystems@[a]).ns,
                (#[trigger] tgt.subsystems@[b]).ns,
            ) {
                (Some(x), Some(y)) => x.device_name@ != y.device_name@,
                _ => true,
            }) by {}
        }
        Ok(tgt.subsystems.len() - 1)
    }

    /// Create, allow any host, and bind the device as the namespace: the
    /// shape used when the NQN cannot be the device UUID. A namespace
    /// failure leaves the created subsystem in the table, as the underlying
    /// layer does.
    pub fn new_with_uuid(tgt: &mut Target, uuid: &str, bdev: &BdevInfo) -> (r: Result<
        usize,
        Error,
    >)
        requires
            old(tgt).wf(),
        ensures
            final(tgt).wf(),
            final(tgt).state == old(tgt).state,
            final(tgt).transports@ == old(tgt).transports@,
            final(tgt).poll_groups == old(tgt).poll_groups,
            r matches Ok(i) ==> {
                &&& i as int == old(tgt).subsystems@.len()
                &&& final(tgt).subsystems@.len() == old(tgt).subsystems@.len() + 1
                &&& ({
                    let s = final(tgt).subsystems@.last();
                    &&& s.nqn@ == nqn_of(uuid@)
                    &&& s.allow_any_host
                    &&& claims_device(s, bdev.name@)
                    &&& s.state == SubsystemState::NsAttached
                })
            },
            r is Err ==> if find_first(
                old(tgt).subsystems@,
                subsystem_with_nqn(nqn_of(uuid@)),
            ) != -1 {
                final(tgt).subsystems@ == old(tgt).subsystems@
            } else {
                // the device was already claimed; the created subsystem
                // stays behind without a namespace, as the underlying
                // layer leaves it
                &&& device_claimed(old(tgt).subsystems@, bdev.name@)
                &&& final(tgt).subsystems@.len() == old(tgt).subsystems@.len() + 1
                &&& forall|j: int|
                    0 <= j < old(tgt).subsystems@.len() ==> final(tgt).subsystems@[j] == old(
                        tgt,
                    ).subsystems@[j]
                &&& final(tgt).subsystems@.last().nqn@ == nqn_of(uuid@)
                &&& final(tgt).subsystems@.last().ns is None
            },
    {
        let i = match Self::new(tgt, uuid) {
            Ok(i) => i,
            Err(e) => {
                return Err(e);
            },
        };
        Self::allow_any(tgt, i, true);
        let ghost subs_b = tgt.subsystems@;
        match Self::add_namespace(tgt, i, bdev) {
            Ok(()) => Ok(i),
            Err(e) => {
                proof {
                    // the freshly created subsystem holds no namespace, so
                    // the conflicting claim predates this call
                    let subs0 = old(tgt).subsystems@;
                    assert(subs_b[i as int].ns is None);
                    assert(device_claimed(subs_b, bdev.name@));
                    let w = choose|w: int|
                        0 <= w < subs_b.len() && claims_device(
                            #[trigger] subs_b[w],
                            bdev.name@,
                        );
                    assert(subs_b[w] == subs0[w]);
                    assert(device_claimed(subs0, bdev.name@));
                }
                Err(e)
            },
        }
    }

    /// Create a subsystem for a device, named after the device itself: the
    /// shape behind sharing a block device directly.
    pub fn try_from(tgt: &mut Target, bdev: &BdevInfo) -> (r: Result<usize, Error>)
        requires
            old(tgt).wf(),
        ensures
            final(tgt).wf(),
            final(tgt).state == old(tgt).state,
            final(tgt).transports@ == old(tgt).transports@,
            final(tgt).poll_groups == old(tgt).poll_groups,
            r matches Ok(i) ==> {
                &&& i as int == old(tgt).subsystems@.len()
                &&& final(tgt).subsystems@.len() == old(tgt).subsystems@.len() + 1
                &&& ({
                    let s = final(tgt).subsystems@.last();
                    &&& s.nqn@ == nqn_of(bdev.name@)
                    &&& s.allow_any_host
                    &&& claims_device(s, bdev.name@)
                    &&& s.state == SubsystemState::NsAttached
                })
            },
            r is Err ==> if find_first(
                old(tgt).subsystems@,
                subsystem_with_nqn(nqn_of(bdev.name@)),
            ) != -1 {
                final(tgt).subsystems@ == old(tgt).subsystems@
            } else {
                &&& device_claimed(old(tgt).subsystems@, bdev.name@)
                &&& final(tgt).subsystems@.len() == old(tgt).subsystems@.len() + 1
            },
    {
        Self::new_with_uuid(tgt, bdev.name.clone().as_str(), bdev)
    }

    /// Let any host connect, or restrict again.
    pub fn allow_any(tgt: &mut Target, i: usize, enable: bool)
        requires
            old(tgt).wf(),
            i < old(tgt).subsystems@.len(),
        ensures
            final(tgt).wf(),
            final(tgt).state == old(tgt).state,
            final(tgt).transports@ == old(tgt).transports@,
            final(tgt).poll_groups == old(tgt).poll_groups,
            final(tgt).subsystems@ == old(tgt).subsystems@.update(
                i as int,
                (NvmfSubsystem { allow_any_host: enable, ..old(tgt).subsystems@[i as int] }),
            ),
    {
        tgt.subsystems[i].allow_any_host = enable;
        proof {
            assert(tgt.subsystems@ =~= old(tgt).subsystems@.update(
                i as int,
                (NvmfSubsystem { allow_any_host: enable, ..old(tgt).subsystems@[i as int] }),
            ));
            lemma_same_identities_wf(*old(tgt), *tgt);
        }
    }

    /// Bind the device at namespace 1, copying the device UUID as the
    /// namespace GUID. The device becomes claimed: binding fails while any
    /// subsystem (this one included) already holds a namespace for it, and a
    /// subsystem holds at most one namespace.
    pub fn add_namespace(tgt: &mut Target, i: usize, bdev: &BdevInfo) -> (r: Result<(), Error>)
        requires
            old(tgt).wf(),
            i < old(tgt).subsystems@.len(),
        ensures
            final(tgt).wf(),
            final(tgt).state == old(tgt).state,
            final(tgt).transports@ == old(tgt).transports@,
            final(tgt).poll_groups == old(tgt).poll_groups,
            ({
                let subs0 = old(tgt).subsystems@;
                if device_claimed(subs0, bdev.name@) || subs0[i as int].ns is Some {
                    &&& final(tgt).subsystems@ == subs0
                    &&& r matches Err(Error::Namespace { bdev: b, .. }) && b@ == bdev.name@
                } else {
                    &&& final(tgt).subsystems@ == subs0.update(
                        i as int,
                        (NvmfSubsystem {
                            ns: Some(
                                Namespace {
                                    nsid: 1,
                                    device_name: bdev.name,
                                    nguid: bdev.uuid,
                                },
                            ),
                            state: if subs0[i as int].state == SubsystemState::Created {
                                SubsystemState::NsAttached
                            } else {
                                subs0[i as int].state
                            },
                            ..subs0[i as int]
                        }),
                    )
                    &&& r is Ok
                }
            }),
    {
        let ghost subs0 = tgt.subsystems@;
        if tgt.subsystems[i].ns.is_some() {
            return Err(Error::Namespace {
                bdev: bdev.name.clone(),
                msg: "namespace already attached".to_owned(),
            });
        }
        let n = tgt.subsystems.len();
        let mut k: usize = 0;
        while k < n
            invariant
                k <= n,
                n == tgt.subsystems@.len(),
                *tgt == *old(tgt),
                old(tgt).wf(),
                forall|j: int| 0 <= j < k ==> !claims_device(#[trigger] tgt.subsystems@[j], bdev.name@),
            decreases n - k,
        {
            let claimed = match tgt.subsystems[k].ns.as_ref() {
                Some(ns) => str_eq(ns.device_name.as_str(), bdev.name.as_str()),
                None => false,
            };
            if claimed {
                return Err(Error::Namespace {
                    bdev: bdev.name.clone(),
                    msg: "device already claimed".to_owned(),
                });
            }
            k += 1;
        }
        let ns = Namespace { nsid: 1, device_name: bdev.name.clone(), nguid: bdev.uuid.clone() };
        tgt.subsystems[i].ns = Some(ns);
        if matches!(tgt.subsystems[i].state, SubsystemState::Created) {
            tgt.subsystems[i].state = SubsystemState::NsAttached;
        }
        proof {
            assert(tgt.subsystems@ =~= subs0.update(
                i as int,
                (NvmfSubsystem {
                    ns: Some(
                        Namespace { nsid: 1, device_name: bdev.name, nguid: bdev.uuid },
                    ),
                    state: if subs0[i as int].state == SubsystemState::Created {
                        SubsystemState::NsAttached
                    } else {
                        subs0[i as int].state
                    },
                    ..subs0[i as int]
                }),
            ));
            assert forall|a: int, b: int|
                0 <= a < b < tgt.subsystems@.len() implies (match (
                (#[trigger] tgt.subsystems@[a]).ns,
                (#[trigger] tgt.subsystems@[b]).ns,
            ) {
                (Some(x), Some(y)) => x.device_name@ != y.device_name@,
                _ => true,
            }) by {
                if a == i as int {
                    assert(!claims_device(subs0[b], bdev.name@));
                }
                if b == i as int {
                    assert(!claims_device(subs0[a], bdev.name@));
                }
            }
            assert forall|a: int, b: int|
                0 <= a < b < tgt.subsystems@.len() implies (#[trigger] tgt.subsystems@[a]).nqn@
                != (#[trigger] tgt.subsystems@[b]).nqn@ by {}
        }
        Ok(())
    }

    /// Bind this subsystem to a transport. The underlying layer signals the
    /// completion asynchronously; its status decides: zero appends the
    /// listener (and a freshly namespace-attached subsystem starts
    /// listening), anything else changes nothing and surfaces a transport
    /// error carrying the status.
    pub fn add_listener(tgt: &mut Target, i: usize, trid: &Transport, status: i32) -> (r: Result<
        (),
        Error,
    >)
        requires
            old(tgt).wf(),
            i < old(tgt).subsystems@.len(),
        ensures
            final(tgt).wf(),
            final(tgt).state == old(tgt).state,
            final(tgt).transports@ == old(tgt).transports@,
            final(tgt).poll_groups == old(tgt).poll_groups,
            ({
                let subs0 = old(tgt).subsystems@;
                if status == 0 {
                    &&& final(tgt).subsystems@.len() == subs0.len()
                    &&& forall|j: int|
                        0 <= j < subs0.len() && j != i ==> final(tgt).subsystems@[j] == subs0[j]
                    &&& same_but_listeners_and_state(subs0[i as int], final(tgt).subsystems@[i as int])
                    &&& listeners_extended(
                        subs0[i as int],
                        final(tgt).subsystems@[i as int],
                        trid.address@,
                        trid.port,
                    )
                    &&& final(tgt).subsystems@[i as int].state == (if subs0[i as int].state
                        == SubsystemState::NsAttached {
                        SubsystemState::Listening
                    } else {
                        subs0[i as int].state
                    })
                    &&& r is Ok
                } else {
                    &&& final(tgt).subsystems@ == subs0
                    &&& r matches Err(Error::Transport { source, .. }) && source == status
                }
            }),
    {
        if status != 0 {
            return Err(Error::Transport {
                source: status,
                msg: "Failed to add listener".to_owned(),
            });
        }
        let t = trid.duplicate();
        tgt.subsystems[i].listeners.push(t);
        if matches!(tgt.subsystems[i].state, SubsystemState::NsAttached) {
            tgt.subsystems[i].state = SubsystemState::Listening;
        }
        proof {
            lemma_same_identities_wf(*old(tgt), *tgt);
        }
        Ok(())
    }

    /// Start the subsystem: bind the replica listener, then drive the state
    /// to `Active`. Each phase completes with a status from the underlying
    /// layer. A listener failure leaves the subsystem as it was; a failure of
    /// the start completion destroys the subsystem before the error is
    /// surfaced, so no half-initialised export remains — afterwards no entry
    /// with its NQN exists.
    pub fn start(
        tgt: &mut Target,
        i: usize,
        trid: &Transport,
        listen_status: i32,
        start_status: i32,
    ) -> (r: Result<(), Error>)
        requires
            old(tgt).wf(),
            i < old(tgt).subsystems@.len(),
            old(tgt).subsystems@[i as int].state == SubsystemState::NsAttached,
        ensures
            final(tgt).wf(),
            final(tgt).state == old(tgt).state,
            final(tgt).transports@ == old(tgt).transports@,
            final(tgt).poll_groups == old(tgt).poll_groups,
            ({
                let subs0 = old(tgt).subsystems@;
                if listen_status != 0 {
                    &&& final(tgt).subsystems@ == subs0
                    &&& r matches Err(Error::Transport { source, .. }) && source == listen_status
                } else if start_status != 0 {
                    &&& final(tgt).subsystems@ == subs0.remove(i as int)
                    &&& r matches Err(Error::Subsystem { source, nqn, .. }) && source
                        == start_status && nqn@ == subs0[i as int].nqn@
                    &&& forall|j: int|
                        0 <= j < final(tgt).subsystems@.len()
                            ==> (#[trigger] final(tgt).subsystems@[j]).nqn@
                            != subs0[i as int].nqn@
                } else {
                    &&& final(tgt).subsystems@.len() == subs0.len()
                    &&& forall|j: int|
                        0 <= j < subs0.len() && j != i ==> final(tgt).subsystems@[j] == subs0[j]
                    &&& same_but_listeners_and_state(subs0[i as int], final(tgt).subsystems@[i as int])
                    &&& listeners_extended(
                        subs0[i as int],
                        final(tgt).subsystems@[i as int],
                        trid.address@,
                        trid.port,
                    )
                    &&& final(tgt).subsystems@[i as int].state == SubsystemState::Active
                    &&& r is Ok
                }
            }),
    {
        let ghost subs0 = tgt.subsystems@;
        match Self::add_listener(tgt, i, trid, listen_status) {
            Ok(()) => {},
            Err(e) => {
                return Err(e);
            },
        }
        let nqn = tgt.subsystems[i].get_nqn();
        if start_status != 0 {
            // rollback: destroy the subsystem before surfacing the error
            Self::destroy(tgt, i);
            proof {
                assert(tgt.subsystems@ =~= subs0.remove(i as int));
                assert forall|j: int|
                    0 <= j < tgt.subsystems@.len() implies (#[trigger] tgt.subsystems@[j]).nqn@
                    != subs0[i as int].nqn@ by {
                    let j0 = if j < i as int {
                        j
                    } else {
                        j + 1
                    };
                    assert(tgt.subsystems@[j] == subs0[j0]);
                }
            }
            return Err(Error::Subsystem {
                source: start_status,
                nqn,
                msg: "failed to start the subsystem".to_owned(),
            });
        }
        tgt.subsystems[i].state = SubsystemState::Active;
        proof {
            lemma_same_identities_wf(*old(tgt), *tgt);
        }
        Ok(())
    }

    /// One completion-driven state flip, shared by stop, pause and resume.
    fn transition(tgt: &mut Target, i: usize, to: SubsystemState, status: i32, msg: &str) -> (r:
        Result<(), Error>)
        requires
            old(tgt).wf(),
            i < old(tgt).subsystems@.len(),
        ensures
            final(tgt).wf(),
            final(tgt).state == old(tgt).state,
            final(tgt).transports@ == old(tgt).transports@,
            final(tgt).poll_groups == old(tgt).poll_groups,
            ({
                let subs0 = old(tgt).subsystems@;
                if status == 0 {
                    &&& final(tgt).subsystems@ == subs0.update(
                        i as int,
                        (NvmfSubsystem { state: to, ..subs0[i as int] }),
                    )
                    &&& r is Ok
                } else {
                    &&& final(tgt).subsystems@ == subs0
                    &&& r matches Err(Error::Subsystem { source, nqn, .. }) && source == status
                        && nqn@ == subs0[i as int].nqn@
                }
            }),
    {
        if status != 0 {
            return Err(Error::Subsystem {
                source: status,
                nqn: tgt.subsystems[i].get_nqn(),
                msg: msg.to_owned(),
            });
        }
        tgt.subsystems[i].state = to;
        proof {
            assert(tgt.subsystems@ =~= old(tgt).subsystems@.update(
                i as int,
                (NvmfSubsystem { state: to, ..old(tgt).subsystems@[i as int] }),
            ));
            lemma_same_identities_wf(*old(tgt), *tgt);
        }
        Ok(())
    }

    /// Stop the subsystem: in-flight work drains and new connections are
    /// refused. A failed completion leaves the state as it was.
    pub fn stop(tgt: &mut Target, i: usize, status: i32) -> (r: Result<(), Error>)
        requires
            old(tgt).wf(),
            i < old(tgt).subsystems@.len(),
            old(tgt).subsystems@[i as int].state == SubsystemState::Active,
        ensures
            final(tgt).wf(),
            final(tgt).state == old(tgt).state,
            final(tgt).transports@ == old(tgt).transports@,
            final(tgt).poll_groups == old(tgt).poll_groups,
            ({
                let subs0 = old(tgt).subsystems@;
                if status == 0 {
                    &&& final(tgt).subsystems@ == subs0.update(
                        i as int,
                        (NvmfSubsystem { state: SubsystemState::Paused, ..subs0[i as int] }),
                    )
                    &&& r is Ok
                } else {
                    &&& final(tgt).subsystems@ == subs0
                    &&& r matches Err(Error::Subsystem { source, nqn, .. }) && source == status
                        && nqn@ == subs0[i as int].nqn@
                }
            }),
    {
        Self::transition(tgt, i, SubsystemState::Paused, status, "failed to stop the subsystem")
    }

    /// Pause the subsystem without dropping its listeners; reserved for
    /// namespace reconfiguration.
    pub fn pause(tgt: &mut Target, i: usize, status: i32) -> (r: Result<(), Error>)
        requires
            old(tgt).wf(),
            i < old(tgt).subsystems@.len(),
            old(tgt).subsystems@[i as int].state == SubsystemState::Active,
        ensures
            final(tgt).wf(),
            final(tgt).state == old(tgt).state,
            final(tgt).transports@ == old(tgt).transports@,
            final(tgt).poll_groups == old(tgt).poll_groups,
            ({
                let subs0 = old(tgt).subsystems@;
                if status == 0 {
                    &&& final(tgt).subsystems@ == subs0.update(
                        i as int,
                        (NvmfSubsystem { state: SubsystemState::Paused, ..subs0[i as int] }),
                    )
                    &&& r is Ok
                } else {
                    &&& final(tgt).subsystems@ == subs0
                    &&& r matches Err(Error::Subsystem { source, nqn, .. }) && source == status
                        && nqn@ == subs0[i as int].nqn@
                }
            }),
    {
        Self::transition(tgt, i, SubsystemState::Paused, status, "failed to pause the subsystem")
    }

    /// Resume a paused subsystem.
    pub fn resume(tgt: &mut Target, i: usize, status: i32) -> (r: Result<(), Error>)
        requires
            old(tgt).wf(),
            i < old(tgt).subsystems@.len(),
            old(tgt).subsystems@[i as int].state == SubsystemState::Paused,
        ensures
            final(tgt).wf(),
            final(tgt).state == old(tgt).state,
            final(tgt).transports@ == old(tgt).transports@,
            final(tgt).poll_groups == old(tgt).poll_groups,
            ({
                let subs0 = old(tgt).subsystems@;
                if status == 0 {
                    &&& final(tgt).subsystems@ == subs0.update(
                        i as int,
                        (NvmfSubsystem { state: SubsystemState::Active, ..subs0[i as int] }),
                    )
                    &&& r is Ok
                } else {
                    &&& final(tgt).subsystems@ == subs0
                    &&& r matches Err(Error::Subsystem { source, nqn, .. }) && source == status
                        && nqn@ == subs0[i as int].nqn@
                }
            }),
    {
        Self::transition(tgt, i, SubsystemState::Active, status, "failed to resume the subsystem")
    }

    /// Remove the subsystem from the table, dropping its namespace (which
    /// releases the device claim) and its listeners.
    pub fn destroy(tgt: &mut Target, i: usize)
        requires
            old(tgt).wf(),
            i < old(tgt).subsystems@.len(),
        ensures
            final(tgt).wf(),
            final(tgt).state == old(tgt).state,
            final(tgt).transports@ == old(tgt).transports@,
            final(tgt).poll_groups == old(tgt).poll_groups,
            final(tgt).subsystems@ == old(tgt).subsystems@.remove(i as int),
    {
        tgt.subsystems.remove(i);
        proof {
            lemma_remove_preserves_wf(*old(tgt), *tgt, i as int);
        }
    }

    /// Destroy every subsystem, then advance the target's own state machine.
    pub fn destroy_all(tgt: &mut Target) -> (r: super::target::TargetState)
        requires
            old(tgt).wf(),
        ensures
            final(tgt).wf(),
            final(tgt).subsystems@.len() == 0,
            r == final(tgt).state,
            final(tgt).state == old(tgt).next_state_spec(true),
    {
        tgt.subsystems = Vec::new();
        tgt.next_state(true)
    }

    /// The first subsystem in the table, often the discovery controller.
    pub fn first(tgt: &Target) -> (r: Option<&NvmfSubsystem>)
        ensures
            match r {
                Some(s) => tgt.subsystems@.len() > 0 && *s == tgt.subsystems@[0],
                None => tgt.subsystems@.len() == 0,
            },
    {
        if tgt.subsystems.len() > 0 {
            Some(&tgt.subsystems[0])
        } else {
            None
        }
    }

    /// Linear scan for the subsystem whose NQN derives from `uuid`.
    pub fn nqn_lookup(tgt: &Target, uuid: &str) -> (r: Option<usize>)
        ensures
            ({
                let f = find_first(tgt.subsystems@, subsystem_with_nqn(nqn_of(uuid@)));
                match r {
                    Some(i) => f == i as int && i < tgt.subsystems@.len(),
                    None => f == -1,
                }
            }),
    {
        let nqn = gen_nqn(uuid);
        let ghost p = subsystem_with_nqn(nqn_of(uuid@));
        let n = tgt.subsystems.len();
        let mut i: usize = 0;
        while i < n
            invariant
                i <= n,
                n == tgt.subsystems@.len(),
                nqn@ == nqn_of(uuid@),
                p == subsystem_with_nqn(nqn_of(uuid@)),
                forall|j: int| 0 <= j < i ==> !p(#[trigger] tgt.subsystems@[j]),
            decreases n - i,
        {
            if str_eq(tgt.subsystems[i].nqn.as_str(), nqn.as_str()) {
                proof {
                    lemma_find_first(tgt.subsystems@, p);
                    assert(p(tgt.subsystems@[i as int]));
                }
                return Some(i);
            }
            proof {
                assert(!p(tgt.subsystems@[i as int]));
            }
            i += 1;
        }
        proof {
            lemma_find_first(tgt.subsystems@, p);
        }
        None
    }

    /// This subsystem's NQN.
    pub fn get_nqn(&self) -> (r: String)
        ensures
            r@ == self.nqn@,
    {
        self.nqn.clone()
    }

    /// The device bound as the first (and only) namespace.
    pub fn bdev(&self) -> (r: &String)
        requires
            self.ns is Some,
        ensures
            r@ == self.ns.unwrap().device_name@,
    {
        &self.ns.as_ref().unwrap().device_name
    }

    /// The bound listeners, by value; `None` when there is none.
    pub fn listeners_to_vec(&self) -> (r: Option<Vec<Transport>>)
        ensures
            match r {
                Some(v) => {
                    &&& self.listeners@.len() > 0
                    &&& v@.len() == self.listeners@.len()
                    &&& forall|j: int|
                        0 <= j < v@.len() ==> (#[trigger] v@[j]).address@
                            == self.listeners@[j].address@ && v@[j].port == self.listeners@[j].port
                },
                None => self.listeners@.len() == 0,
            },
    {
        let n = self.listeners.len();
        if n == 0 {
            return None;
        }
        let mut v: Vec<Transport> = Vec::new();
        let mut i: usize = 0;
        while i < n
            invariant
                i <= n,
                n == self.listeners@.len(),
                v@.len() == i,
                forall|j: int|
                    0 <= j < i ==> (#[trigger] v@[j]).address@ == self.listeners@[j].address@
                        && v@[j].port == self.listeners@[j].port,
            decreases n - i,
        {
            v.push(self.listeners[i].duplicate());
            i += 1;
        }
        Some(v)
    }

    /// Exactly one URI per bound listener, in listener-insertion order;
    /// `None` when nothing listens.
    pub fn uri_endpoints(&self) -> (r: Option<Vec<String>>)
        ensures
            match r {
                Some(v) => {
                    &&& self.listeners@.len() > 0
                    &&& v@.len() == self.listeners@.len()
                    &&& forall|j: int|
                        0 <= j < v@.len() ==> (#[trigger] v@[j])@ == subsystem_uri(
                            self.listeners@[j].address@,
                            self.listeners@[j].port,
                            self.nqn@,
                        )
                },
                None => self.listeners@.len() == 0,
            },
    {
        let n = self.listeners.len();
        if n == 0 {
            return None;
        }
        let mut v: Vec<String> = Vec::new();
        let mut i: usize = 0;
        while i < n
            invariant
                i <= n,
                n == self.listeners@.len(),
                v@.len() == i,
                forall|j: int|
                    0 <= j < i ==> (#[trigger] v@[j])@ == subsystem_uri(
                        self.listeners@[j].address@,
                        self.listeners@[j].port,
                        self.nqn@,
                    ),
            decreases n - i,
        {
            let mut uri = self.listeners[i].uri_prefix();
            uri.append("/");
            uri.append(self.nqn.as_str());
            v.push(uri);
            i += 1;
        }
        Some(v)
    }
}

/// Rollback, as a lookup sees it: once no table entry carries an NQN, a
/// lookup by that NQN finds nothing. Together with the failed-start clause of
/// [`NvmfSubsystem::start`], a subsystem whose start completion failed is
/// observed by any subsequent lookup as non-existent.
pub proof fn lemma_failed_start_not_found(subs: Seq<NvmfSubsystem>, nqn: Seq<char>)
    requires
        forall|j: int| 0 <= j < subs.len() ==> (#[trigger] subs[j]).nqn@ != nqn,
    ensures
        find_first(subs, subsystem_with_nqn(nqn)) == -1,
{
    let p = subsystem_with_nqn(nqn);
    lemma_find_first(subs, p);
    if find_first(subs, p) != -1 {
        let r = find_first(subs, p);
        assert(p(subs[r]));
    }
}

/// Exclusivity of the device claim: while one subsystem holds a device as
/// its namespace, no other subsystem holds it — so, by the contract of
/// [`NvmfSubsystem::add_namespace`], binding the device to any other
/// subsystem fails and leaves the table unchanged until the holder is
/// destroyed.
pub proof fn lemma_device_claim_exclusive(tgt: Target, a: int, b: int, device_name: Seq<char>)
    requires
        tgt.wf(),
        0 <= a < tgt.subsystems@.len(),
        0 <= b < tgt.subsystems@.len(),
        a != b,
        claims_device(tgt.subsystems@[a], device_name),
    ensures
        device_claimed(tgt.subsystems@, device_name),
        !claims_device(tgt.subsystems@[b], device_name),
{
}

/// Destroying the holder releases the claim: after the holder is removed
/// from the table, the device is claimed by nobody.
pub proof fn lemma_destroy_releases_claim(tgt: Target, i: int, device_name: Seq<char>)
    requires
        tgt.wf(),
        0 <= i < tgt.subsystems@.len(),
        claims_device(tgt.subsystems@[i], device_name),
    ensures
        !device_claimed(tgt.subsystems@.remove(i), device_name),
{
    let rem = tgt.subsystems@.remove(i);
    if device_claimed(rem, device_name) {
        let w = choose|w: int| 0 <= w < rem.len() && claims_device(#[trigger] rem[w], device_name);
        let w0 = if w < i {
            w
        } else {
            w + 1
        };
        assert(rem[w] == tgt.subsystems@[w0]);
    }
}

/// Updating fields other than `nqn` and `ns` preserves the table invariant.
proof fn lemma_same_identities_wf(t0: Target, t1: Target)
    requires
        t0.wf(),
        t1.subsystems@.len() == t0.subsystems@.len(),
        forall|j: int|
            0 <= j < t0.subsystems@.len() ==> (#[trigger] t1.subsystems@[j]).nqn
                == t0.subsystems@[j].nqn && t1.subsystems@[j].ns == t0.subsystems@[j].ns,
    ensures
        t1.wf(),
{
}

/// Removing one subsystem preserves the table invariant.
proof fn lemma_remove_preserves_wf(t0: Target, t1: Target, i: int)
    requires
        t0.wf(),
        0 <= i < t0.subsystems@.len(),
        t1.subsystems@ == t0.subsystems@.remove(i),
    ensures
        t1.wf(),
{
    assert forall|a: int, b: int|
        0 <= a < b < t1.subsystems@.len() implies (#[trigger] t1.subsystems@[a]).nqn@ != (
    #[trigger] t1.subsystems@[b]).nqn@ && (match (t1.subsystems@[a].ns, t1.subsystems@[b].ns) {
        (Some(x), Some(y)) => x.device_name@ != y.device_name@,
        _ => true,
    }) by {
        let a0 = if a < i {
            a
        } else {
            a + 1
        };
        let b0 = if b < i {
            b
        } else {
            b + 1
        };
        assert(t1.subsystems@[a] == t0.subsystems@[a0]);
        assert(t1.subsystems@[b] == t0.subsystems@[b0]);
    }
}

} // verus!
