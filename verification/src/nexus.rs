//! The nexus model: an ordered set of backing children, each optionally
//! carrying an error ring, together with the child health assessor, the
//! child fault controller and the management-side record delivery.

use vstd::prelude::*;
use crate::err_store::{
    err_matches_mask,
    inserted_record,
    lemma_fresh_suffix_none,
    matching_count,
    max_attempts_selected,
    op_matches_mask,
    query_spec,
    record_selected,
    NexusChildErrorRecord,
    NexusErrStore,
    NexusErrStoreQuery,
};
use crate::strutil::str_eq;
use crate::ErrorMonitoringOptions;
use crate::lookup::{find_first, lemma_find_first};

verus! {

/// Lifecycle state of a child; only the transition into `Faulted` is driven
/// here.
#[derive(Clone, Copy, Debug, PartialEq, Eq, Structural)]
pub enum ChildState {
    Init,
    Open,
    Faulted,
}

/// Derived lifecycle state of a nexus.
#[derive(Clone, Copy, Debug, PartialEq, Eq, Structural)]
pub enum NexusState {
    Online,
    Degraded,
    Faulted,
}

/// A member backing device of a nexus. The child exclusively owns its error
/// ring.
pub struct NexusChild {
    pub name: String,
    /// Identity of the underlying device handle, as seen by the I/O path.
    pub device_id: u64,
    pub err_store: Option<NexusErrStore>,
    pub state: ChildState,
}

/// Container of an ordered set of children.
pub struct Nexus {
    pub name: String,
    pub children: Vec<NexusChild>,
}

/// Errors surfaced by nexus operations.
#[derive(Debug)]
pub enum NexusError {
    NexusNotFound { name: String },
    ChildMissing { child: String, name: String },
    ChildMissingErrStore { child: String, name: String },
    InvalidUuid { value: String },
    InvalidKey,
    InvalidShareProtocol { sp_value: i32 },
}

/// Protocols under which a nexus can be published.
#[derive(Clone, Copy, Debug, PartialEq, Eq, Structural)]
pub enum ShareProtocolNexus {
    NexusNbd,
    NexusNvmf,
    NexusIscsi,
}

/// The wire decoding of a share protocol.
pub open spec fn share_protocol_spec(value: i32) -> Option<ShareProtocolNexus> {
    if value == 0 {
        Some(ShareProtocolNexus::NexusNbd)
    } else if value == 1 {
        Some(ShareProtocolNexus::NexusNvmf)
    } else if value == 2 {
        Some(ShareProtocolNexus::NexusIscsi)
    } else {
        None
    }
}

/// What delivering one failure record to the management reactor did. Errors
/// on this path are never propagated to the I/O path; they are reported here
/// so the caller can count and log them.
#[derive(Clone, Copy, Debug, PartialEq, Eq, Structural)]
pub enum RecordOutcome {
    NexusNotFound,
    ChildNotFound,
    NoErrStore,
    Recorded { faulted: bool },
}

/// Predicate matching a child by name.
pub open spec fn child_named(name: Seq<char>) -> spec_fn(NexusChild) -> bool {
    |c: NexusChild| c.name@ == name
}

/// Predicate matching a child by device identity.
pub open spec fn child_with_device(device_id: u64) -> spec_fn(NexusChild) -> bool {
    |c: NexusChild| c.device_id == device_id
}

/// Predicate matching a nexus by name.
pub open spec fn nexus_named(name: Seq<char>) -> spec_fn(Nexus) -> bool {
    |n: Nexus| n.name@ == name
}

/// Does any child have the given state?
pub open spec fn has_child_state(children: Seq<NexusChild>, st: ChildState) -> bool {
    exists|i: int| 0 <= i < children.len() && (#[trigger] children[i]).state == st
}

/// The nexus state derived from its children: `Online` when no child is
/// faulted, `Degraded` when faulted and open children coexist, `Faulted`
/// when no child is open.
pub open spec fn nexus_status_spec(children: Seq<NexusChild>) -> NexusState {
    if !has_child_state(children, ChildState::Faulted) {
        NexusState::Online
    } else if has_child_state(children, ChildState::Open) {
        NexusState::Degraded
    } else {
        NexusState::Faulted
    }
}

/// The start of the age window that ends at `now`: `None` when the window
/// reaches past the start of the clock.
pub open spec fn earliest_timestamp(now: u64, age_ns: u64) -> Option<u64> {
    if age_ns > now {
        None
    } else {
        Some((now - age_ns) as u64)
    }
}

/// The assessor's verdict over a ring's live records: `true` means healthy.
/// A child is deemed faulted only when one and the same read or write I/O
/// has failed more often, within the age window, than the retry allowance.
pub open spec fn assess_verdict(
    live: Seq<NexusChildErrorRecord>,
    max_retry_errors: u32,
    max_error_age_ns: u64,
    now: u64,
) -> bool {
    query_spec(
        live,
        NexusErrStore::READ_FLAG | NexusErrStore::WRITE_FLAG,
        NexusErrStore::IO_FAILED_FLAG,
        earliest_timestamp(now, max_error_age_ns),
        NexusErrStoreQuery::MostAttempts,
    ) <= max_retry_errors
}

impl Nexus {
    /// All rings owned by children of this nexus are well formed.
    pub open spec fn wf(self) -> bool {
        forall|i: int|
            0 <= i < self.children@.len() ==> match (#[trigger] self.children@[i]).err_store {
                Some(es) => es.wf(),
                None => true,
            }
    }

    /// The derived nexus state.
    pub fn status(&self) -> (r: NexusState)
        ensures
            r == nexus_status_spec(self.children@),
    {
        let n = self.children.len();
        let mut any_faulted = false;
        let mut any_open = false;
        let mut i: usize = 0;
        while i < n
            invariant
                i <= n,
                n == self.children@.len(),
                any_faulted == has_child_state(self.children@.take(i as int), ChildState::Faulted),
                any_open == has_child_state(self.children@.take(i as int), ChildState::Open),
            decreases n - i,
        {
            let ghost pre = self.children@.take(i as int);
            match self.children[i].state {
                ChildState::Faulted => {
                    any_faulted = true;
                },
                ChildState::Open => {
                    any_open = true;
                },
                ChildState::Init => {},
            }
            proof {
                let post = self.children@.take(i + 1);
                assert(post.drop_last() =~= pre);
                assert(post.last() == self.children@[i as int]);
                assert forall|st: ChildState| has_child_state(post, st) == (has_child_state(
                    pre,
                    st,
                ) || self.children@[i as int].state == st) by {
                    if has_child_state(pre, st) {
                        let w = choose|w: int|
                            0 <= w < pre.len() && (#[trigger] pre[w]).state == st;
                        assert(post[w].state == st);
                    }
                    if self.children@[i as int].state == st {
                        assert(post[i as int].state == st);
                    }
                    if has_child_state(post, st) && !(self.children@[i as int].state == st) {
                        let w = choose|w: int|
                            0 <= w < post.len() && (#[trigger] post[w]).state == st;
                        assert(pre[w] == post[w]);
                    }
                }
            }
            i += 1;
        }
        proof {
            assert(self.children@.take(n as int) =~= self.children@);
        }
        if !any_faulted {
            NexusState::Online
        } else if any_open {
            NexusState::Degraded
        } else {
            NexusState::Faulted
        }
    }

    /// The active I/O dispatch set: the indices of the children that still
    /// receive I/O. A faulted child has left it.
    pub fn active_children(&self) -> (r: Vec<usize>)
        ensures
            forall|k: int|
                0 <= k < r@.len() ==> (#[trigger] r@[k]) < self.children@.len()
                    && self.children@[r@[k] as int].state == ChildState::Open,
            forall|j: int|
                0 <= j < self.children@.len() && (#[trigger] self.children@[j]).state
                    == ChildState::Open ==> r@.contains(j as usize),
    {
        let n = self.children.len();
        let mut r: Vec<usize> = Vec::new();
        let mut i: usize = 0;
        while i < n
            invariant
                i <= n,
                n == self.children@.len(),
                forall|k: int|
                    0 <= k < r@.len() ==> (#[trigger] r@[k]) < i
                        && self.children@[r@[k] as int].state == ChildState::Open,
                forall|j: int|
                    0 <= j < i && (#[trigger] self.children@[j]).state == ChildState::Open
                        ==> r@.contains(j as usize),
            decreases n - i,
        {
            let ghost r0 = r@;
            if matches!(self.children[i].state, ChildState::Open) {
                r.push(i);
                proof {
                    assert(r@.last() == i as usize);
                    assert forall|j: int|
                        0 <= j < i + 1 && (#[trigger] self.children@[j]).state
                            == ChildState::Open implies r@.contains(j as usize) by {
                        if j < i as int {
                            let w = choose|w: int| 0 <= w < r0.len() && r0[w] == j as usize;
                            assert(r@[w] == j as usize);
                        } else {
                            assert(r@[r@.len() - 1] == j as usize);
                        }
                    }
                }
            }
            i += 1;
        }
        r
    }

    /// Fault the first child with the given name: its state becomes `Faulted`
    /// (a no-op when it already is), everything else is untouched, and the
    /// re-derived nexus state is returned for the state-change event. The
    /// faulted child thereby leaves the active I/O dispatch set; returning it
    /// to service is the rebuild collaborator's concern.
    pub fn fault_child(&mut self, child_name: &str) -> (r: Result<NexusState, NexusError>)
        requires
            old(self).wf(),
        ensures
            final(self).wf(),
            final(self).name == old(self).name,
            ({
                let ci = find_first(old(self).children@, child_named(child_name@));
                if ci == -1 {
                    &&& final(self).children@ == old(self).children@
                    &&& r matches Err(NexusError::ChildMissing { child, name }) && child@
                        == child_name@ && name@ == old(self).name@
                } else {
                    &&& final(self).children@ == old(self).children@.update(
                        ci,
                        (NexusChild { state: ChildState::Faulted, ..old(self).children@[ci] }),
                    )
                    &&& r matches Ok(st) && st == nexus_status_spec(final(self).children@)
                }
            }),
    {
        let ghost p = child_named(child_name@);
        let n = self.children.len();
        let mut i: usize = 0;
        while i < n
            invariant
                i <= n,
                n == self.children@.len(),
                *self == *old(self),
                old(self).wf(),
                p == child_named(child_name@),
                forall|j: int| 0 <= j < i ==> !p(#[trigger] self.children@[j]),
            decreases n - i,
        {
            if str_eq(self.children[i].name.as_str(), child_name) {
                proof {
                    lemma_find_first(self.children@, p);
                    assert(p(self.children@[i as int]));
                    assert(find_first(self.children@, p) == i as int);
                }
                self.children[i].state = ChildState::Faulted;
                proof {
                    assert(find_first(old(self).children@, p) == i as int);
                    assert(self.children@ =~= old(self).children@.update(
                        i as int,
                        (NexusChild {
                            state: ChildState::Faulted,
                            ..old(self).children@[i as int]
                        }),
                    ));
                    assert forall|j: int| 0 <= j < self.children@.len() implies (match (
                    #[trigger] self.children@[j]).err_store {
                        Some(es) => es.wf(),
                        None => true,
                    }) by {
                        if j != i as int {
                            assert(self.children@[j] == old(self).children@[j]);
                        } else {
                            assert(self.children@[j].err_store == old(
                                self,
                            ).children@[j].err_store);
                        }
                    }
                }
                let st = self.status();
                return Ok(st);
            }
            proof {
                assert(!p(self.children@[i as int]));
            }
            i += 1;
        }
        proof {
            lemma_find_first(self.children@, p);
        }
        Err(NexusError::ChildMissing {
            child: child_name.to_owned(),
            name: self.name.clone(),
        })
    }

    /// The child health assessor: queries the child's ring for the most
    /// failed attempts of one read or write within the age window ending at
    /// `now`, and deems the child healthy (`true`) unless that count exceeds
    /// `max_retry_errors`. A child without a ring is a misconfiguration for
    /// the caller to log, and counts as healthy.
    pub fn assess_child(
        child: &NexusChild,
        max_retry_errors: u32,
        max_error_age_ns: u64,
        now: u64,
    ) -> (r: bool)
        requires
            child.err_store matches Some(es) ==> es.wf(),
        ensures
            r == (match child.err_store {
                Some(es) => assess_verdict(es.live(), max_retry_errors, max_error_age_ns, now),
                None => true,
            }),
    {
        let earliest_time: Option<u64> = if max_error_age_ns > now {
            None
        } else {
            Some(now - max_error_age_ns)
        };
        match child.err_store.as_ref() {
            Some(es) => es.query(
                NexusErrStore::READ_FLAG | NexusErrStore::WRITE_FLAG,
                NexusErrStore::IO_FAILED_FLAG,
                earliest_time,
                NexusErrStoreQuery::MostAttempts,
            ) <= max_retry_errors,
            None => true,
        }
    }

    /// Aggregate the error ring of the named child, windowed to the last
    /// `age_nano` nanoseconds before `now`. With the error store disabled the
    /// query reports nothing; a missing child or a child without a ring is an
    /// error.
    pub fn error_record_query(
        &self,
        child_name: &str,
        io_op_flags: u32,
        io_error_flags: u32,
        age_nano: Option<u64>,
        query_type: NexusErrStoreQuery,
        enable_err_store: bool,
        now: u64,
    ) -> (r: Result<Option<u32>, NexusError>)
        requires
            self.wf(),
        ensures
            ({
                let ci = find_first(self.children@, child_named(child_name@));
                if !enable_err_store {
                    r matches Ok(v) && v is None
                } else if ci == -1 {
                    r matches Err(NexusError::ChildMissing { child, name }) && child@
                        == child_name@ && name@ == self.name@
                } else if self.children@[ci].err_store is None {
                    r matches Err(NexusError::ChildMissingErrStore { child, name }) && child@
                        == child_name@ && name@ == self.name@
                } else {
                    r matches Ok(v) && v matches Some(cnt) && cnt as nat == query_spec(
                        self.children@[ci].err_store.unwrap().live(),
                        io_op_flags,
                        io_error_flags,
                        (match age_nano {
                            Some(a) => earliest_timestamp(now, a),
                            None => None,
                        }),
                        query_type,
                    )
                }
            }),
    {
        let earliest_time: Option<u64> = match age_nano {
            Some(a) => {
                if a > now {
                    None
                } else {
                    Some(now - a)
                }
            },
            None => None,
        };
        if !enable_err_store {
            return Ok(None);
        }
        let ghost p = child_named(child_name@);
        let n = self.children.len();
        let mut i: usize = 0;
        while i < n
            invariant
                i <= n,
                n == self.children@.len(),
                self.wf(),
                enable_err_store,
                p == child_named(child_name@),
                earliest_time == (match age_nano {
                    Some(a) => earliest_timestamp(now, a),
                    None => None::<u64>,
                }),
                forall|j: int| 0 <= j < i ==> !p(#[trigger] self.children@[j]),
            decreases n - i,
        {
            if str_eq(self.children[i].name.as_str(), child_name) {
                proof {
                    lemma_find_first(self.children@, p);
                    assert(p(self.children@[i as int]));
                    assert(find_first(self.children@, p) == i as int);
                }
                match self.children[i].err_store.as_ref() {
                    Some(es) => {
                        return Ok(
                            Some(es.query(io_op_flags, io_error_flags, earliest_time, query_type)),
                        );
                    },
                    None => {
                        return Err(NexusError::ChildMissingErrStore {
                            child: child_name.to_owned(),
                            name: self.name.clone(),
                        });
                    },
                }
            }
            proof {
                assert(!p(self.children@[i as int]));
            }
            i += 1;
        }
        proof {
            lemma_find_first(self.children@, p);
        }
        Err(NexusError::ChildMissing {
            child: child_name.to_owned(),
            name: self.name.clone(),
        })
    }
}

/// Index of the first nexus with the given name.
fn find_nexus_index(instances: &Vec<Nexus>, name: &str) -> (r: Option<usize>)
    ensures
        ({
            let f = find_first(instances@, nexus_named(name@));
            match r {
                Some(i) => f == i as int,
                None => f == -1,
            }
        }),
{
    let ghost p = nexus_named(name@);
    let n = instances.len();
    let mut i: usize = 0;
    while i < n
        invariant
            i <= n,
            n == instances@.len(),
            p == nexus_named(name@),
            forall|j: int| 0 <= j < i ==> !p(#[trigger] instances@[j]),
        decreases n - i,
    {
        if str_eq(instances[i].name.as_str(), name) {
            proof {
                lemma_find_first(instances@, p);
                assert(p(instances@[i as int]));
            }
            return Some(i);
        }
        proof {
            assert(!p(instances@[i as int]));
        }
        i += 1;
    }
    proof {
        lemma_find_first(instances@, p);
    }
    None
}

/// Index of the first child bound to the given device.
fn find_child_index_by_device(children: &Vec<NexusChild>, device_id: u64) -> (r: Option<usize>)
    ensures
        ({
            let f = find_first(children@, child_with_device(device_id));
            match r {
                Some(i) => f == i as int,
                None => f == -1,
            }
        }),
{
    let ghost p = child_with_device(device_id);
    let n = children.len();
    let mut i: usize = 0;
    while i < n
        invariant
            i <= n,
            n == children@.len(),
            p == child_with_device(device_id),
            forall|j: int| 0 <= j < i ==> !p(#[trigger] children@[j]),
        decreases n - i,
    {
        if children[i].device_id == device_id {
            proof {
                lemma_find_first(children@, p);
                assert(p(children@[i as int]));
            }
            return Some(i);
        }
        proof {
            assert(!p(children@[i as int]));
        }
        i += 1;
    }
    proof {
        lemma_find_first(children@, p);
    }
    None
}

/// Deliver one I/O failure to the management reactor's bookkeeping: look up
/// the nexus by name and the child by its device identity, append the record
/// to the child's ring with the timestamp taken at the source, and, when
/// configured, assess the child and fault it on an unhealthy verdict. Nothing
/// on this path is propagated to the I/O path; the outcome reports what
/// happened instead.
pub fn future_error_record_add(
    instances: &mut Vec<Nexus>,
    name: &str,
    device_id: u64,
    io_op_type: u32,
    io_error_type: i32,
    io_offset: u64,
    io_num_blocks: u64,
    now: u64,
    opts: &ErrorMonitoringOptions,
) -> (r: RecordOutcome)
    requires
        forall|i: int| 0 <= i < old(instances)@.len() ==> (#[trigger] old(instances)@[i]).wf(),
    ensures
        forall|i: int| 0 <= i < final(instances)@.len() ==> (#[trigger] final(instances)@[i]).wf(),
        final(instances)@.len() == old(instances)@.len(),
        ({
            let insts0 = old(instances)@;
            let ni = find_first(insts0, nexus_named(name@));
            if ni == -1 {
                r == RecordOutcome::NexusNotFound && final(instances)@ == insts0
            } else {
                let nx0 = insts0[ni];
                let ci = find_first(nx0.children@, child_with_device(device_id));
                &&& forall|j: int|
                    0 <= j < insts0.len() && j != ni ==> final(instances)@[j] == insts0[j]
                &&& if ci == -1 {
                    r == RecordOutcome::ChildNotFound && final(instances)@ == insts0
                } else if nx0.children@[ci].err_store is None {
                    r == RecordOutcome::NoErrStore && final(instances)@ == insts0
                } else {
                    let es0 = nx0.children@[ci].err_store.unwrap();
                    let nx1 = final(instances)@[ni];
                    let ch1 = nx1.children@[ci];
                    &&& nx1.name == nx0.name
                    &&& nx1.children@.len() == nx0.children@.len()
                    &&& forall|j: int|
                        0 <= j < nx0.children@.len() && j != ci ==> nx1.children@[j]
                            == nx0.children@[j]
                    &&& ch1.name == nx0.children@[ci].name
                    &&& ch1.device_id == nx0.children@[ci].device_id
                    &&& ch1.err_store matches Some(es1) && es1.wf() && es1.capacity()
                        == es0.capacity() && es1.history() == es0.history().push(
                        inserted_record(
                            es0.live(),
                            io_op_type,
                            io_error_type,
                            io_offset,
                            io_num_blocks,
                            now,
                        ),
                    )
                    &&& ({
                        let faulted = opts.fault_child_on_error && !assess_verdict(
                            ch1.err_store.unwrap().live(),
                            opts.max_retry_errors,
                            opts.max_error_age_ns,
                            now,
                        );
                        &&& r == (RecordOutcome::Recorded { faulted })
                        &&& ch1.state == if faulted {
                            ChildState::Faulted
                        } else {
                            nx0.children@[ci].state
                        }
                    })
                }
            }
        }),
{
    let ghost insts0 = instances@;
    let ni = match find_nexus_index(instances, name) {
        Some(i) => i,
        None => {
            return RecordOutcome::NexusNotFound;
        },
    };
    proof {
        lemma_find_first(instances@, nexus_named(name@));
    }
    let ci = match find_child_index_by_device(&instances[ni].children, device_id) {
        Some(i) => i,
        None => {
            return RecordOutcome::ChildNotFound;
        },
    };
    proof {
        lemma_find_first(instances@[ni as int].children@, child_with_device(device_id));
    }
    if instances[ni].children[ci].err_store.is_none() {
        return RecordOutcome::NoErrStore;
    }
    let mut nx = instances.remove(ni);
    let ghost nx0 = nx;
    let mut child = nx.children.remove(ci);
    let mut es = child.err_store.take().unwrap();
    es.add_record(io_op_type, io_error_type, io_offset, io_num_blocks, now);
    child.err_store = Some(es);
    let mut faulted = false;
    if opts.fault_child_on_error {
        if !Nexus::assess_child(&child, opts.max_retry_errors, opts.max_error_age_ns, now) {
            child.state = ChildState::Faulted;
            faulted = true;
        }
    }
    nx.children.insert(ci, child);
    instances.insert(ni, nx);
    proof {
        assert(instances@[ni as int].children@ =~= nx0.children@.update(
            ci as int,
            instances@[ni as int].children@[ci as int],
        ));
        assert(instances@ =~= insts0.update(ni as int, instances@[ni as int]));
    }
    RecordOutcome::Recorded { faulted }
}

/// The nexus name that publishes the given UUID.
pub open spec fn nexus_name_of(uuid: Seq<char>) -> Seq<char> {
    "nexus-"@ + uuid
}

/// Is `ch` a hexadecimal digit?
pub open spec fn is_hex_digit(ch: char) -> bool {
    ('0' <= ch && ch <= '9') || ('a' <= ch && ch <= 'f') || ('A' <= ch && ch <= 'F')
}

/// The canonical 8-4-4-4-12 UUID form: 36 characters, hyphens at positions
/// 8, 13, 18 and 23, hexadecimal digits everywhere else.
pub open spec fn is_uuid_canonical(s: Seq<char>) -> bool {
    &&& s.len() == 36
    &&& forall|i: int|
        #![trigger s[i]]
        0 <= i < 36 ==> if i == 8 || i == 13 || i == 18 || i == 23 {
            s[i] == '-'
        } else {
            is_hex_digit(s[i])
        }
}

/// Check a string for the canonical UUID form.
pub fn is_uuid_str(s: &str) -> (r: bool)
    ensures
        r == is_uuid_canonical(s@),
{
    let n = s.unicode_len();
    if n != 36 {
        return false;
    }
    let mut i: usize = 0;
    while i < 36
        invariant
            i <= 36,
            s@.len() == 36,
            forall|j: int|
                #![trigger s@[j]]
                0 <= j < i ==> if j == 8 || j == 13 || j == 18 || j == 23 {
                    s@[j] == '-'
                } else {
                    is_hex_digit(s@[j])
                },
        decreases 36 - i,
    {
        let ch = s.get_char(i);
        let ok = if i == 8 || i == 13 || i == 18 || i == 23 {
            ch == '-'
        } else {
            ('0' <= ch && ch <= '9') || ('a' <= ch && ch <= 'f') || ('A' <= ch && ch <= 'F')
        };
        if !ok {
            return false;
        }
        i += 1;
    }
    true
}

/// Derive the nexus name for a UUID; a malformed UUID is rejected.
pub fn uuid_to_name(uuid: &str) -> (r: Result<String, NexusError>)
    ensures
        r is Ok <==> is_uuid_canonical(uuid@),
        r matches Ok(s) ==> s@ == nexus_name_of(uuid@),
        r matches Err(e) ==> e matches NexusError::InvalidUuid { value } && value@ == uuid@,
{
    if is_uuid_str(uuid) {
        let mut s = "nexus-".to_owned();
        s.append(uuid);
        Ok(s)
    } else {
        Err(NexusError::InvalidUuid { value: uuid.to_owned() })
    }
}

/// Look up a nexus by the UUID it publishes. A malformed UUID or an absent
/// nexus is an error; otherwise the index of the first nexus whose name
/// derives from the UUID is returned.
pub fn nexus_lookup(instances: &Vec<Nexus>, uuid: &str) -> (r: Result<usize, NexusError>)
    ensures
        ({
            if !is_uuid_canonical(uuid@) {
                r matches Err(NexusError::InvalidUuid { value }) && value@ == uuid@
            } else {
                let ni = find_first(instances@, nexus_named(nexus_name_of(uuid@)));
                if ni == -1 {
                    r matches Err(NexusError::NexusNotFound { name }) && name@ == uuid@
                } else {
                    r matches Ok(i) && i as int == ni
                }
            }
        }),
{
    let name = match uuid_to_name(uuid) {
        Ok(n) => n,
        Err(e) => {
            return Err(e);
        },
    };
    match find_nexus_index(instances, name.as_str()) {
        Some(i) => Ok(i),
        None => Err(NexusError::NexusNotFound { name: uuid.to_owned() }),
    }
}

/// What publishing a nexus accepts of its key and protocol arguments: an
/// empty key means no key, any other key must be sixteen characters long,
/// and the protocol must decode; a bad key or protocol is rejected before
/// anything is looked up.
pub fn validate_publish_args(key: &str, share: i32) -> (r: Result<
    (Option<String>, ShareProtocolNexus),
    NexusError,
>)
    ensures
        ({
            if key@.len() != 0 && key@.len() != 16 {
                r matches Err(NexusError::InvalidKey)
            } else if share_protocol_spec(share) is None {
                r matches Err(NexusError::InvalidShareProtocol { sp_value }) && sp_value == share
            } else {
                r matches Ok((k, protocol)) && Some(protocol) == share_protocol_spec(share)
                    && (if key@.len() == 0 {
                    k is None
                } else {
                    k matches Some(s) && s@ == key@
                })
            }
        }),
{
    let key_len = key.unicode_len();
    if key_len != 0 && key_len != 16 {
        return Err(NexusError::InvalidKey);
    }
    let protocol = if share == 0 {
        ShareProtocolNexus::NexusNbd
    } else if share == 1 {
        ShareProtocolNexus::NexusNvmf
    } else if share == 2 {
        ShareProtocolNexus::NexusIscsi
    } else {
        return Err(NexusError::InvalidShareProtocol { sp_value: share });
    };
    let k = if key_len == 0 {
        None
    } else {
        Some(key.to_owned())
    };
    Ok((k, protocol))
}

/// A run of identical failed reads: the `i`-th record is the `i + 1`-st
/// failed attempt of one and the same read.
pub open spec fn uniform_read_failures(
    live: Seq<NexusChildErrorRecord>,
    io_offset: u64,
    io_num_blocks: u64,
) -> bool {
    forall|i: int|
        #![trigger live[i]]
        0 <= i < live.len() ==> {
            &&& live[i].io_op == NexusErrStore::IO_TYPE_READ
            &&& live[i].io_error == NexusErrStore::IO_FAILED
            &&& live[i].io_offset == io_offset
            &&& live[i].io_num_blocks == io_num_blocks
            &&& live[i].attempt_no == i + 1
        }
}

/// Failed reads and writes fall inside the assessor's masks.
proof fn lemma_rw_mask_facts()
    ensures
        op_matches_mask(
            NexusErrStore::IO_TYPE_READ,
            NexusErrStore::READ_FLAG | NexusErrStore::WRITE_FLAG,
        ),
        err_matches_mask(NexusErrStore::IO_FAILED, NexusErrStore::IO_FAILED_FLAG),
{
    assert((1u32 | 2u32) & 1u32 != 0) by (bit_vector);
    assert(1u32 & 1u32 != 0) by (bit_vector);
}

/// In a sequence where every record matches the identity, the match count is
/// the length.
proof fn lemma_matching_count_full(
    s: Seq<NexusChildErrorRecord>,
    io_op: u32,
    io_error: i32,
    io_offset: u64,
    io_num_blocks: u64,
)
    requires
        forall|i: int|
            0 <= i < s.len() ==> (#[trigger] s[i]).key_matches(
                io_op,
                io_error,
                io_offset,
                io_num_blocks,
            ),
    ensures
        matching_count(s, io_op, io_error, io_offset, io_num_blocks) == s.len(),
    decreases s.len(),
{
    if s.len() > 0 {
        assert forall|i: int| 0 <= i < s.drop_first().len() implies (#[trigger] s.drop_first()[i]).key_matches(
            io_op,
            io_error,
            io_offset,
            io_num_blocks,
        ) by {
            assert(s.drop_first()[i] == s[i + 1]);
        }
        lemma_matching_count_full(s.drop_first(), io_op, io_error, io_offset, io_num_blocks);
    }
}

/// Over a run of identical failed reads, the greatest attempt number within
/// the read-or-write failed masks is the run's length.
proof fn lemma_uniform_max_attempts(
    live: Seq<NexusChildErrorRecord>,
    io_offset: u64,
    io_num_blocks: u64,
)
    requires
        uniform_read_failures(live, io_offset, io_num_blocks),
    ensures
        max_attempts_selected(
            live,
            NexusErrStore::READ_FLAG | NexusErrStore::WRITE_FLAG,
            NexusErrStore::IO_FAILED_FLAG,
        ) == live.len(),
    decreases live.len(),
{
    if live.len() > 0 {
        assert forall|i: int| 0 <= i < live.drop_last().len() implies {
            &&& (#[trigger] live.drop_last()[i]).io_op == NexusErrStore::IO_TYPE_READ
            &&& live.drop_last()[i].io_error == NexusErrStore::IO_FAILED
            &&& live.drop_last()[i].io_offset == io_offset
            &&& live.drop_last()[i].io_num_blocks == io_num_blocks
            &&& live.drop_last()[i].attempt_no == i + 1
        } by {
            assert(live.drop_last()[i] == live[i]);
        }
        lemma_uniform_max_attempts(live.drop_last(), io_offset, io_num_blocks);
        lemma_rw_mask_facts();
        assert(record_selected(
            live.last(),
            NexusErrStore::READ_FLAG | NexusErrStore::WRITE_FLAG,
            NexusErrStore::IO_FAILED_FLAG,
        ));
    }
}

/// Extending a run: inserting the same failed read into a ring whose live
/// records form a run of `n` identical failed reads yields attempt number
/// `n + 1` and a run of `n + 1`.
pub proof fn lemma_uniform_insert(
    live: Seq<NexusChildErrorRecord>,
    io_offset: u64,
    io_num_blocks: u64,
    timestamp: u64,
)
    requires
        uniform_read_failures(live, io_offset, io_num_blocks),
        live.len() < u32::MAX,
    ensures
        ({
            let r = inserted_record(
                live,
                NexusErrStore::IO_TYPE_READ,
                NexusErrStore::IO_FAILED,
                io_offset,
                io_num_blocks,
                timestamp,
            );
            &&& r.attempt_no == live.len() + 1
            &&& uniform_read_failures(live.push(r), io_offset, io_num_blocks)
        }),
{
    assert forall|i: int| 0 <= i < live.len() implies (#[trigger] live[i]).key_matches(
        NexusErrStore::IO_TYPE_READ,
        NexusErrStore::IO_FAILED,
        io_offset,
        io_num_blocks,
    ) by {}
    lemma_matching_count_full(
        live,
        NexusErrStore::IO_TYPE_READ,
        NexusErrStore::IO_FAILED,
        io_offset,
        io_num_blocks,
    );
    let r = inserted_record(
        live,
        NexusErrStore::IO_TYPE_READ,
        NexusErrStore::IO_FAILED,
        io_offset,
        io_num_blocks,
        timestamp,
    );
    assert forall|i: int| 0 <= i < live.push(r).len() implies {
        &&& (#[trigger] live.push(r)[i]).io_op == NexusErrStore::IO_TYPE_READ
        &&& live.push(r)[i].io_error == NexusErrStore::IO_FAILED
        &&& live.push(r)[i].io_offset == io_offset
        &&& live.push(r)[i].io_num_blocks == io_num_blocks
        &&& live.push(r)[i].attempt_no == i + 1
    } by {
        if i < live.len() {
            assert(live.push(r)[i] == live[i]);
        }
    }
}

/// The fault boundary under repeated identical read failures, with
/// fault-on-error enabled and an age window covering the whole uptime: a
/// child whose ring holds a run of `n` identical failed reads is assessed
/// healthy exactly while `n` does not exceed the retry allowance. Combined
/// with the contract of [`future_error_record_add`] (which appends the
/// record of [`lemma_uniform_insert`] and faults the child exactly when the
/// assessor's verdict turns unhealthy), the delivery that brings the run to
/// `max_retry_errors + 1` records faults the child, and the child is still
/// open after `max_retry_errors` of them.
pub proof fn lemma_fault_boundary(
    live: Seq<NexusChildErrorRecord>,
    io_offset: u64,
    io_num_blocks: u64,
    max_retry_errors: u32,
    max_error_age_ns: u64,
    now: u64,
)
    requires
        uniform_read_failures(live, io_offset, io_num_blocks),
        max_error_age_ns > now,
    ensures
        assess_verdict(live, max_retry_errors, max_error_age_ns, now) <==> live.len()
            <= max_retry_errors,
{
    lemma_fresh_suffix_none(live);
    lemma_uniform_max_attempts(live, io_offset, io_num_blocks);
}

} // verus!
