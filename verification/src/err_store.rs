//! Fixed-capacity circular log of per-child I/O failure records.
//!
//! The ring supports insertion from the I/O path and aggregation queries.
//! Its abstract state is the full sequence of records ever inserted
//! (`history`); the concrete buffer always holds exactly the last
//! `min(history.len(), capacity)` of them, in insertion order.

use vstd::prelude::*;
use vstd::arithmetic::div_mod::{
    lemma_fundamental_div_mod,
    lemma_fundamental_div_mod_converse_mod,
    lemma_mod_division_less_than_divisor,
    lemma_mod_multiples_vanish,
};

verus! {

/// One I/O failure attributed to one child. Value-typed and immutable after
/// insertion.
#[derive(Clone, Copy)]
pub struct NexusChildErrorRecord {
    pub io_offset: u64,
    pub io_num_blocks: u64,
    /// Monotonic instant of the failure, in nanoseconds.
    pub timestamp: u64,
    pub io_error: i32,
    pub io_op: u32,
    /// 1-based count of consecutive prior records with the same
    /// `(io_op, io_error, io_offset, io_num_blocks)` identity, newest first.
    pub attempt_no: u32,
}

impl Default for NexusChildErrorRecord {
    fn default() -> (r: Self)
        ensures
            r.io_op == 0 && r.io_error == 0 && r.io_offset == 0,
            r.io_num_blocks == 0 && r.timestamp == 0 && r.attempt_no == 1,
    {
        Self {
            io_op: 0,
            io_error: 0,
            io_offset: 0,
            io_num_blocks: 0,
            timestamp: 0,
            attempt_no: 1,
        }
    }
}

impl NexusChildErrorRecord {
    /// The record identity used to attribute retries of the same logical I/O.
    pub open spec fn key_matches(
        self,
        io_op: u32,
        io_error: i32,
        io_offset: u64,
        io_num_blocks: u64,
    ) -> bool {
        &&& self.io_op == io_op
        &&& self.io_error == io_error
        &&& self.io_offset == io_offset
        &&& self.io_num_blocks == io_num_blocks
    }

    fn matches(
        &self,
        io_op: u32,
        io_error: i32,
        io_offset: u64,
        io_num_blocks: u64,
    ) -> (r: bool)
        ensures
            r == self.key_matches(io_op, io_error, io_offset, io_num_blocks),
    {
        self.io_op == io_op
            && self.io_error == io_error
            && self.io_offset == io_offset
            && self.io_num_blocks == io_num_blocks
    }
}

/// Aggregation mode for [`NexusErrStore::query`].
pub enum NexusErrStoreQuery {
    /// Count the selected records.
    Total,
    /// Return the greatest `attempt_no` among the selected records.
    MostAttempts,
}

/// Fixed-capacity sequence of [`NexusChildErrorRecord`] with a write cursor;
/// the oldest record is overwritten when the ring is full.
pub struct NexusErrStore {
    no_of_records: usize,
    next_record_index: usize,
    records: Vec<NexusChildErrorRecord>,
    history: Ghost<Seq<NexusChildErrorRecord>>,
}

/// Number of records in `s` whose identity matches the given one.
pub open spec fn matching_count(
    s: Seq<NexusChildErrorRecord>,
    io_op: u32,
    io_error: i32,
    io_offset: u64,
    io_num_blocks: u64,
) -> nat
    decreases s.len(),
{
    if s.len() == 0 {
        0
    } else {
        (if s[0].key_matches(io_op, io_error, io_offset, io_num_blocks) {
            1nat
        } else {
            0nat
        }) + matching_count(s.drop_first(), io_op, io_error, io_offset, io_num_blocks)
    }
}

/// The `attempt_no` that an insertion with the given identity receives, given
/// the live records before the insertion: one more than the number of live
/// records with the same identity.
pub open spec fn next_attempt_no(
    live: Seq<NexusChildErrorRecord>,
    io_op: u32,
    io_error: i32,
    io_offset: u64,
    io_num_blocks: u64,
) -> nat {
    1 + matching_count(live, io_op, io_error, io_offset, io_num_blocks)
}

/// The record built by an insertion with the given identity and timestamp on
/// a ring whose live records are `live`.
pub open spec fn inserted_record(
    live: Seq<NexusChildErrorRecord>,
    io_op: u32,
    io_error: i32,
    io_offset: u64,
    io_num_blocks: u64,
    timestamp: u64,
) -> NexusChildErrorRecord {
    NexusChildErrorRecord {
        io_op,
        io_error,
        io_offset,
        io_num_blocks,
        timestamp,
        attempt_no: next_attempt_no(live, io_op, io_error, io_offset, io_num_blocks) as u32,
    }
}

/// Does a record's operation fall in the operation bit mask?
pub open spec fn op_matches_mask(io_op: u32, io_op_flags: u32) -> bool {
    if io_op == NexusErrStore::IO_TYPE_READ {
        io_op_flags & NexusErrStore::READ_FLAG != 0
    } else if io_op == NexusErrStore::IO_TYPE_WRITE {
        io_op_flags & NexusErrStore::WRITE_FLAG != 0
    } else if io_op == NexusErrStore::IO_TYPE_UNMAP {
        io_op_flags & NexusErrStore::UNMAP_FLAG != 0
    } else if io_op == NexusErrStore::IO_TYPE_FLUSH {
        io_op_flags & NexusErrStore::FLUSH_FLAG != 0
    } else if io_op == NexusErrStore::IO_TYPE_RESET {
        io_op_flags & NexusErrStore::RESET_FLAG != 0
    } else {
        false
    }
}

/// Does a record's status fall in the status bit mask?
pub open spec fn err_matches_mask(io_error: i32, io_error_flags: u32) -> bool {
    if io_error == NexusErrStore::IO_FAILED {
        io_error_flags & NexusErrStore::IO_FAILED_FLAG != 0
    } else {
        false
    }
}

/// Is a record selected by both masks?
pub open spec fn record_selected(
    r: NexusChildErrorRecord,
    io_op_flags: u32,
    io_error_flags: u32,
) -> bool {
    op_matches_mask(r.io_op, io_op_flags) && err_matches_mask(r.io_error, io_error_flags)
}

/// Is a record recent enough for the age bound?
pub open spec fn record_fresh(r: NexusChildErrorRecord, since: Option<u64>) -> bool {
    match since {
        Some(t) => r.timestamp >= t,
        None => true,
    }
}

/// The suffix of `s` (insertion order) that a newest-to-oldest walk visits
/// before reaching a record older than `since`; with `since = None` the walk
/// visits everything.
pub open spec fn fresh_suffix(
    s: Seq<NexusChildErrorRecord>,
    since: Option<u64>,
) -> Seq<NexusChildErrorRecord>
    decreases s.len(),
{
    if s.len() == 0 {
        s
    } else if !record_fresh(s.last(), since) {
        Seq::empty()
    } else {
        fresh_suffix(s.drop_last(), since).push(s.last())
    }
}

/// Number of records in `s` selected by the masks.
pub open spec fn count_selected(
    s: Seq<NexusChildErrorRecord>,
    io_op_flags: u32,
    io_error_flags: u32,
) -> nat
    decreases s.len(),
{
    if s.len() == 0 {
        0
    } else {
        count_selected(s.drop_last(), io_op_flags, io_error_flags) + if record_selected(
            s.last(),
            io_op_flags,
            io_error_flags,
        ) {
            1nat
        } else {
            0nat
        }
    }
}

/// Greatest `attempt_no` among the records in `s` selected by the masks;
/// zero when none is selected.
pub open spec fn max_attempts_selected(
    s: Seq<NexusChildErrorRecord>,
    io_op_flags: u32,
    io_error_flags: u32,
) -> nat
    decreases s.len(),
{
    if s.len() == 0 {
        0
    } else {
        let rest = max_attempts_selected(s.drop_last(), io_op_flags, io_error_flags);
        if record_selected(s.last(), io_op_flags, io_error_flags) && s.last().attempt_no > rest {
            s.last().attempt_no as nat
        } else {
            rest
        }
    }
}

/// What [`NexusErrStore::query`] returns, as a function of the live records.
pub open spec fn query_spec(
    live: Seq<NexusChildErrorRecord>,
    io_op_flags: u32,
    io_error_flags: u32,
    target_timestamp: Option<u64>,
    query_type: NexusErrStoreQuery,
) -> nat {
    match query_type {
        NexusErrStoreQuery::Total => count_selected(
            fresh_suffix(live, target_timestamp),
            io_op_flags,
            io_error_flags,
        ),
        NexusErrStoreQuery::MostAttempts => max_attempts_selected(
            fresh_suffix(live, target_timestamp),
            io_op_flags,
            io_error_flags,
        ),
    }
}

impl NexusErrStore {
    pub const IO_TYPE_READ: u32 = 1;
    pub const IO_TYPE_WRITE: u32 = 2;
    pub const IO_TYPE_UNMAP: u32 = 3;
    pub const IO_TYPE_FLUSH: u32 = 4;
    pub const IO_TYPE_RESET: u32 = 5;

    pub const IO_FAILED: i32 = -1;

    pub const READ_FLAG: u32 = 1;
    pub const WRITE_FLAG: u32 = 2;
    pub const UNMAP_FLAG: u32 = 4;
    pub const FLUSH_FLAG: u32 = 8;
    pub const RESET_FLAG: u32 = 16;

    pub const IO_FAILED_FLAG: u32 = 1;

    pub const ALL_IO_FLAGS: u32 = 0xffff_ffff;

    /// Largest accepted capacity: keeps `attempt_no` (at most one more than
    /// the capacity) within `u32`.
    pub const MAX_CAPACITY: usize = 0xffff_fffe;

    /// Every record ever inserted, in insertion order.
    pub closed spec fn history(self) -> Seq<NexusChildErrorRecord> {
        self.history@
    }

    /// Number of live records.
    pub closed spec fn count(self) -> nat {
        self.no_of_records as nat
    }

    /// Fixed capacity of the ring.
    pub closed spec fn capacity(self) -> nat {
        self.records@.len()
    }

    /// Buffer slot holding the `i`-th live record (oldest first).
    closed spec fn slot_of(self, i: int) -> int {
        (self.next_record_index - self.no_of_records + i) % (self.records@.len() as int)
    }

    /// The live records, oldest first.
    pub closed spec fn live(self) -> Seq<NexusChildErrorRecord> {
        Seq::new(self.count(), |i: int| self.records@[self.slot_of(i)])
    }

    /// Structural invariant of the ring.
    pub closed spec fn wf(self) -> bool {
        let c = self.records@.len() as int;
        &&& 1 <= c <= Self::MAX_CAPACITY
        &&& self.no_of_records <= self.records@.len()
        &&& self.next_record_index < self.records@.len()
        &&& self.no_of_records as int == vstd::math::min(self.history@.len() as int, c)
        &&& self.next_record_index as int == (self.history@.len() as int) % c
        &&& self.live() == self.history@.subrange(
            self.history@.len() - self.no_of_records,
            self.history@.len() as int,
        )
    }

    /// The ring keeps exactly the last `min(inserted, capacity)` records, in
    /// insertion order; a newest-to-oldest walk therefore visits the last
    /// `min(inserted, capacity)` insertions in reverse insertion order.
    pub proof fn lemma_ring_contents(self)
        requires
            self.wf(),
        ensures
            self.count() == vstd::math::min(self.history().len() as int, self.capacity() as int),
            self.live() == self.history().subrange(
                self.history().len() - self.count(),
                self.history().len() as int,
            ),
            forall|k: int|
                0 <= k < self.count() ==> #[trigger] self.live()[self.count() - 1 - k]
                    == self.history()[self.history().len() - 1 - k],
    {
        assert forall|k: int| 0 <= k < self.count() implies #[trigger] self.live()[self.count() - 1
            - k] == self.history()[self.history().len() - 1 - k] by {
            assert(self.live()[self.count() - 1 - k] == self.history@.subrange(
                self.history@.len() - self.no_of_records,
                self.history@.len() as int,
            )[self.count() - 1 - k]);
        }
    }

    /// Make a ring that can hold `max_records` records. A capacity of zero is
    /// rejected at construction, so the bound is part of the precondition.
    pub fn new(max_records: usize) -> (r: Self)
        requires
            1 <= max_records <= Self::MAX_CAPACITY,
        ensures
            r.wf(),
            r.capacity() == max_records,
            r.history() == Seq::<NexusChildErrorRecord>::empty(),
    {
        let mut records: Vec<NexusChildErrorRecord> = Vec::new();
        let er: NexusChildErrorRecord = Default::default();
        let mut i: usize = 0;
        while i < max_records
            invariant
                i <= max_records,
                records@.len() == i,
            decreases max_records - i,
        {
            records.push(er);
            i += 1;
        }
        let es = NexusErrStore {
            no_of_records: 0,
            next_record_index: 0,
            records,
            history: Ghost(Seq::empty()),
        };
        proof {
            lemma_small_mod_int(0, max_records as int);
            assert(es.live() =~= es.history@.subrange(0, 0));
        }
        es
    }

    /// Append a record with the given identity and timestamp, overwriting the
    /// oldest record if the ring is full. The new record's `attempt_no` is one
    /// more than the length of the newest-first run of live records with the
    /// same identity.
    pub fn add_record(
        &mut self,
        io_op: u32,
        io_error: i32,
        io_offset: u64,
        io_num_blocks: u64,
        timestamp: u64,
    )
        requires
            old(self).wf(),
        ensures
            final(self).wf(),
            final(self).capacity() == old(self).capacity(),
            final(self).history() == old(self).history().push(
                inserted_record(
                    old(self).live(),
                    io_op,
                    io_error,
                    io_offset,
                    io_num_blocks,
                    timestamp,
                ),
            ),
    {
        let cap = self.records.len();
        let ghost c = cap as int;
        let ghost live0 = self.live();
        let ghost h0 = self.history@;
        let ghost count0 = self.no_of_records as int;
        let ghost next0 = self.next_record_index as int;

        // Identify previous failed attempts of this same I/O, walking the
        // live records newest to oldest.
        let mut idx = self.next_record_index;
        let mut attempt_no: u32 = 1;
        let mut k: usize = 0;
        proof {
            lemma_small_mod_int(next0, c);
            assert(live0.skip(count0) =~= Seq::<NexusChildErrorRecord>::empty());
        }
        while k < self.no_of_records
            invariant
                self.wf(),
                live0 == self.live(),
                h0 == self.history@,
                count0 == self.no_of_records as int,
                next0 == self.next_record_index as int,
                cap == self.records@.len(),
                c == cap as int,
                k <= count0,
                attempt_no as int == 1 + matching_count(
                    live0.skip(count0 - k),
                    io_op,
                    io_error,
                    io_offset,
                    io_num_blocks,
                ),
                attempt_no as int <= 1 + k,
                idx as int == (next0 - k) % c,
            decreases count0 - k,
        {
            proof {
                lemma_mod_step_down(next0 - k, c);
            }
            if idx > 0 {
                idx -= 1;
            } else {
                idx = cap - 1;
            }
            proof {
                assert(idx as int == (next0 - k - 1) % c);
                lemma_congruent_mod(next0 - count0 + (count0 - 1 - k), next0 - k - 1, 0, c);
                assert(self.slot_of(count0 - 1 - k) == idx as int);
                assert(live0[count0 - 1 - k] == self.records@[idx as int]);
                assert(live0.skip(count0 - k - 1).drop_first() =~= live0.skip(count0 - k));
                assert(live0.skip(count0 - k - 1)[0] == live0[count0 - k - 1]);
            }
            if self.records[idx].matches(io_op, io_error, io_offset, io_num_blocks) {
                attempt_no += 1;
            }
            k += 1;
        }
        proof {
            assert(live0.skip(0) =~= live0);
        }

        let new_record = NexusChildErrorRecord {
            io_op,
            io_error,
            io_offset,
            io_num_blocks,
            timestamp,
            attempt_no,
        };
        let write_pos = self.next_record_index;
        self.records[write_pos] = new_record;
        if self.no_of_records < cap {
            self.no_of_records += 1;
        }
        self.next_record_index = (self.next_record_index + 1) % cap;
        proof {
            self.history@ = h0.push(new_record);
        }

        proof {
            let h1 = self.history@;
            let count1 = self.no_of_records as int;
            let next1 = self.next_record_index as int;
            assert(new_record == inserted_record(
                live0,
                io_op,
                io_error,
                io_offset,
                io_num_blocks,
                timestamp,
            ));
            lemma_fundamental_div_mod(h0.len() as int, c);
            let q = h0.len() as int / c;
            assert(q * c == c * q) by (nonlinear_arith);
            if next0 + 1 < c {
                lemma_fundamental_div_mod_converse_mod(h0.len() as int + 1, c, q, next0 + 1);
                lemma_small_mod_int(next0 + 1, c);
            } else {
                assert((q + 1) * c == c * q + c) by (nonlinear_arith);
                lemma_fundamental_div_mod_converse_mod(h0.len() as int + 1, c, q + 1, 0);
                assert(1 * c == c) by (nonlinear_arith);
                lemma_fundamental_div_mod_converse_mod(next0 + 1, c, 1, 0);
            }
            assert(next1 == (h1.len() as int) % c);

            assert forall|i: int| 0 <= i < count1 implies self.live()[i] == h1[h1.len() - count1
                + i] by {
                if i == count1 - 1 {
                    lemma_congruent_mod(next1 - 1, next0, if next1 == 0 { -1 } else { 0 }, c);
                    lemma_small_mod_int(next0, c);
                    assert(self.slot_of(i) == next0);
                    assert(self.live()[i] == new_record);
                } else {
                    let j = count0 + 1 - count1 + i;
                    lemma_congruent_mod(
                        next1 - count1 + i,
                        next0 - count0 + j,
                        if next0 + 1 < c { 0 } else { -1 },
                        c,
                    );
                    assert(self.slot_of(i) == (next0 - count0 + j) % c);
                    lemma_mod_division_less_than_divisor(next0 - count0 + j, c);
                    if (next0 - count0 + j) % c == next0 {
                        lemma_congruent_same_window(next0 - count0 + j, next0, c);
                        assert(false);
                    }
                    assert(self.records@[self.slot_of(i)] == live0[j]);
                    assert(live0[j] == h0[h0.len() - count0 + j]);
                    assert(self.live()[i] == h1[h1.len() - count1 + i]);
                }
            }
            assert(self.live() =~= h1.subrange(h1.len() - count1, h1.len() as int));
        }
    }

    /// Walk the live records newest to oldest, stopping at the first record
    /// older than `target_timestamp`, and aggregate the records selected by
    /// the two bit masks according to `query_type`.
    pub fn query(
        &self,
        io_op_flags: u32,
        io_error_flags: u32,
        target_timestamp: Option<u64>,
        query_type: NexusErrStoreQuery,
    ) -> (r: u32)
        requires
            self.wf(),
        ensures
            r as nat == query_spec(
                self.live(),
                io_op_flags,
                io_error_flags,
                target_timestamp,
                query_type,
            ),
    {
        let cap = self.records.len();
        let ghost c = cap as int;
        let ghost live0 = self.live();
        let ghost count0 = self.no_of_records as int;
        let ghost next0 = self.next_record_index as int;

        let mut idx = self.next_record_index;
        let mut error_count: u32 = 0;
        let mut k: usize = 0;
        proof {
            lemma_small_mod_int(next0, c);
            assert(live0.skip(count0) =~= Seq::<NexusChildErrorRecord>::empty());
        }
        loop
            invariant_except_break
                self.wf(),
                live0 == self.live(),
                count0 == self.no_of_records as int,
                next0 == self.next_record_index as int,
                cap == self.records@.len(),
                c == cap as int,
                k <= count0,
                idx as int == (next0 - k) % c,
                error_count as nat == (match query_type {
                    NexusErrStoreQuery::Total => count_selected(
                        live0.skip(count0 - k),
                        io_op_flags,
                        io_error_flags,
                    ),
                    NexusErrStoreQuery::MostAttempts => max_attempts_selected(
                        live0.skip(count0 - k),
                        io_op_flags,
                        io_error_flags,
                    ),
                }),
                forall|j: int| count0 - k <= j < count0 ==> record_fresh(live0[j], target_timestamp),
            ensures
                error_count as nat == query_spec(
                    live0,
                    io_op_flags,
                    io_error_flags,
                    target_timestamp,
                    query_type,
                ),
            decreases count0 - k,
        {
            if k >= self.no_of_records {
                proof {
                    assert(live0.skip(0) =~= live0);
                    lemma_fresh_full(live0, 0, io_op_flags, io_error_flags, target_timestamp);
                    assert(live0.take(0) =~= Seq::<NexusChildErrorRecord>::empty());
                }
                break;
            }
            proof {
                lemma_mod_step_down(next0 - k, c);
            }
            if idx > 0 {
                idx -= 1;
            } else {
                idx = cap - 1;
            }
            proof {
                assert(idx as int == (next0 - k - 1) % c);
                lemma_congruent_mod(next0 - count0 + (count0 - 1 - k), next0 - k - 1, 0, c);
                assert(self.slot_of(count0 - 1 - k) == idx as int);
                assert(live0[count0 - 1 - k] == self.records@[idx as int]);
            }
            let rec = self.records[idx];
            let is_old = match target_timestamp {
                Some(t) => rec.timestamp < t,
                None => false,
            };
            if is_old {
                // reached a record older than the wanted timespan
                proof {
                    lemma_query_stops_early(live0, count0 - k, target_timestamp);
                }
                break;
            }
            let found_op = if rec.io_op == Self::IO_TYPE_READ {
                (io_op_flags & Self::READ_FLAG) != 0
            } else if rec.io_op == Self::IO_TYPE_WRITE {
                (io_op_flags & Self::WRITE_FLAG) != 0
            } else if rec.io_op == Self::IO_TYPE_UNMAP {
                (io_op_flags & Self::UNMAP_FLAG) != 0
            } else if rec.io_op == Self::IO_TYPE_FLUSH {
                (io_op_flags & Self::FLUSH_FLAG) != 0
            } else if rec.io_op == Self::IO_TYPE_RESET {
                (io_op_flags & Self::RESET_FLAG) != 0
            } else {
                false
            };
            let found_err = if rec.io_error == Self::IO_FAILED {
                (io_error_flags & Self::IO_FAILED_FLAG) != 0
            } else {
                false
            };
            proof {
                lemma_skip_split_first(live0, count0 - k - 1);
                lemma_selected_insert_front(
                    live0.skip(count0 - k),
                    live0[count0 - k - 1],
                    io_op_flags,
                    io_error_flags,
                );
                lemma_count_selected_le_len(
                    live0.skip(count0 - k),
                    io_op_flags,
                    io_error_flags,
                );
            }
            if found_op && found_err {
                match query_type {
                    NexusErrStoreQuery::MostAttempts => {
                        if error_count < rec.attempt_no {
                            error_count = rec.attempt_no;
                        }
                    },
                    NexusErrStoreQuery::Total => {
                        error_count += 1;
                    },
                }
            }
            k += 1;
        }
        error_count
    }
}

/// With no age bound the newest-to-oldest walk visits every record.
pub proof fn lemma_fresh_suffix_none(s: Seq<NexusChildErrorRecord>)
    ensures
        fresh_suffix(s, None::<u64>) == s,
    decreases s.len(),
{
    if s.len() > 0 {
        lemma_fresh_suffix_none(s.drop_last());
        assert(s.drop_last().push(s.last()) =~= s);
    }
}

/// An unwindowed total counts exactly the live records selected by the two
/// masks.
pub proof fn lemma_query_total_unwindowed(
    live: Seq<NexusChildErrorRecord>,
    io_op_flags: u32,
    io_error_flags: u32,
)
    ensures
        query_spec(live, io_op_flags, io_error_flags, None::<u64>, NexusErrStoreQuery::Total)
            == count_selected(live, io_op_flags, io_error_flags),
{
    lemma_fresh_suffix_none(live);
}

/// When the ring still has room, the live view after an insertion is the old
/// live view with the new record appended.
pub proof fn lemma_live_after_insert(
    es0: NexusErrStore,
    es1: NexusErrStore,
    rec: NexusChildErrorRecord,
)
    requires
        es0.wf(),
        es1.wf(),
        es1.capacity() == es0.capacity(),
        es0.history().len() < es0.capacity(),
        es1.history() == es0.history().push(rec),
    ensures
        es1.live() == es0.live().push(rec),
{
    es0.lemma_ring_contents();
    es1.lemma_ring_contents();
    assert(es0.live() =~= es0.history());
    assert(es1.live() =~= es1.history());
}

/// Splitting the elements of `s` from position `n` on at the first one.
proof fn lemma_skip_split_first(s: Seq<NexusChildErrorRecord>, n: int)
    requires
        0 <= n < s.len(),
    ensures
        s.skip(n) =~= s.skip(n + 1).insert(0, s[n]),
{
}

/// Putting one record in front of `s` adds its contribution to the
/// aggregates over `s`.
proof fn lemma_selected_insert_front(
    s: Seq<NexusChildErrorRecord>,
    r: NexusChildErrorRecord,
    io_op_flags: u32,
    io_error_flags: u32,
)
    ensures
        count_selected(s.insert(0, r), io_op_flags, io_error_flags) == count_selected(
            s,
            io_op_flags,
            io_error_flags,
        ) + if record_selected(r, io_op_flags, io_error_flags) {
            1nat
        } else {
            0nat
        },
        max_attempts_selected(s.insert(0, r), io_op_flags, io_error_flags) == vstd::math::max(
            max_attempts_selected(s, io_op_flags, io_error_flags) as int,
            if record_selected(r, io_op_flags, io_error_flags) {
                r.attempt_no as int
            } else {
                0
            },
        ),
    decreases s.len(),
{
    let t = s.insert(0, r);
    if s.len() == 0 {
        assert(t.drop_last() =~= s);
        assert(t.last() == r);
    } else {
        lemma_selected_insert_front(s.drop_last(), r, io_op_flags, io_error_flags);
        assert(t.drop_last() =~= s.drop_last().insert(0, r));
        assert(t.last() == s.last());
    }
}

/// The count of selected records never exceeds the number of records.
proof fn lemma_count_selected_le_len(
    s: Seq<NexusChildErrorRecord>,
    io_op_flags: u32,
    io_error_flags: u32,
)
    ensures
        count_selected(s, io_op_flags, io_error_flags) <= s.len(),
    decreases s.len(),
{
    if s.len() > 0 {
        lemma_count_selected_le_len(s.drop_last(), io_op_flags, io_error_flags);
    }
}

/// When the record at position `n - 1` is older than the bound and everything
/// newer is within it, the walked window is exactly the records from `n` on.
proof fn lemma_query_stops_early(s: Seq<NexusChildErrorRecord>, n: int, since: Option<u64>)
    requires
        0 < n <= s.len(),
        !record_fresh(s[n - 1], since),
        forall|j: int| n <= j < s.len() ==> record_fresh(s[j], since),
    ensures
        fresh_suffix(s, since) =~= s.skip(n),
    decreases s.len() - n,
{
    if n == s.len() {
        assert(s.last() == s[n - 1]);
        assert(s.skip(n) =~= Seq::<NexusChildErrorRecord>::empty());
    } else {
        lemma_query_stops_early(s.drop_last(), n, since);
        assert(s.drop_last().skip(n).push(s.last()) =~= s.skip(n));
    }
}

/// When every record from position `n` on is within the age bound, aggregating
/// over the walked window splits at `n`.
proof fn lemma_fresh_full(
    s: Seq<NexusChildErrorRecord>,
    n: int,
    io_op_flags: u32,
    io_error_flags: u32,
    since: Option<u64>,
)
    requires
        0 <= n <= s.len(),
        forall|j: int| n <= j < s.len() ==> record_fresh(s[j], since),
    ensures
        count_selected(fresh_suffix(s, since), io_op_flags, io_error_flags) == count_selected(
            fresh_suffix(s.take(n), since),
            io_op_flags,
            io_error_flags,
        ) + count_selected(s.skip(n), io_op_flags, io_error_flags),
        max_attempts_selected(fresh_suffix(s, since), io_op_flags, io_error_flags)
            == vstd::math::max(
            max_attempts_selected(fresh_suffix(s.take(n), since), io_op_flags, io_error_flags)
                as int,
            max_attempts_selected(s.skip(n), io_op_flags, io_error_flags) as int,
        ),
    decreases s.len() - n,
{
    if n == s.len() {
        assert(s.take(n) =~= s);
        assert(s.skip(n) =~= Seq::<NexusChildErrorRecord>::empty());
    } else {
        lemma_fresh_full(s.drop_last(), n, io_op_flags, io_error_flags, since);
        assert(s.drop_last().take(n) =~= s.take(n));
        assert(s.drop_last().skip(n) =~= s.skip(n).drop_last());
        assert(s.skip(n).last() == s.last());
        assert(fresh_suffix(s, since) == fresh_suffix(s.drop_last(), since).push(s.last()));
        assert(fresh_suffix(s.drop_last(), since).push(s.last()).drop_last() =~= fresh_suffix(
            s.drop_last(),
            since,
        ));
    }
}

/// Euclidean remainder after subtracting one: it steps down by one and wraps
/// from zero to `c - 1`.
proof fn lemma_mod_step_down(m: int, c: int)
    requires
        c > 0,
    ensures
        0 <= m % c < c,
        (m - 1) % c == if m % c > 0 {
            m % c - 1
        } else {
            c - 1
        },
{
    lemma_mod_division_less_than_divisor(m, c);
    lemma_fundamental_div_mod(m, c);
    if m % c > 0 {
        assert((m / c) * c == c * (m / c)) by (nonlinear_arith);
        lemma_fundamental_div_mod_converse_mod(m - 1, c, m / c, m % c - 1);
    } else {
        assert((m / c - 1) * c == c * (m / c) - c) by (nonlinear_arith);
        lemma_fundamental_div_mod_converse_mod(m - 1, c, m / c - 1, c - 1);
    }
}

/// A value already in `[0, c)` is its own remainder.
proof fn lemma_small_mod_int(m: int, c: int)
    requires
        0 <= m < c,
    ensures
        m % c == m,
{
    assert(0 * c == 0) by (nonlinear_arith);
    lemma_fundamental_div_mod_converse_mod(m, c, 0, m);
}

/// Values that differ by a multiple of `c` have the same remainder.
proof fn lemma_congruent_mod(x: int, y: int, t: int, c: int)
    requires
        c > 0,
        x == y + t * c,
    ensures
        x % c == y % c,
{
    lemma_mod_multiples_vanish(t, y, c);
    assert(c * t == t * c) by (nonlinear_arith);
}

/// Within a window narrower than `c`, congruence modulo `c` is equality.
proof fn lemma_congruent_same_window(x: int, y: int, c: int)
    requires
        c > 0,
        y - c < x <= y,
        x % c == y % c,
        0 <= y < c,
    ensures
        x == y,
{
    if x != y {
        if 0 <= x {
            lemma_small_mod_int(x, c);
            lemma_small_mod_int(y, c);
        } else {
            assert((-1) * c == -c) by (nonlinear_arith);
            lemma_fundamental_div_mod_converse_mod(x, c, -1, x + c);
            lemma_small_mod_int(y, c);
        }
    }
}

} // verus!
