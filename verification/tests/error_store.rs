use mayastor::err_store::{NexusErrStore, NexusErrStoreQuery};

const READ: u32 = NexusErrStore::IO_TYPE_READ;
const WRITE: u32 = NexusErrStore::IO_TYPE_WRITE;
const UNMAP: u32 = NexusErrStore::IO_TYPE_UNMAP;
const FAILED: i32 = NexusErrStore::IO_FAILED;

#[test]
fn ring_count_is_min_of_inserts_and_capacity() {
    let mut es = NexusErrStore::new(5);
    for i in 0..3u64 {
        es.add_record(READ, FAILED, i, 1, 100 + i);
    }
    assert_eq!(
        es.query(
            NexusErrStore::ALL_IO_FLAGS,
            NexusErrStore::IO_FAILED_FLAG,
            None,
            NexusErrStoreQuery::Total
        ),
        3
    );

    let mut es = NexusErrStore::new(5);
    for i in 0..9u64 {
        es.add_record(READ, FAILED, i, 1, 100 + i);
    }
    assert_eq!(
        es.query(
            NexusErrStore::ALL_IO_FLAGS,
            NexusErrStore::IO_FAILED_FLAG,
            None,
            NexusErrStoreQuery::Total
        ),
        5
    );
}

#[test]
fn ring_keeps_the_newest_records() {
    // capacity 2: after three inserts only the two newest (distinguished by
    // offset) remain
    let mut es = NexusErrStore::new(2);
    es.add_record(READ, FAILED, 0, 1, 100);
    es.add_record(UNMAP, FAILED, 1, 1, 101);
    es.add_record(WRITE, FAILED, 2, 1, 102);
    assert_eq!(
        es.query(
            NexusErrStore::READ_FLAG,
            NexusErrStore::IO_FAILED_FLAG,
            None,
            NexusErrStoreQuery::Total
        ),
        0
    );
    assert_eq!(
        es.query(
            NexusErrStore::UNMAP_FLAG | NexusErrStore::WRITE_FLAG,
            NexusErrStore::IO_FAILED_FLAG,
            None,
            NexusErrStoreQuery::Total
        ),
        2
    );
}

#[test]
fn attempt_number_counts_matching_records() {
    // identical I/O identity accumulates attempts; a different identity
    // starts at one
    let mut es = NexusErrStore::new(8);
    es.add_record(READ, FAILED, 0, 8, 100);
    es.add_record(WRITE, FAILED, 0, 8, 101);
    es.add_record(READ, FAILED, 0, 8, 102);
    assert_eq!(
        es.query(
            NexusErrStore::READ_FLAG,
            NexusErrStore::IO_FAILED_FLAG,
            None,
            NexusErrStoreQuery::MostAttempts
        ),
        2
    );
    assert_eq!(
        es.query(
            NexusErrStore::WRITE_FLAG,
            NexusErrStore::IO_FAILED_FLAG,
            None,
            NexusErrStoreQuery::MostAttempts
        ),
        1
    );
}

#[test]
fn attempt_accumulation_is_bounded_by_the_live_window() {
    // ten identical inserts into a ring of capacity four: the total is the
    // capacity, and the attempt count can only see the four live records, so
    // it tops out at five
    let mut es = NexusErrStore::new(4);
    for _ in 0..10 {
        es.add_record(READ, FAILED, 0, 8, 100);
    }
    assert_eq!(
        es.query(
            NexusErrStore::READ_FLAG,
            NexusErrStore::IO_FAILED_FLAG,
            None,
            NexusErrStoreQuery::Total
        ),
        4
    );
    assert_eq!(
        es.query(
            NexusErrStore::READ_FLAG,
            NexusErrStore::IO_FAILED_FLAG,
            None,
            NexusErrStoreQuery::MostAttempts
        ),
        5
    );
}

#[test]
fn query_age_bound_excludes_old_records() {
    // a record older than the bound is excluded, and the walk stops there
    let mut es = NexusErrStore::new(8);
    es.add_record(READ, FAILED, 0, 1, 100);
    assert_eq!(
        es.query(
            NexusErrStore::ALL_IO_FLAGS,
            NexusErrStore::IO_FAILED_FLAG,
            Some(150),
            NexusErrStoreQuery::Total
        ),
        0
    );
    es.add_record(READ, FAILED, 0, 1, 200);
    assert_eq!(
        es.query(
            NexusErrStore::ALL_IO_FLAGS,
            NexusErrStore::IO_FAILED_FLAG,
            Some(150),
            NexusErrStoreQuery::Total
        ),
        1
    );
}

#[test]
fn query_walk_stops_at_the_first_old_record() {
    // an old record hides everything older than itself, even records that
    // would pass the bound
    let mut es = NexusErrStore::new(8);
    es.add_record(READ, FAILED, 0, 1, 500);
    es.add_record(READ, FAILED, 1, 1, 100);
    es.add_record(READ, FAILED, 2, 1, 600);
    assert_eq!(
        es.query(
            NexusErrStore::ALL_IO_FLAGS,
            NexusErrStore::IO_FAILED_FLAG,
            Some(150),
            NexusErrStoreQuery::Total
        ),
        1
    );
}

#[test]
fn query_filters_by_operation_mask() {
    let mut es = NexusErrStore::new(8);
    es.add_record(READ, FAILED, 0, 1, 100);
    es.add_record(UNMAP, FAILED, 0, 1, 101);
    es.add_record(NexusErrStore::IO_TYPE_FLUSH, FAILED, 0, 1, 102);
    es.add_record(NexusErrStore::IO_TYPE_RESET, FAILED, 0, 1, 103);
    assert_eq!(
        es.query(
            NexusErrStore::READ_FLAG,
            NexusErrStore::IO_FAILED_FLAG,
            None,
            NexusErrStoreQuery::Total
        ),
        1
    );
    assert_eq!(
        es.query(
            NexusErrStore::UNMAP_FLAG | NexusErrStore::FLUSH_FLAG,
            NexusErrStore::IO_FAILED_FLAG,
            None,
            NexusErrStoreQuery::Total
        ),
        2
    );
    assert_eq!(
        es.query(
            NexusErrStore::ALL_IO_FLAGS,
            NexusErrStore::IO_FAILED_FLAG,
            None,
            NexusErrStoreQuery::Total
        ),
        4
    );
    // a status outside the status mask never counts
    assert_eq!(
        es.query(NexusErrStore::ALL_IO_FLAGS, 0, None, NexusErrStoreQuery::Total),
        0
    );
}

#[test]
fn query_ignores_unknown_operations() {
    let mut es = NexusErrStore::new(4);
    es.add_record(99, FAILED, 0, 1, 100);
    es.add_record(READ, 0, 0, 1, 101);
    assert_eq!(
        es.query(
            NexusErrStore::ALL_IO_FLAGS,
            NexusErrStore::IO_FAILED_FLAG,
            None,
            NexusErrStoreQuery::Total
        ),
        0
    );
}
