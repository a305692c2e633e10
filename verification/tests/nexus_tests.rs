use mayastor::err_store::{NexusErrStore, NexusErrStoreQuery};
use mayastor::nexus::{
    future_error_record_add, nexus_lookup, uuid_to_name, validate_publish_args, ChildState,
    Nexus, NexusChild, NexusError, NexusState, RecordOutcome, ShareProtocolNexus,
};
use mayastor::ErrorMonitoringOptions;

const READ: u32 = NexusErrStore::IO_TYPE_READ;
const WRITE: u32 = NexusErrStore::IO_TYPE_WRITE;
const FAILED: i32 = NexusErrStore::IO_FAILED;

fn opts(fault: bool, max_retry: u32, age: u64) -> ErrorMonitoringOptions {
    ErrorMonitoringOptions {
        enable_err_store: true,
        err_store_size: 256,
        fault_child_on_error: fault,
        max_retry_errors: max_retry,
        max_error_age_ns: age,
    }
}

fn child(name: &str, device_id: u64, store: bool) -> NexusChild {
    NexusChild {
        name: name.to_string(),
        device_id,
        err_store: if store { Some(NexusErrStore::new(256)) } else { None },
        state: ChildState::Open,
    }
}

fn two_child_nexus() -> Nexus {
    Nexus {
        name: "error_fault_child_test_nexus".to_string(),
        children: vec![child("good", 1, true), child("flaky", 2, true)],
    }
}

#[test]
fn nexus_fault_child_test() {
    // a two-child nexus under error monitoring with a retry allowance of 4:
    // three rounds of one failed read and one failed write each, then two
    // more failed reads; the fifth failed read of the same I/O trips the
    // assessor and the nexus degrades, with the healthy child untouched
    let o = opts(true, 4, 1_000_000_000);
    let mut instances = vec![two_child_nexus()];
    let mut now: u64 = 0;
    for _ in 0..3 {
        now += 10;
        let r = future_error_record_add(
            &mut instances,
            "error_fault_child_test_nexus",
            2,
            READ,
            FAILED,
            0,
            1,
            now,
            &o,
        );
        assert_eq!(r, RecordOutcome::Recorded { faulted: false });
        let r = future_error_record_add(
            &mut instances,
            "error_fault_child_test_nexus",
            2,
            WRITE,
            FAILED,
            0,
            1,
            now,
            &o,
        );
        assert_eq!(r, RecordOutcome::Recorded { faulted: false });
        assert_eq!(instances[0].status(), NexusState::Online);
    }
    now += 10;
    let r = future_error_record_add(
        &mut instances,
        "error_fault_child_test_nexus",
        2,
        READ,
        FAILED,
        0,
        1,
        now,
        &o,
    );
    assert_eq!(r, RecordOutcome::Recorded { faulted: false });
    assert_eq!(instances[0].status(), NexusState::Online);

    now += 10;
    let r = future_error_record_add(
        &mut instances,
        "error_fault_child_test_nexus",
        2,
        READ,
        FAILED,
        0,
        1,
        now,
        &o,
    );
    assert_eq!(r, RecordOutcome::Recorded { faulted: true });
    assert_eq!(instances[0].status(), NexusState::Degraded);
    assert_eq!(instances[0].children[0].state, ChildState::Open);
    assert_eq!(instances[0].children[1].state, ChildState::Faulted);
}

#[test]
fn fault_needs_the_same_io_to_repeat() {
    // five failures at five different offsets are a storm of distinct
    // failures: no single I/O exceeded the allowance, the child stays open
    let o = opts(true, 4, u64::MAX);
    let mut instances = vec![two_child_nexus()];
    for i in 0..5u64 {
        let r = future_error_record_add(
            &mut instances,
            "error_fault_child_test_nexus",
            2,
            READ,
            FAILED,
            i,
            1,
            10 + i,
            &o,
        );
        assert_eq!(r, RecordOutcome::Recorded { faulted: false });
    }
    assert_eq!(instances[0].status(), NexusState::Online);
}

#[test]
fn fault_disabled_only_records() {
    let o = opts(false, 0, u64::MAX);
    let mut instances = vec![two_child_nexus()];
    for i in 0..4u64 {
        let r = future_error_record_add(
            &mut instances,
            "error_fault_child_test_nexus",
            2,
            READ,
            FAILED,
            0,
            1,
            10 + i,
            &o,
        );
        assert_eq!(r, RecordOutcome::Recorded { faulted: false });
    }
    assert_eq!(instances[0].status(), NexusState::Online);
}

#[test]
fn record_outcomes_for_missing_pieces() {
    let o = opts(true, 4, u64::MAX);
    let mut instances = vec![Nexus {
        name: "nx".to_string(),
        children: vec![child("bare", 7, false)],
    }];
    let r = future_error_record_add(&mut instances, "absent", 7, READ, FAILED, 0, 1, 1, &o);
    assert_eq!(r, RecordOutcome::NexusNotFound);
    let r = future_error_record_add(&mut instances, "nx", 8, READ, FAILED, 0, 1, 1, &o);
    assert_eq!(r, RecordOutcome::ChildNotFound);
    let r = future_error_record_add(&mut instances, "nx", 7, READ, FAILED, 0, 1, 1, &o);
    assert_eq!(r, RecordOutcome::NoErrStore);
    assert_eq!(instances[0].children[0].state, ChildState::Open);
}

#[test]
fn assess_child_boundary_is_strict() {
    // with a retry allowance of 2, the assessor tolerates two failed
    // attempts of one read and condemns the third
    let mut c = child("c", 1, true);
    for i in 0..2u64 {
        c.err_store
            .as_mut()
            .unwrap()
            .add_record(READ, FAILED, 0, 1, 100 + i);
    }
    assert!(Nexus::assess_child(&c, 2, u64::MAX, 200));
    c.err_store
        .as_mut()
        .unwrap()
        .add_record(READ, FAILED, 0, 1, 102);
    assert!(!Nexus::assess_child(&c, 2, u64::MAX, 200));
}

#[test]
fn assess_child_honours_the_age_window() {
    // three failed attempts, but only the newest is within the window
    let mut c = child("c", 1, true);
    c.err_store.as_mut().unwrap().add_record(READ, FAILED, 0, 1, 100);
    c.err_store.as_mut().unwrap().add_record(READ, FAILED, 0, 1, 110);
    c.err_store.as_mut().unwrap().add_record(READ, FAILED, 0, 1, 500);
    // now = 550, window 100 ns: only the record at 500 is seen, and its
    // attempt count 3 still exceeds an allowance of 2
    assert!(!Nexus::assess_child(&c, 2, 100, 550));
    // an allowance of 3 tolerates it
    assert!(Nexus::assess_child(&c, 3, 100, 550));
}

#[test]
fn fault_child_transitions_and_reports() {
    let mut nx = two_child_nexus();
    let st = nx.fault_child("flaky").unwrap();
    assert_eq!(st, NexusState::Degraded);
    assert_eq!(nx.children[1].state, ChildState::Faulted);
    // faulting an already faulted child is a no-op
    let st = nx.fault_child("flaky").unwrap();
    assert_eq!(st, NexusState::Degraded);
    let st = nx.fault_child("good").unwrap();
    assert_eq!(st, NexusState::Faulted);
    let r = nx.fault_child("nobody");
    assert!(matches!(r, Err(NexusError::ChildMissing { .. })));
}

#[test]
fn error_record_query_paths() {
    let nx = two_child_nexus();
    // monitoring disabled: nothing is reported
    let r = nx.error_record_query(
        "flaky",
        NexusErrStore::ALL_IO_FLAGS,
        NexusErrStore::IO_FAILED_FLAG,
        None,
        NexusErrStoreQuery::Total,
        false,
        1000,
    );
    assert_eq!(r.unwrap(), None);
    // unknown child
    let r = nx.error_record_query(
        "nobody",
        NexusErrStore::ALL_IO_FLAGS,
        NexusErrStore::IO_FAILED_FLAG,
        None,
        NexusErrStoreQuery::Total,
        true,
        1000,
    );
    assert!(matches!(r, Err(NexusError::ChildMissing { .. })));
    // child without a ring
    let nx2 = Nexus {
        name: "nx".to_string(),
        children: vec![child("bare", 7, false)],
    };
    let r = nx2.error_record_query(
        "bare",
        NexusErrStore::ALL_IO_FLAGS,
        NexusErrStore::IO_FAILED_FLAG,
        None,
        NexusErrStoreQuery::Total,
        true,
        1000,
    );
    assert!(matches!(r, Err(NexusError::ChildMissingErrStore { .. })));
    // a real count, windowed by age
    let mut nx3 = two_child_nexus();
    nx3.children[1]
        .err_store
        .as_mut()
        .unwrap()
        .add_record(READ, FAILED, 0, 1, 100);
    nx3.children[1]
        .err_store
        .as_mut()
        .unwrap()
        .add_record(READ, FAILED, 0, 1, 900);
    let r = nx3.error_record_query(
        "flaky",
        NexusErrStore::ALL_IO_FLAGS,
        NexusErrStore::IO_FAILED_FLAG,
        None,
        NexusErrStoreQuery::Total,
        true,
        1000,
    );
    assert_eq!(r.unwrap(), Some(2));
    let r = nx3.error_record_query(
        "flaky",
        NexusErrStore::ALL_IO_FLAGS,
        NexusErrStore::IO_FAILED_FLAG,
        Some(500),
        NexusErrStoreQuery::Total,
        true,
        1000,
    );
    assert_eq!(r.unwrap(), Some(1));
}

#[test]
fn nexus_lookup_by_uuid() {
    let uuid = "04089481-cc69-45c1-8009-8aa7167a633a";
    let name = uuid_to_name(uuid).unwrap();
    assert_eq!(name, "nexus-04089481-cc69-45c1-8009-8aa7167a633a");
    let instances = vec![
        Nexus { name: "other".to_string(), children: vec![] },
        Nexus { name, children: vec![] },
    ];
    assert_eq!(nexus_lookup(&instances, uuid).unwrap(), 1);
    let r = nexus_lookup(&instances, "11111111-2222-3333-4444-555555555555");
    assert!(matches!(r, Err(NexusError::NexusNotFound { .. })));
    let r = nexus_lookup(&instances, "not-a-uuid");
    assert!(matches!(r, Err(NexusError::InvalidUuid { .. })));
    let r = uuid_to_name("04089481xcc69x45c1x8009x8aa7167a633a");
    assert!(matches!(r, Err(NexusError::InvalidUuid { .. })));
}

#[test]
fn nexus_status_derivation() {
    let mut nx = Nexus {
        name: "nx".to_string(),
        children: vec![child("a", 1, false), child("b", 2, false)],
    };
    assert_eq!(nx.status(), NexusState::Online);
    nx.children[0].state = ChildState::Faulted;
    assert_eq!(nx.status(), NexusState::Degraded);
    nx.children[1].state = ChildState::Init;
    assert_eq!(nx.status(), NexusState::Faulted);
}

#[test]
fn publish_argument_validation() {
    // an empty key is no key
    let (k, p) = validate_publish_args("", 1).unwrap();
    assert!(k.is_none());
    assert_eq!(p, ShareProtocolNexus::NexusNvmf);
    // a sixteen-character key passes through
    let (k, p) = validate_publish_args("0123456789abcdef", 0).unwrap();
    assert_eq!(k.unwrap(), "0123456789abcdef");
    assert_eq!(p, ShareProtocolNexus::NexusNbd);
    // any other key length is refused
    let r = validate_publish_args("short", 1);
    assert!(matches!(r, Err(NexusError::InvalidKey)));
    // an unknown protocol is refused
    let r = validate_publish_args("", 9);
    assert!(matches!(r, Err(NexusError::InvalidShareProtocol { sp_value: 9 })));
    let (_, p) = validate_publish_args("", 2).unwrap();
    assert_eq!(p, ShareProtocolNexus::NexusIscsi);
}

#[test]
fn faulted_child_leaves_the_dispatch_set() {
    let mut nx = two_child_nexus();
    assert_eq!(nx.active_children(), vec![0, 1]);
    nx.fault_child("flaky").unwrap();
    assert_eq!(nx.active_children(), vec![0]);
}

#[test]
fn assess_child_without_a_ring_is_healthy() {
    let c = child("bare", 9, false);
    assert!(Nexus::assess_child(&c, 0, u64::MAX, 100));
}
