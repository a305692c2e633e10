use mayastor::nvmf::subsystem::{gen_nqn, NvmfSubsystem, SubsystemState};
use mayastor::nvmf::target::{Target, TargetState};
use mayastor::nvmf::{BdevInfo, Error, Transport};

fn bdev(name: &str, uuid: &str) -> BdevInfo {
    BdevInfo { name: name.to_string(), uuid: uuid.to_string() }
}

fn running_target() -> Target {
    let mut tgt = Target::new();
    assert_eq!(tgt.next_state(true), TargetState::ConfiguringTransports);
    tgt.add_transport(Transport::new("127.0.0.1".to_string(), 8420)).unwrap();
    tgt.create_poll_group();
    tgt.create_poll_group();
    assert_eq!(tgt.next_state(true), TargetState::AcceptingConnections);
    tgt
}

#[test]
fn nvmf_target() {
    // the end-to-end export walk: share a device, verify the claim, fail to
    // share it twice, stop, destroy, and watch the claim go
    let mut tgt = running_target();
    let disk = bdev("aio:///tmp/disk1.img?blk_size=512", "dev-uuid-1");

    let i = NvmfSubsystem::try_from(&mut tgt, &disk).unwrap();
    let replica = Transport::new("127.0.0.1".to_string(), 8420);
    NvmfSubsystem::start(&mut tgt, i, &replica, 0, 0).unwrap();
    assert_eq!(tgt.subsystems[i].state, SubsystemState::Active);
    assert!(tgt.device_is_claimed("aio:///tmp/disk1.img?blk_size=512"));

    // the same device cannot be shared a second time
    let again = NvmfSubsystem::try_from(&mut tgt, &disk);
    assert!(matches!(again, Err(Error::Subsystem { .. })));

    let first = NvmfSubsystem::first(&tgt).unwrap();
    assert_eq!(
        first.get_nqn(),
        "nqn.2019-05.io.openebs:aio:///tmp/disk1.img?blk_size=512"
    );
    assert_eq!(first.bdev(), "aio:///tmp/disk1.img?blk_size=512");

    NvmfSubsystem::stop(&mut tgt, i, 0).unwrap();
    assert_eq!(tgt.subsystems[i].state, SubsystemState::Paused);
    assert!(tgt.device_is_claimed("aio:///tmp/disk1.img?blk_size=512"));

    NvmfSubsystem::destroy(&mut tgt, i);
    assert!(!tgt.device_is_claimed("aio:///tmp/disk1.img?blk_size=512"));
    assert!(NvmfSubsystem::first(&tgt).is_none());
}

#[test]
fn subsystem_creation_and_conflicts() {
    let mut tgt = running_target();
    let i = NvmfSubsystem::new(&mut tgt, "abc").unwrap();
    assert_eq!(i, 0);
    let s = &tgt.subsystems[i];
    assert_eq!(s.nqn, "nqn.2019-05.io.openebs:abc");
    assert_eq!(s.serial, "33' ~'~._`o##o>");
    assert_eq!(s.mn, "Mayastor NVMe controller");
    assert!(!s.allow_any_host);
    assert_eq!(s.state, SubsystemState::Created);
    // the same NQN cannot exist twice
    let dup = NvmfSubsystem::new(&mut tgt, "abc");
    match dup {
        Err(Error::Subsystem { source, nqn, .. }) => {
            assert_eq!(source, mayastor::nvmf::ERRNO_EEXIST);
            assert_eq!(nqn, "abc");
        }
        _ => panic!("duplicate NQN must be refused"),
    }
    assert_eq!(tgt.subsystems.len(), 1);
}

#[test]
fn namespace_claims_are_exclusive() {
    // a device bound to subsystem A cannot be bound to B until A is gone
    let mut tgt = running_target();
    let a = NvmfSubsystem::new(&mut tgt, "a").unwrap();
    let b = NvmfSubsystem::new(&mut tgt, "b").unwrap();
    let disk = bdev("disk0", "uuid-0");
    NvmfSubsystem::add_namespace(&mut tgt, a, &disk).unwrap();
    assert_eq!(tgt.subsystems[a].state, SubsystemState::NsAttached);
    assert_eq!(tgt.subsystems[a].ns.as_ref().unwrap().nsid, 1);
    assert_eq!(tgt.subsystems[a].ns.as_ref().unwrap().nguid, "uuid-0");

    let r = NvmfSubsystem::add_namespace(&mut tgt, b, &disk);
    assert!(matches!(r, Err(Error::Namespace { .. })));
    assert!(tgt.subsystems[b].ns.is_none());

    NvmfSubsystem::destroy(&mut tgt, a);
    let b = 0; // the table shifted down
    NvmfSubsystem::add_namespace(&mut tgt, b, &disk).unwrap();
    assert_eq!(tgt.subsystems[b].ns.as_ref().unwrap().device_name, "disk0");
}

#[test]
fn failed_start_rolls_the_subsystem_back() {
    // a subsystem whose start completion fails is destroyed before the error
    // surfaces: no lookup finds it afterwards
    let mut tgt = running_target();
    let i = NvmfSubsystem::new_with_uuid(&mut tgt, "x", &bdev("d0", "u0")).unwrap();
    let replica = Transport::new("127.0.0.1".to_string(), 8420);
    let r = NvmfSubsystem::start(&mut tgt, i, &replica, 0, -12);
    match r {
        Err(Error::Subsystem { source, nqn, .. }) => {
            assert_eq!(source, -12);
            assert_eq!(nqn, "nqn.2019-05.io.openebs:x");
        }
        _ => panic!("failed start must surface the status"),
    }
    assert!(NvmfSubsystem::nqn_lookup(&tgt, "x").is_none());
    assert!(!tgt.device_is_claimed("d0"));

    // a failed listener leaves the subsystem in place
    let j = NvmfSubsystem::new_with_uuid(&mut tgt, "y", &bdev("d1", "u1")).unwrap();
    let r = NvmfSubsystem::start(&mut tgt, j, &replica, -5, 0);
    assert!(matches!(r, Err(Error::Transport { source: -5, .. })));
    assert!(NvmfSubsystem::nqn_lookup(&tgt, "y").is_some());
    assert_eq!(tgt.subsystems[j].state, SubsystemState::NsAttached);
}

#[test]
fn uri_endpoints_one_per_listener_in_order() {
    let mut tgt = running_target();
    let i = NvmfSubsystem::new_with_uuid(&mut tgt, "z", &bdev("d0", "u0")).unwrap();
    assert!(tgt.subsystems[i].uri_endpoints().is_none());
    let t1 = Transport::new("127.0.0.1".to_string(), 8420);
    let t2 = Transport::new("10.0.0.7".to_string(), 4420);
    NvmfSubsystem::add_listener(&mut tgt, i, &t1, 0).unwrap();
    NvmfSubsystem::add_listener(&mut tgt, i, &t2, 0).unwrap();
    let uris = tgt.subsystems[i].uri_endpoints().unwrap();
    assert_eq!(uris.len(), 2);
    assert_eq!(uris[0], "nvme+tcp://127.0.0.1:8420/nqn.2019-05.io.openebs:z");
    assert_eq!(uris[1], "nvme+tcp://10.0.0.7:4420/nqn.2019-05.io.openebs:z");
    // a failed listener completion adds nothing
    let r = NvmfSubsystem::add_listener(&mut tgt, i, &t1, -22);
    assert!(matches!(r, Err(Error::Transport { source: -22, .. })));
    assert_eq!(tgt.subsystems[i].uri_endpoints().unwrap().len(), 2);
}

#[test]
fn pause_and_resume_flip_the_state() {
    let mut tgt = running_target();
    let i = NvmfSubsystem::new_with_uuid(&mut tgt, "p", &bdev("d0", "u0")).unwrap();
    let replica = Transport::new("127.0.0.1".to_string(), 8420);
    NvmfSubsystem::start(&mut tgt, i, &replica, 0, 0).unwrap();
    NvmfSubsystem::pause(&mut tgt, i, 0).unwrap();
    assert_eq!(tgt.subsystems[i].state, SubsystemState::Paused);
    // a failed resume leaves the state alone
    let r = NvmfSubsystem::resume(&mut tgt, i, -1);
    assert!(matches!(r, Err(Error::Subsystem { .. })));
    assert_eq!(tgt.subsystems[i].state, SubsystemState::Paused);
    NvmfSubsystem::resume(&mut tgt, i, 0).unwrap();
    assert_eq!(tgt.subsystems[i].state, SubsystemState::Active);
}

#[test]
fn target_lifecycle_and_shutdown_drain() {
    let mut tgt = Target::new();
    assert_eq!(tgt.state, TargetState::Init);
    assert_eq!(tgt.next_state(true), TargetState::ConfiguringTransports);
    // accepting connections needs a transport and a poll group
    let mut headless = Target::new();
    headless.next_state(true);
    assert_eq!(headless.next_state(true), TargetState::ShuttingDown);

    tgt.add_transport(Transport::new("127.0.0.1".to_string(), 8420)).unwrap();
    let dup = tgt.add_transport(Transport::new("127.0.0.1".to_string(), 8420));
    assert!(matches!(dup, Err(Error::Transport { .. })));
    tgt.create_poll_group();
    assert_eq!(tgt.next_state(true), TargetState::AcceptingConnections);
    NvmfSubsystem::new(&mut tgt, "s1").unwrap();
    NvmfSubsystem::new(&mut tgt, "s2").unwrap();

    assert_eq!(tgt.next_state(true), TargetState::ShuttingDown);
    assert_eq!(NvmfSubsystem::destroy_all(&mut tgt), TargetState::Stopped);
    assert!(tgt.subsystems.is_empty());
    assert_eq!(tgt.poll_groups, 0);
    assert!(tgt.transports.is_empty());
}

#[test]
fn transport_strings() {
    let t = Transport::new("192.168.1.1".to_string(), 8420);
    assert_eq!(
        t.canonical(),
        "trtype:TCP adrfam:IPv4 traddr:192.168.1.1 trsvcid:8420"
    );
    assert_eq!(t.uri_prefix(), "nvme+tcp://192.168.1.1:8420");
    assert_eq!(gen_nqn("nexus-42"), "nqn.2019-05.io.openebs:nexus-42");
}
