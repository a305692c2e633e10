use mayastor::initiator::{
    attach_connect_verdict, nvmeadm_detach_disk, nvmf_detach_disk, nvmf_find, parse_nvmf_uri,
    uuid_from_str, BlockDevice, ConnectFailure, CsiError, EALREADY,
};
use mayastor::strutil::{str_contains, str_eq, u64_to_dec};

const NEXUS_URI: &str =
    "nvmf://192.168.1.1:8420/nqn.2019-05.io.openebs:nexus-04089481-cc69-45c1-8009-8aa7167a633a";

#[test]
fn parse_nvmf_uri_extracts_the_parts() {
    let c = parse_nvmf_uri(NEXUS_URI).unwrap();
    assert_eq!(c.host, "192.168.1.1");
    assert_eq!(c.port, 8420);
    assert_eq!(
        c.nqn,
        "nqn.2019-05.io.openebs:nexus-04089481-cc69-45c1-8009-8aa7167a633a"
    );
}

#[test]
fn parse_nvmf_uri_rejects_malformed_uris() {
    for bad in [
        "http://192.168.1.1:8420/nqn.2019-05.io.openebs:x",
        "not a uri at all",
        "nvmf://192.168.1.1/nqn.2019-05.io.openebs:x",
    ] {
        match parse_nvmf_uri(bad) {
            Err(CsiError::InvalidUri { uristr }) => assert_eq!(uristr, bad),
            _ => panic!("malformed URI must be refused: {}", bad),
        }
    }
}

#[test]
fn uuid_from_str_takes_the_last_five_fragments() {
    assert_eq!(
        uuid_from_str(NEXUS_URI),
        "04089481-cc69-45c1-8009-8aa7167a633a"
    );
    // garbage in, garbage out: fewer than five hyphens keep the string whole
    assert_eq!(uuid_from_str("abc"), "abc");
    assert_eq!(uuid_from_str("a-b"), "a-b");
    assert_eq!(uuid_from_str("a-b-c-d-e"), "a-b-c-d-e");
    assert_eq!(uuid_from_str("x-a-b-c-d-e"), "a-b-c-d-e");
    assert_eq!(uuid_from_str(""), "");
}

#[test]
fn connect_verdict_treats_ealready_as_success() {
    assert!(attach_connect_verdict(&Ok(())).is_ok());
    let in_progress = ConnectFailure { errcode: Some(EALREADY), message: "busy".to_string() };
    assert!(attach_connect_verdict(&Err(in_progress)).is_ok());
    let refused = ConnectFailure {
        errcode: Some(111),
        message: "connection refused".to_string(),
    };
    match attach_connect_verdict(&Err(refused)) {
        Err(CsiError::Nvmf { error }) => {
            assert_eq!(error, "Connect failed :connection refused");
        }
        _ => panic!("a refused connect must fail"),
    }
    let opaque = ConnectFailure { errcode: None, message: "no path".to_string() };
    assert!(attach_connect_verdict(&Err(opaque)).is_err());
}

fn dev(model: &str, wwn: Option<&str>, devname: &str) -> BlockDevice {
    BlockDevice {
        id_model: model.to_string(),
        id_wwn: wwn.map(|w| w.to_string()),
        devname: devname.to_string(),
    }
}

#[test]
fn nvmf_find_matches_model_and_wwn() {
    let uuid = "04089481-cc69-45c1-8009-8aa7167a633a";
    let devices = vec![
        dev("Some Other Disk", Some("uuid.04089481-cc69-45c1-8009-8aa7167a633a"), "/dev/sda"),
        dev("Mayastor NVMe controller", None, "/dev/nvme0n1"),
        dev("Mayastor NVMe controller", Some("eui.42"), "/dev/nvme1n1"),
        dev(
            "Mayastor NVMe controller",
            Some("nvme.uuid.04089481-cc69-45c1-8009-8aa7167a633a"),
            "/dev/nvme2n1",
        ),
    ];
    assert_eq!(nvmf_find(&devices, uuid).unwrap(), "/dev/nvme2n1");
    assert!(nvmf_find(&devices, "11111111-2222-3333-4444-555555555555").is_none());
    assert!(nvmf_find(&Vec::new(), uuid).is_none());
}

#[test]
fn detach_judges_the_disconnect_count() {
    let uuid = "04089481-cc69-45c1-8009-8aa7167a633a";
    match nvmf_detach_disk(uuid, &Ok(0)) {
        Err(CsiError::NotFound { value }) => {
            assert_eq!(
                value,
                "nvmf device not found for nqn.2019-05.io.openebs:nexus-04089481-cc69-45c1-8009-8aa7167a633a"
            );
        }
        _ => panic!("zero disconnected devices must be reported as not found"),
    }
    assert!(nvmf_detach_disk(uuid, &Ok(1)).is_ok());
    // several devices disconnect with a warning, not an error
    assert!(nvmf_detach_disk(uuid, &Ok(3)).is_ok());
    match nvmf_detach_disk(uuid, &Err("no fabrics".to_string())) {
        Err(CsiError::Nvmf { error }) => assert_eq!(error, "no fabrics"),
        _ => panic!("a failed disconnect must surface"),
    }
    assert!(nvmeadm_detach_disk("nqn.2019-05.io.openebs:x", &Ok(1)).is_ok());
}

#[test]
fn string_helpers() {
    assert!(str_eq("abc", "abc"));
    assert!(!str_eq("abc", "abd"));
    assert!(!str_eq("abc", "ab"));
    assert!(str_contains("hay uuid.42 stack", "uuid.42"));
    assert!(!str_contains("hay", "needle"));
    assert!(str_contains("anything", ""));
    assert_eq!(u64_to_dec(0), "0");
    assert_eq!(u64_to_dec(8420), "8420");
    assert_eq!(u64_to_dec(u64::MAX), "18446744073709551615");
}
