//! The NVMe-oF target: a process-wide registry of transports and exported
//! subsystems, exporting a nexus to remote initiators over NVMe-oF TCP.

use vstd::prelude::*;
use crate::strutil::dec_str;
use crate::strutil::u64_to_dec;

pub mod subsystem;
pub mod target;

verus! {

/// Errors of the NVMe-oF target subsystem; `source` carries the errno or
/// completion status of the underlying layer.
#[derive(Debug)]
pub enum Error {
    CreateTarget { msg: String },
    DestroyTarget { source: i32, endpoint: String },
    PgError { msg: String },
    Transport { source: i32, msg: String },
    Subsystem { source: i32, nqn: String, msg: String },
    Share { bdev: String, msg: String },
    Namespace { bdev: String, msg: String },
}

/// The errno signalled when a name already exists.
pub const ERRNO_EEXIST: i32 = 17;

/// What the target model reads of a block device: its name and its UUID.
pub struct BdevInfo {
    pub name: String,
    pub uuid: String,
}

/// A TCP transport endpoint.
pub struct Transport {
    pub address: String,
    pub port: u16,
}

/// The canonical string form identifying a transport.
pub open spec fn transport_canonical(address: Seq<char>, port: u16) -> Seq<char> {
    "trtype:TCP adrfam:IPv4 traddr:"@ + address + " trsvcid:"@ + dec_str(port as nat)
}

/// The exported URI prefix of a transport.
pub open spec fn uri_prefix_of(address: Seq<char>, port: u16) -> Seq<char> {
    "nvme+tcp://"@ + address + ":"@ + dec_str(port as nat)
}

impl Transport {
    pub fn new(address: String, port: u16) -> (r: Transport)
        ensures
            r.address == address,
            r.port == port,
    {
        Transport { address, port }
    }

    /// The canonical `trtype:... trsvcid:...` identity of this transport.
    pub fn canonical(&self) -> (r: String)
        ensures
            r@ == transport_canonical(self.address@, self.port),
    {
        let mut s = "trtype:TCP adrfam:IPv4 traddr:".to_owned();
        s.append(self.address.as_str());
        s.append(" trsvcid:");
        let port_str = u64_to_dec(self.port as u64);
        s.append(port_str.as_str());
        s
    }

    /// The `nvme+tcp://<ip>:<port>` prefix of URIs exported through this
    /// transport.
    pub fn uri_prefix(&self) -> (r: String)
        ensures
            r@ == uri_prefix_of(self.address@, self.port),
    {
        let mut s = "nvme+tcp://".to_owned();
        s.append(self.address.as_str());
        s.append(":");
        let port_str = u64_to_dec(self.port as u64);
        s.append(port_str.as_str());
        s
    }

    /// A value-equal copy.
    pub fn duplicate(&self) -> (r: Transport)
        ensures
            r.address@ == self.address@,
            r.port == self.port,
    {
        Transport { address: self.address.clone(), port: self.port }
    }
}

} // verus!
