//! The initiator-side helper: turn an `nvmf://host:port/nqn` URI into the
//! parameters of the OS NVMe-oF connect primitive, derive the UUID embedded
//! in an NQN tail, and recognise the attached controller among enumerated
//! block devices.

use vstd::prelude::*;
use crate::lookup::{find_first, lemma_find_first};
use crate::nvmf::subsystem::{model_literal, nqn_of};
use crate::strutil::{
    join_with,
    last_index_of,
    lemma_last_index_of_props,
    seq_contains,
    split_chars,
    str_contains,
    str_eq,
};

verus! {

/// Errors returned to the initiator's caller.
#[derive(Debug)]
pub enum CsiError {
    Nvmf { error: String },
    NotFound { value: String },
    InvalidUri { uristr: String },
}

/// The errno with which the OS NVMe-oF connect reports that the connection
/// is already being established; it is success-in-progress, not an error.
pub const EALREADY: i32 = 114;

/// What the initiator hands to the OS NVMe-oF connect primitive.
pub struct ConnectParams {
    pub host: String,
    pub port: u16,
    pub nqn: String,
}

/// What the OS NVMe-oF connect primitive reported back when it failed.
pub struct ConnectFailure {
    /// The raw OS error code, when the failure came from the OS.
    pub errcode: Option<i32>,
    pub message: String,
}

/// The decomposition of a parsed URL into the parts the initiator reads.
pub struct UrlParts {
    pub scheme: String,
    pub host: Option<String>,
    pub port: Option<u16>,
    pub first_segment: Option<String>,
}

/// Whether a string parses as a URL.
pub uninterp spec fn url_parses(s: Seq<char>) -> bool;

/// The scheme of a string that parses as a URL.
pub uninterp spec fn url_scheme(s: Seq<char>) -> Seq<char>;

/// The host part of a string that parses as a URL.
pub uninterp spec fn url_host(s: Seq<char>) -> Option<Seq<char>>;

/// The port of a string that parses as a URL.
pub uninterp spec fn url_port(s: Seq<char>) -> Option<u16>;

/// The first path segment of a string that parses as a URL.
pub uninterp spec fn url_first_segment(s: Seq<char>) -> Option<Seq<char>>;

/// Relies on url::Url::parse and the accessors Url::scheme, Url::host_str,
/// Url::port and Url::path_segments: whether a string parses, and the parts
/// it decomposes into, depend on the string alone.
#[verifier::external_body]
fn parse_url(s: &str) -> (r: Option<UrlParts>)
    ensures
        (r is Some) == url_parses(s@),
        r matches Some(p) ==> {
            &&& p.scheme@ == url_scheme(s@)
            &&& (p.host is Some) == (url_host(s@) is Some)
            &&& (p.host matches Some(h) ==> url_host(s@) == Some(h@))
            &&& p.port == url_port(s@)
            &&& (p.first_segment is Some) == (url_first_segment(s@) is Some)
            &&& (p.first_segment matches Some(g) ==> url_first_segment(s@) == Some(g@))
        },
{
    match url::Url::parse(s) {
        Ok(u) => {
            let first = u.path_segments().and_then(|mut it| it.next()).map(|t| t.to_string());
            Some(UrlParts {
                scheme: u.scheme().to_string(),
                host: u.host_str().map(|h| h.to_string()),
                port: u.port(),
                first_segment: first,
            })
        },
        Err(_) => None,
    }
}

/// A well-formed initiator URI: it parses, its scheme is `nvmf`, and host,
/// port and a first path segment (the NQN) are all present.
pub open spec fn nvmf_uri_wellformed(s: Seq<char>) -> bool {
    &&& url_parses(s)
    &&& url_scheme(s) == "nvmf"@
    &&& url_host(s) is Some
    &&& url_port(s) is Some
    &&& url_first_segment(s) is Some
}

/// Parse an `nvmf://<host>:<port>/<nqn>` URI into connect parameters; any
/// malformed URI fails with the invalid-URI error.
pub fn parse_nvmf_uri(uri: &str) -> (r: Result<ConnectParams, CsiError>)
    ensures
        r is Ok <==> nvmf_uri_wellformed(uri@),
        r matches Ok(c) ==> {
            &&& Some(c.host@) == url_host(uri@)
            &&& Some(c.port) == url_port(uri@)
            &&& Some(c.nqn@) == url_first_segment(uri@)
        },
        r matches Err(e) ==> e matches CsiError::InvalidUri { uristr } && uristr@ == uri@,
{
    if let Some(parts) = parse_url(uri) {
        if str_eq(parts.scheme.as_str(), "nvmf") {
            if let (Some(host), Some(port), Some(nqn)) = (parts.host, parts.port, parts.first_segment) {
                return Ok(ConnectParams { host, port, nqn });
            }
        }
    }
    Err(CsiError::InvalidUri { uristr: uri.to_owned() })
}

/// Did the OS NVMe-oF connect leave the initiator in a state to go on
/// looking for the device? Success does; so does the in-progress error;
/// every other failure surfaces as an NVMe-oF error whose text wraps the
/// reported message.
pub fn attach_connect_verdict(connect_result: &Result<(), ConnectFailure>) -> (r: Result<
    (),
    CsiError,
>)
    ensures
        ({
            match connect_result {
                Ok(()) => r is Ok,
                Err(f) => if f.errcode == Some(EALREADY) {
                    r is Ok
                } else {
                    r matches Err(CsiError::Nvmf { error }) && error@ == "Connect failed :"@
                        + f.message@
                },
            }
        }),
{
    match connect_result {
        Ok(()) => Ok(()),
        Err(f) => {
            let in_progress = match f.errcode {
                Some(code) => code == EALREADY,
                None => false,
            };
            if in_progress {
                Ok(())
            } else {
                let mut error = "Connect failed :".to_owned();
                error.append(f.message.as_str());
                Err(CsiError::Nvmf { error })
            }
        },
    }
}

/// What the initiator reads of one enumerated block device.
pub struct BlockDevice {
    pub id_model: String,
    pub id_wwn: Option<String>,
    pub devname: String,
}

/// The device-match contract: the device carries the fixed model string and
/// its world-wide name contains `uuid.<expected uuid>`.
pub open spec fn device_matches(d: BlockDevice, uuid: Seq<char>) -> bool {
    &&& d.id_model@ == model_literal()
    &&& match d.id_wwn {
        Some(w) => seq_contains(w@, "uuid."@ + uuid),
        None => false,
    }
}

/// Predicate form of the device-match contract.
pub open spec fn matching_device(uuid: Seq<char>) -> spec_fn(BlockDevice) -> bool {
    |d: BlockDevice| device_matches(d, uuid)
}

/// Search enumerated block devices for the controller that exposes the
/// given UUID and return its device node path, or `None`.
pub fn nvmf_find(devices: &Vec<BlockDevice>, uuid: &str) -> (r: Option<String>)
    ensures
        ({
            let f = find_first(devices@, matching_device(uuid@));
            match r {
                Some(path) => f != -1 && path@ == devices@[f].devname@,
                None => f == -1,
            }
        }),
{
    let mut needle = "uuid.".to_owned();
    needle.append(uuid);
    let ghost p = matching_device(uuid@);
    let n = devices.len();
    let mut i: usize = 0;
    while i < n
        invariant
            i <= n,
            n == devices@.len(),
            needle@ == "uuid."@ + uuid@,
            p == matching_device(uuid@),
            forall|j: int| 0 <= j < i ==> !p(#[trigger] devices@[j]),
        decreases n - i,
    {
        let model_ok = str_eq(devices[i].id_model.as_str(), "Mayastor NVMe controller");
        let wwn_ok = match devices[i].id_wwn.as_ref() {
            Some(w) => str_contains(w.as_str(), needle.as_str()),
            None => false,
        };
        if model_ok && wwn_ok {
            proof {
                lemma_find_first(devices@, p);
                assert(p(devices@[i as int]));
            }
            return Some(devices[i].devname.clone());
        }
        proof {
            assert(!p(devices@[i as int]));
        }
        i += 1;
    }
    proof {
        lemma_find_first(devices@, p);
    }
    None
}

/// The NQN under which a nexus UUID was exported.
pub fn detach_nqn(uuid: &str) -> (r: String)
    ensures
        r@ == nqn_of("nexus-"@ + uuid@),
{
    let mut id = "nexus-".to_owned();
    id.append(uuid);
    crate::nvmf::subsystem::gen_nqn(id.as_str())
}

/// Judge what the OS NVMe-oF disconnect reported for an NQN: no device
/// found is an error, one disconnected device is success, several
/// disconnected devices are success with a warning for the log.
pub fn nvmeadm_detach_disk(nqn: &str, disconnected: &Result<u64, String>) -> (r: Result<
    (),
    CsiError,
>)
    ensures
        ({
            match disconnected {
                Ok(n) => if *n == 0 {
                    r matches Err(CsiError::NotFound { value }) && value@
                        == "nvmf device not found for "@ + nqn@
                } else {
                    r is Ok
                },
                Err(e) => r matches Err(CsiError::Nvmf { error }) && error@ == e@,
            }
        }),
{
    match disconnected {
        Ok(n) => {
            if *n == 0 {
                let mut value = "nvmf device not found for ".to_owned();
                value.append(nqn);
                Err(CsiError::NotFound { value })
            } else {
                Ok(())
            }
        },
        Err(e) => Err(CsiError::Nvmf { error: e.clone() }),
    }
}

/// Judge what the OS NVMe-oF disconnect reported for the NQN derived from a
/// nexus UUID.
pub fn nvmf_detach_disk(uuid: &str, disconnected: &Result<u64, String>) -> (r: Result<
    (),
    CsiError,
>)
    ensures
        ({
            match disconnected {
                Ok(n) => if *n == 0 {
                    r matches Err(CsiError::NotFound { value }) && value@
                        == "nvmf device not found for "@ + nqn_of("nexus-"@ + uuid@)
                } else {
                    r is Ok
                },
                Err(e) => r matches Err(CsiError::Nvmf { error }) && error@ == e@,
            }
        }),
{
    let nqn = detach_nqn(uuid);
    nvmeadm_detach_disk(nqn.as_str(), disconnected)
}

/// The views of a vector of owned fragments.
pub open spec fn views_of(frags: Seq<String>) -> Seq<Seq<char>> {
    frags.map_values(|f: String| f@)
}

/// The UUID embedded in the tail of an initiator URI: its last five
/// hyphen-delimited fragments, rejoined with hyphens.
pub open spec fn uuid_tail(s: Seq<char>) -> Seq<char> {
    let frags = split_chars(s, '-');
    let kept = if frags.len() > 5 {
        frags.skip(frags.len() - 5)
    } else {
        frags
    };
    join_with(kept, "-"@)
}

/// Relies on itertools::join: the items' text with the separator between
/// consecutive ones.
#[verifier::external_body]
fn join_fragments(frags: &Vec<String>, sep: &str) -> (r: String)
    ensures
        r@ == join_with(views_of(frags@), sep@),
{
    itertools::join(frags.iter(), sep)
}

/// One step of the fragment scan: how the split of a one-longer prefix
/// relates to the split so far.
proof fn lemma_split_step(s: Seq<char>, i: int, start: int, fvs: Seq<Seq<char>>)
    requires
        0 <= start <= i < s.len(),
        start == 0 || s[start - 1] == '-',
        forall|j: int| start <= j < i ==> s[j] != '-',
        split_chars(s.take(i), '-') == fvs.push(s.subrange(start, i)),
    ensures
        s[i] == '-' ==> split_chars(s.take(i + 1), '-') == fvs.push(s.subrange(start, i)).push(
            Seq::<char>::empty(),
        ),
        s[i] != '-' ==> split_chars(s.take(i + 1), '-') == fvs.push(s.subrange(start, i + 1)),
{
    let t = s.take(i + 1);
    assert(t.last() == s[i]);
    if s[i] == '-' {
        assert(last_index_of(t, '-') == i);
        assert(t.take(i) =~= s.take(i));
        assert(t.skip(i + 1) =~= Seq::<char>::empty());
        assert(split_chars(t, '-') == split_chars(s.take(i), '-').push(Seq::<char>::empty()));
    } else {
        assert(t.drop_last() =~= s.take(i));
        assert(last_index_of(t, '-') == last_index_of(s.take(i), '-'));
        let li = last_index_of(s.take(i), '-');
        lemma_last_index_of_props(s.take(i), '-');
        if start == 0 {
            if li != -1 {
                assert(s.take(i)[li] == s[li]);
                assert(false);
            }
            assert(split_chars(s.take(i), '-') == seq![s.take(i)]);
            assert(fvs.push(s.subrange(0, i)).drop_last() =~= fvs);
            assert(seq![s.take(i)].drop_last() =~= Seq::<Seq<char>>::empty());
            assert(fvs =~= Seq::<Seq<char>>::empty());
            assert(split_chars(t, '-') == seq![t]);
            assert(t =~= s.subrange(0, i + 1));
            assert(seq![t] =~= fvs.push(s.subrange(0, i + 1)));
        } else {
            assert(s.take(i)[start - 1] == s[start - 1]);
            if li == -1 {
                assert(s.take(i)[start - 1] != '-');
                assert(false);
            }
            assert(s.take(i)[li] == s[li]);
            if li < start - 1 {
                assert(s.take(i)[start - 1] != '-');
                assert(false);
            }
            if li > start - 1 {
                assert(s[li] != '-');
                assert(false);
            }
            assert(li == start - 1);
            assert(s.take(i).take(li) =~= s.take(li));
            assert(s.take(i).skip(li + 1) =~= s.subrange(start, i));
            assert(split_chars(s.take(i), '-') == split_chars(s.take(li), '-').push(
                s.subrange(start, i),
            ));
            assert(split_chars(s.take(li), '-').push(s.subrange(start, i)).drop_last() =~= split_chars(
                s.take(li),
                '-',
            ));
            assert(fvs.push(s.subrange(start, i)).drop_last() =~= fvs);
            assert(split_chars(s.take(li), '-') == fvs);
            assert(t.take(li) =~= s.take(li));
            assert(t.skip(li + 1) =~= s.subrange(start, i + 1));
            assert(split_chars(t, '-') == split_chars(s.take(li), '-').push(
                s.subrange(start, i + 1),
            ));
        }
    }
}

/// Derive the UUID from the tail of an NQN-bearing string: take its last
/// five hyphen-delimited fragments (the canonical 8-4-4-4-12 form) and
/// rejoin them. Garbage in gives a garbage result that simply matches no
/// device; the WWN match is the ultimate gate, so this is no general UUID
/// parser.
pub fn uuid_from_str(s: &str) -> (r: String)
    ensures
        r@ == uuid_tail(s@),
{
    let n = s.unicode_len();
    let mut frags: Vec<String> = Vec::new();
    let mut start: usize = 0;
    let mut i: usize = 0;
    proof {
        assert(s@.take(0).len() == 0);
        assert(split_chars(s@.take(0), '-') == seq![s@.take(0)]);
        assert(views_of(frags@) =~= Seq::<Seq<char>>::empty());
        assert(seq![s@.take(0)] =~= views_of(frags@).push(s@.subrange(0, 0)));
    }
    while i < n
        invariant
            start <= i <= n,
            n == s@.len(),
            start == 0 || s@[start as int - 1] == '-',
            forall|j: int| start <= j < i ==> s@[j] != '-',
            split_chars(s@.take(i as int), '-') == views_of(frags@).push(
                s@.subrange(start as int, i as int),
            ),
        decreases n - i,
    {
        let ghost fvs = views_of(frags@);
        let ch = s.get_char(i);
        proof {
            lemma_split_step(s@, i as int, start as int, fvs);
        }
        if ch == '-' {
            let frag = s.substring_char(start, i);
            frags.push(frag.to_owned());
            proof {
                assert(views_of(frags@) =~= fvs.push(s@.subrange(start as int, i as int)));
                assert(s@.subrange(i + 1, i + 1) =~= Seq::<char>::empty());
            }
            start = i + 1;
        }
        i += 1;
    }
    let frag = s.substring_char(start, n);
    frags.push(frag.to_owned());
    let ghost full = split_chars(s@, '-');
    proof {
        assert(s@.take(n as int) =~= s@);
        assert(views_of(frags@) =~= split_chars(s@.take(n as int), '-'));
        assert(full.skip(0) =~= full);
    }
    while frags.len() > 5
        invariant
            full == split_chars(s@, '-'),
            frags@.len() <= full.len(),
            views_of(frags@) == full.skip(full.len() - frags@.len()),
            frags@.len() >= 5 || frags@.len() == full.len(),
        decreases frags@.len(),
    {
        let ghost fvs = views_of(frags@);
        frags.remove(0);
        proof {
            assert(views_of(frags@) =~= fvs.drop_first());
            assert(fvs.drop_first() =~= full.skip(full.len() - frags@.len()));
        }
    }
    let r = join_fragments(&frags, "-");
    proof {
        reveal_strlit("-");
        if full.len() > 5 {
            assert(views_of(frags@) == full.skip(full.len() - 5));
        } else {
            assert(views_of(frags@) == full);
        }
    }
    r
}

} // verus!
