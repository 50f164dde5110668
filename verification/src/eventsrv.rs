//! What a publisher of test events computes before it sends: the kind of an
//! envelope, its timestamp, whom it pretends to come from, and where to
//! connect.

use rand::Rng;
use vstd::prelude::*;
use vstd::string::StringExecFns;

verus! {

/// How the payload of an envelope is encoded.
#[derive(Clone, Copy, Debug, PartialEq, Eq, Structural)]
pub enum EnvelopeType {
    ProtoBuf,
    JSON,
    TOML,
}

/// An event as it is handed to the transport.
#[derive(Debug)]
pub struct Event {
    pub field_type: EnvelopeType,
    pub payload: Vec<u8>,
    pub timestamp: u64,
    pub member_id: u64,
    pub service: String,
}

/// The kind of envelope that goes with a file's extension.
pub open spec fn envelope_type_of(extension: Option<Seq<char>>) -> Option<EnvelopeType> {
    match extension {
        None => Some(EnvelopeType::ProtoBuf),
        Some(name) => if name == "json"@ {
            Some(EnvelopeType::JSON)
        } else if name == "toml"@ {
            Some(EnvelopeType::TOML)
        } else {
            None
        },
    }
}

/// The kind of envelope for a payload read from a file with the given
/// extension: protobuf where the file has none, JSON for `json`, TOML for
/// `toml`. Any other extension is unknown and gives `None`.
pub fn envelope_type(extension: Option<&str>) -> (kind: Option<EnvelopeType>)
    ensures
        kind == envelope_type_of(
            match extension {
                Some(name) => Some(name@),
                None => None,
            },
        ),
{
    match extension {
        None => Some(EnvelopeType::ProtoBuf),
        Some(name) => {
            let name = String::from_str(name);
            if name == String::from_str("json") {
                Some(EnvelopeType::JSON)
            } else if name == String::from_str("toml") {
                Some(EnvelopeType::TOML)
            } else {
                None
            }
        },
    }
}

/// The address at which a publisher reaches the local event service on
/// `port`.
pub fn endpoint(port: &str) -> (address: String)
    ensures
        address@ == "tcp://localhost:"@ + port@,
{
    String::from_str("tcp://localhost:").concat(port)
}

/// The milliseconds in `sec` seconds and `nsec` nanoseconds.
pub open spec fn millis_of(sec: i64, nsec: i32) -> int {
    sec * 1000 + nsec / 1_000_000
}

/// The milliseconds since the epoch of a time given as seconds and
/// nanoseconds, where neither is negative and the result fits; else `None`.
pub open spec fn timestamp_of(sec: i64, nsec: i32) -> Option<u64> {
    if 0 <= sec && 0 <= nsec && millis_of(sec, nsec) <= u64::MAX {
        Some(millis_of(sec, nsec) as u64)
    } else {
        None
    }
}

/// The timestamp, in milliseconds since the epoch, of a time given as
/// seconds and nanoseconds.
pub fn timestamp(sec: i64, nsec: i32) -> (millis: Option<u64>)
    ensures
        millis == timestamp_of(sec, nsec),
{
    if sec < 0 || nsec < 0 {
        return None;
    }
    let whole: u64 = sec as u64;
    let part: u64 = nsec as u64 / 1000 / 1000;
    assert(part == nsec / 1_000_000) by (nonlinear_arith)
        requires
            0 <= nsec,
            part == (nsec as int / 1000) / 1000,
    ;
    match whole.checked_mul(1000) {
        Some(scaled) => scaled.checked_add(part),
        None => None,
    }
}

/// `time::get_time`: reads the clock and returns the seconds and the
/// nanoseconds since the epoch. All that is claimed is that the nanoseconds
/// are those of a fraction of a second; the crate refuses to build a time
/// for which that fails.
#[verifier::external_body]
fn get_time() -> (now: (i64, i32))
    ensures
        0 <= now.1 < 1_000_000_000,
{
    let now = time::get_time();
    (now.sec, now.nsec)
}

/// The current time in milliseconds since the epoch; `None` where the clock
/// stands before the epoch or too far behind it to count.
pub fn current_time() -> (millis: Option<u64>)
    ensures
        exists|sec: i64, nsec: i32|
            0 <= nsec < 1_000_000_000 && millis == #[trigger] timestamp_of(sec, nsec),
{
    let (sec, nsec) = get_time();
    let millis = timestamp(sec, nsec);
    assert(millis == timestamp_of(sec, nsec));
    millis
}

#[verifier::external_type_specification]
#[verifier::external_body]
pub struct ExThreadRng(rand::ThreadRng);

/// `rand::thread_rng`: hands out the random number generator of the
/// current thread. Nothing is claimed of it. The crate gives up only where
/// the system has no entropy to seed it with.
#[verifier::external_body]
fn thread_rng() -> (rng: rand::ThreadRng) {
    rand::thread_rng()
}

/// `rand::Rng::choose`: picks one of `values` at random. What is claimed
/// holds of every pick: it is one of `values`, and there is none only where
/// `values` is empty.
#[verifier::external_body]
fn pick<'a, T>(rng: &mut rand::ThreadRng, values: &'a [T]) -> (chosen: Option<&'a T>)
    ensures
        match chosen {
            Some(value) => values@.contains(*value),
            None => values@.len() == 0,
        },
{
    rng.choose(values)
}

/// The members that test events pretend to come from.
pub fn members() -> (ids: Vec<u64>)
    ensures
        ids@ == seq![1u64, 2u64, 3u64, 4u64, 5u64],
{
    let mut ids: Vec<u64> = Vec::new();
    ids.push(1);
    ids.push(2);
    ids.push(3);
    ids.push(4);
    ids.push(5);
    assert(ids@ =~= seq![1u64, 2u64, 3u64, 4u64, 5u64]);
    ids
}

/// The names of the services that test events pretend to speak of. The
/// empty name stands for a broken event: a real one always names a service.
pub open spec fn service_names() -> Seq<Seq<char>> {
    seq!["frontend"@, "backend"@, "database"@, "ponies"@, ""@]
}

/// The services that test events pretend to speak of.
pub fn services() -> (names: Vec<&'static str>)
    ensures
        names@.len() == service_names().len(),
        forall|i: int| 0 <= i < names@.len() ==> (#[trigger] names@[i])@ == service_names()[i],
{
    let mut names: Vec<&'static str> = Vec::new();
    names.push("frontend");
    names.push("backend");
    names.push("database");
    names.push("ponies");
    names.push("");
    names
}

/// Puts a test event together: the payload with its kind and timestamp as
/// given, from a member and about a service that `rng` picks.
fn fabricate(
    rng: &mut rand::ThreadRng,
    field_type: EnvelopeType,
    payload: Vec<u8>,
    timestamp: u64,
) -> (event: Event)
    ensures
        event.field_type == field_type,
        event.payload == payload,
        event.timestamp == timestamp,
        1 <= event.member_id <= 5,
        service_names().contains(event.service@),
{
    let ids = members();
    let member_id = match pick(rng, ids.as_slice()) {
        Some(id) => *id,
        None => 1,
    };
    assert(1 <= member_id <= 5) by {
        assert(ids@.contains(member_id));
    }
    let names = services();
    let service = match pick(rng, names.as_slice()) {
        Some(name) => String::from_str(*name),
        None => String::from_str(""),
    };
    assert(service_names().contains(service@)) by {
        let i = choose|i: int| 0 <= i < names@.len() && names@[i]@ == service@;
        assert(service_names()[i] == service@);
    }
    Event { field_type, payload, timestamp, member_id, service }
}

/// A test event for `payload`: of the kind and with the timestamp given,
/// from one of the pretended members and about one of the pretended
/// services, picked at random.
pub fn next_event(field_type: EnvelopeType, payload: Vec<u8>, timestamp: u64) -> (event: Event)
    ensures
        event.field_type == field_type,
        event.payload == payload,
        event.timestamp == timestamp,
        1 <= event.member_id <= 5,
        service_names().contains(event.service@),
{
    let mut rng = thread_rng();
    fabricate(&mut rng, field_type, payload, timestamp)
}

} // verus!
