//! Submission of a fact: canonical form, content identifier, stream, record.
use vstd::prelude::*;
use crate::cid::{cid_of, compute_cid, is_lower_hex};
use crate::ledger::{LedgerError, LedgerManager};
use crate::lines::{is_single_line, record_bytes};
use crate::stream::{route_spec, route_stream, Stream};

verus! {

#[verifier::external_type_specification]
#[verifier::external_body]
pub struct ExValue(serde_json::Value);

/// The canonical bytes that json_atomic gives a JSON value, if it gives any.
pub uninterp spec fn canonical_of(v: serde_json::Value) -> Option<Seq<u8>>;

/// The string held under `key` in a JSON object, if there is one.
pub uninterp spec fn member_str_of(v: serde_json::Value, key: Seq<char>) -> Option<Seq<char>>;

/// Relies on json_atomic::canonize: sorted object keys, compact output, integers
/// only (a float is an error); the result depends on the value alone. Its output
/// holds no newline byte: strings are escaped by serde_json and no whitespace is
/// written between tokens.
#[verifier::external_body]
fn canonize(v: &serde_json::Value) -> (r: Result<Vec<u8>, String>)
    ensures
        match canonical_of(*v) {
            Some(c) => (r matches Ok(b) && b@ == c && is_single_line(b@)),
            None => r is Err,
        },
{
    json_atomic::canonize(v).map_err(|e| e.to_string())
}

/// Relies on serde_json::Value::get and Value::as_str: the member `key` of an
/// object when it is a string.
#[verifier::external_body]
fn member_str(v: &serde_json::Value, key: &str) -> (r: Option<String>)
    ensures
        match member_str_of(*v, key@) {
            Some(t) => (r matches Some(x) && x@ == t),
            None => r is None,
        },
{
    v.get(key).and_then(serde_json::Value::as_str).map(str::to_owned)
}

/// The discriminator of a fact: its string member `type`.
pub open spec fn type_of(v: serde_json::Value) -> Option<Seq<char>> {
    member_str_of(v, "type"@)
}

/// What an accepted submission of `v` yields: its canonical bytes, its stream
/// and its content identifier; `None` when the value is refused. It depends on
/// the value alone, never on the ledger or on earlier submissions.
pub open spec fn submission_of(v: serde_json::Value) -> Option<(Seq<u8>, Stream, Seq<char>)> {
    match canonical_of(v) {
        None => None,
        Some(b) => match type_of(v) {
            None => None,
            Some(t) => match route_spec(t) {
                None => None,
                Some(s) => Some((b, s, cid_of(b))),
            },
        },
    }
}

/// The outcome of a successful submission.
pub struct FactReceipt {
    /// The content identifier of the canonical bytes.
    pub cid: String,
    /// The stream the fact was routed to.
    pub stream: Stream,
    /// The canonical bytes of the fact.
    pub canonical: Vec<u8>,
    /// The bytes to append to the stream's log.
    pub record: Vec<u8>,
}

/// Routes a fact by its discriminator: `MissingField("type")` when there is
/// none, `UnknownFactType` when it is not in the routing table.
pub fn determine_stream(fact_type: Option<&str>) -> (r: Result<Stream, LedgerError>)
    ensures
        fact_type is None ==> (r matches Err(LedgerError::MissingField(f)) && f@ == "type"@),
        fact_type matches Some(t) ==> match route_spec(t@) {
            Some(s) => r == Ok::<Stream, LedgerError>(s),
            None => r matches Err(LedgerError::UnknownFactType(u)) && u@ == t@,
        },
{
    match fact_type {
        None => {
            let f = "type".to_owned();
            proof {
                reveal_strlit("type");
            }
            Err(LedgerError::MissingField(f))
        },
        Some(t) => match route_stream(t) {
            Some(s) => Ok(s),
            None => Err(LedgerError::UnknownFactType(t.to_owned())),
        },
    }
}

/// Admits a fact given its canonical form (or the reason it has none) and its
/// discriminator: checks come in the order canonical form, discriminator,
/// routing; on success the stream is registered and the record to append is
/// returned with the fact's identifier.
pub fn admit_fact(
    ledger: &mut LedgerManager,
    canonical: Result<Vec<u8>, String>,
    fact_type: Option<String>,
) -> (r: Result<FactReceipt, LedgerError>)
    requires
        old(ledger).wf(),
        canonical matches Ok(b) ==> is_single_line(b@),
    ensures
        final(ledger).wf(),
        final(ledger).dir() == old(ledger).dir(),
        match canonical {
            Err(m) => r == Err::<FactReceipt, LedgerError>(LedgerError::Canonicalization(m)),
            Ok(b) => match fact_type {
                None => (r matches Err(LedgerError::MissingField(f)) && f@ == "type"@),
                Some(t) => match route_spec(t@) {
                    None => (r matches Err(LedgerError::UnknownFactType(u)) && u@ == t@),
                    Some(s) => (r matches Ok(rc) && rc.stream == s && rc.canonical@ == b@
                        && rc.cid@ == cid_of(b@) && rc.cid@.len() == 64 && is_lower_hex(rc.cid@)
                        && rc.record@ == record_bytes(b@)
                        && final(ledger).registry() == old(ledger).registry().insert(s)),
                },
            },
        },
        r is Err ==> final(ledger).registry() == old(ledger).registry(),
{
    let bytes = match canonical {
        Ok(b) => b,
        Err(m) => {
            return Err(LedgerError::Canonicalization(m));
        },
    };
    let cid = compute_cid(bytes.as_slice());
    let stream = match &fact_type {
        Some(t) => determine_stream(Some(t.as_str())),
        None => determine_stream(None),
    };
    let stream = match stream {
        Ok(s) => s,
        Err(e) => {
            return Err(e);
        },
    };
    let record = ledger.append(stream, bytes.as_slice());
    Ok(FactReceipt { cid, stream, canonical: bytes, record })
}

/// Submits a JSON fact: canonicalizes it with json_atomic, reads its `type`
/// member, then admits it. Canonicalization errors come first, then a missing
/// discriminator, then an unknown one; otherwise the fact is accepted.
pub fn create_fact(ledger: &mut LedgerManager, value: &serde_json::Value) -> (r: Result<
    FactReceipt,
    LedgerError,
>)
    requires
        old(ledger).wf(),
    ensures
        final(ledger).wf(),
        final(ledger).dir() == old(ledger).dir(),
        match canonical_of(*value) {
            None => (r matches Err(LedgerError::Canonicalization(_))),
            Some(b) => match type_of(*value) {
                None => (r matches Err(LedgerError::MissingField(f)) && f@ == "type"@),
                Some(t) => match route_spec(t) {
                    None => (r matches Err(LedgerError::UnknownFactType(u)) && u@ == t),
                    Some(s) => (r matches Ok(rc) && rc.stream == s && rc.canonical@ == b
                        && is_single_line(b) && rc.cid@ == cid_of(b) && rc.cid@.len() == 64
                        && is_lower_hex(rc.cid@) && rc.record@ == record_bytes(b)
                        && final(ledger).registry() == old(ledger).registry().insert(s)),
                },
            },
        },
        r matches Ok(rc) ==> submission_of(*value) == Some((rc.canonical@, rc.stream, rc.cid@)),
        r is Err <==> submission_of(*value) is None,
        r is Err ==> final(ledger).registry() == old(ledger).registry(),
{
    let canonical = canonize(value);
    let fact_type = member_str(value, "type");
    admit_fact(ledger, canonical, fact_type)
}

} // verus!
