//! The submission protocol: the exact JSON bodies of the collector calls
//! and the validation of its responses.
//!
//! The field order of each object is part of the wire contract: the
//! signature covers the exact serialized bytes of the canonical-order
//! signing payload, so any reordering breaks verification.  Every builder
//! here is pinned to a spec-level string; transport stays outside the
//! library, which hands it finished request bodies and checks the decoded
//! response values.

use vstd::prelude::*;

use crate::crypto::SecKey;
use crate::config::RuntimeConfig;
use crate::error::Error;
use crate::jsontext::{quote_str, append_quoted};
use crate::numstr::{u64_digits, format_u64, push_char};

verus! {

/// The canonical signing payload of a registration call: field order
/// `dronePubKey`, `unytPubKey`, `timestamp`.
pub open spec fn registration_sig_payload(dpk: Seq<char>, upk: Seq<char>, ts: u64) -> Seq<char> {
    "{\"dronePubKey\":"@ + quote_str(dpk) + ",\"unytPubKey\":"@ + quote_str(upk)
        + ",\"timestamp\":"@ + u64_digits(ts) + "}"@
}

/// The body of a registration request: field order `dronePubKey`,
/// `unytPubKey`, `droneSignature`, `signatureTimestamp`.
pub open spec fn registration_request_json(
    dpk: Seq<char>,
    upk: Seq<char>,
    sig: Seq<char>,
    ts: u64,
) -> Seq<char> {
    "{\"dronePubKey\":"@ + quote_str(dpk) + ",\"unytPubKey\":"@ + quote_str(upk)
        + ",\"droneSignature\":"@ + quote_str(sig) + ",\"signatureTimestamp\":"@ + u64_digits(ts)
        + "}"@
}

/// One metric record: a zero placeholder value and unit index, the cycle
/// timestamp, and the proof line carried verbatim.
pub open spec fn metric_record_json(proof_line: Seq<char>, ts: u64) -> Seq<char> {
    "{\"value\":0,\"timestamp\":"@ + u64_digits(ts) + ",\"registered_unit_index\":0,\"proof\":"@
        + quote_str(proof_line) + "}"@
}

/// The comma-separated metric records of one submission.
pub open spec fn metric_items(proofs: Seq<Seq<char>>, ts: u64) -> Seq<char>
    decreases proofs.len(),
{
    if proofs.len() == 0 {
        Seq::empty()
    } else if proofs.len() == 1 {
        metric_record_json(proofs.first(), ts)
    } else {
        metric_record_json(proofs.first(), ts) + seq![','] + metric_items(proofs.drop_first(), ts)
    }
}

/// The JSON array of the metric records of one submission.
pub open spec fn metrics_array_json(proofs: Seq<Seq<char>>, ts: u64) -> Seq<char> {
    seq!['['] + metric_items(proofs, ts) + seq![']']
}

/// The canonical signing payload of a metrics call: field order
/// `dronePubKey`, `metrics`, `signingPubKey`, `timestamp`, `unytPubKey`.
pub open spec fn metrics_sig_payload(
    dpk: Seq<char>,
    upk: Seq<char>,
    spk: Seq<char>,
    proofs: Seq<Seq<char>>,
    ts: u64,
) -> Seq<char> {
    "{\"dronePubKey\":"@ + quote_str(dpk) + ",\"metrics\":"@ + metrics_array_json(proofs, ts)
        + ",\"signingPubKey\":"@ + quote_str(spk) + ",\"timestamp\":"@ + u64_digits(ts)
        + ",\"unytPubKey\":"@ + quote_str(upk) + "}"@
}

/// The body of a metrics request: field order `signingPubKey`,
/// `dronePubKey`, `unytPubKey`, `metrics`, `signature`, `timestamp`.
pub open spec fn metrics_request_json(
    dpk: Seq<char>,
    upk: Seq<char>,
    spk: Seq<char>,
    proofs: Seq<Seq<char>>,
    sig: Seq<char>,
    ts: u64,
) -> Seq<char> {
    "{\"signingPubKey\":"@ + quote_str(spk) + ",\"dronePubKey\":"@ + quote_str(dpk)
        + ",\"unytPubKey\":"@ + quote_str(upk) + ",\"metrics\":"@ + metrics_array_json(proofs, ts)
        + ",\"signature\":"@ + quote_str(sig) + ",\"timestamp\":"@ + u64_digits(ts) + "}"@
}

/// Adding one more record appends a comma (when needed) and the record.
proof fn lemma_metric_items_snoc(proofs: Seq<Seq<char>>, y: Seq<char>, ts: u64)
    ensures
        metric_items(proofs.push(y), ts) == if proofs.len() == 0 {
            metric_record_json(y, ts)
        } else {
            metric_items(proofs, ts) + seq![','] + metric_record_json(y, ts)
        },
    decreases proofs.len(),
{
    if proofs.len() == 0 {
        assert(proofs.push(y).len() == 1);
        assert(proofs.push(y).first() == y);
    } else {
        assert(proofs.push(y).first() == proofs.first());
        assert(proofs.push(y).drop_first() =~= proofs.drop_first().push(y));
        lemma_metric_items_snoc(proofs.drop_first(), y, ts);
        assert(metric_items(proofs.push(y), ts) =~= metric_items(proofs, ts) + seq![',']
            + metric_record_json(y, ts));
    }
}

/// Append one metric record.
fn append_metric_record(out: &mut String, proof_line: &str, ts: u64)
    ensures
        final(out)@ == old(out)@ + metric_record_json(proof_line@, ts),
{
    out.append("{\"value\":0,\"timestamp\":");
    let n = format_u64(ts);
    out.append(n.as_str());
    out.append(",\"registered_unit_index\":0,\"proof\":");
    append_quoted(out, proof_line);
    out.append("}");
    proof {
        assert(out@ =~= old(out)@ + metric_record_json(proof_line@, ts));
    }
}

/// Append the JSON array of the metric records of one submission.
fn append_metrics_array(out: &mut String, proofs: &Vec<String>, ts: u64)
    ensures
        final(out)@ == old(out)@ + metrics_array_json(proofs.deep_view(), ts),
{
    push_char(out, '[');
    let ghost dv = proofs.deep_view();
    let mut i: usize = 0;
    while i < proofs.len()
        invariant
            i <= proofs.len(),
            dv == proofs.deep_view(),
            dv.len() == proofs@.len(),
            out@ == old(out)@ + seq!['['] + metric_items(dv.take(i as int), ts),
        decreases proofs.len() - i,
    {
        proof {
            assert(dv.take(i + 1) =~= dv.take(i as int).push(dv[i as int]));
            lemma_metric_items_snoc(dv.take(i as int), dv[i as int], ts);
            assert(dv[i as int] == proofs@[i as int]@);
        }
        if i > 0 {
            push_char(out, ',');
        } else {
            proof {
                assert(dv.take(0int).len() == 0);
                assert(metric_items(dv.take(0int), ts) == Seq::<char>::empty());
            }
        }
        append_metric_record(out, proofs[i].as_str(), ts);
        proof {
            assert(out@ =~= old(out)@ + seq!['['] + metric_items(dv.take(i + 1), ts));
        }
        i = i + 1;
    }
    push_char(out, ']');
    proof {
        assert(dv.take(proofs@.len() as int) =~= dv);
        assert(out@ =~= old(out)@ + metrics_array_json(dv, ts));
    }
}

/// Build the canonical registration signing payload.
pub fn build_registration_sig_payload(dpk: &str, upk: &str, ts: u64) -> (r: String)
    ensures
        r@ == registration_sig_payload(dpk@, upk@, ts),
{
    let mut out = String::new();
    out.append("{\"dronePubKey\":");
    append_quoted(&mut out, dpk);
    out.append(",\"unytPubKey\":");
    append_quoted(&mut out, upk);
    out.append(",\"timestamp\":");
    let n = format_u64(ts);
    out.append(n.as_str());
    out.append("}");
    proof {
        assert(out@ =~= registration_sig_payload(dpk@, upk@, ts));
    }
    out
}

/// Build a registration request body around an already-computed signature.
pub fn build_registration_request(dpk: &str, upk: &str, sig: &str, ts: u64) -> (r: String)
    ensures
        r@ == registration_request_json(dpk@, upk@, sig@, ts),
{
    let mut out = String::new();
    out.append("{\"dronePubKey\":");
    append_quoted(&mut out, dpk);
    out.append(",\"unytPubKey\":");
    append_quoted(&mut out, upk);
    out.append(",\"droneSignature\":");
    append_quoted(&mut out, sig);
    out.append(",\"signatureTimestamp\":");
    let n = format_u64(ts);
    out.append(n.as_str());
    out.append("}");
    proof {
        assert(out@ =~= registration_request_json(dpk@, upk@, sig@, ts));
    }
    out
}

/// Build the canonical metrics signing payload.
pub fn build_metrics_sig_payload(dpk: &str, upk: &str, spk: &str, proofs: &Vec<String>, ts: u64) -> (r:
    String)
    ensures
        r@ == metrics_sig_payload(dpk@, upk@, spk@, proofs.deep_view(), ts),
{
    let mut out = String::new();
    out.append("{\"dronePubKey\":");
    append_quoted(&mut out, dpk);
    out.append(",\"metrics\":");
    append_metrics_array(&mut out, proofs, ts);
    out.append(",\"signingPubKey\":");
    append_quoted(&mut out, spk);
    out.append(",\"timestamp\":");
    let n = format_u64(ts);
    out.append(n.as_str());
    out.append(",\"unytPubKey\":");
    append_quoted(&mut out, upk);
    out.append("}");
    proof {
        assert(out@ =~= metrics_sig_payload(dpk@, upk@, spk@, proofs.deep_view(), ts));
    }
    out
}

/// Build a metrics request body around an already-computed signature.
pub fn build_metrics_request(
    dpk: &str,
    upk: &str,
    spk: &str,
    proofs: &Vec<String>,
    sig: &str,
    ts: u64,
) -> (r: String)
    ensures
        r@ == metrics_request_json(dpk@, upk@, spk@, proofs.deep_view(), sig@, ts),
{
    let mut out = String::new();
    out.append("{\"signingPubKey\":");
    append_quoted(&mut out, spk);
    out.append(",\"dronePubKey\":");
    append_quoted(&mut out, dpk);
    out.append(",\"unytPubKey\":");
    append_quoted(&mut out, upk);
    out.append(",\"metrics\":");
    append_metrics_array(&mut out, proofs, ts);
    out.append(",\"signature\":");
    append_quoted(&mut out, sig);
    out.append(",\"timestamp\":");
    let n = format_u64(ts);
    out.append(n.as_str());
    out.append("}");
    proof {
        assert(out@ =~= metrics_request_json(dpk@, upk@, spk@, proofs.deep_view(), sig@, ts));
    }
    out
}

/// Build a signed registration request from a configuration: the
/// signature covers exactly the canonical-order signing payload for the
/// same keys and timestamp.
pub fn build_drone_registration(config: &RuntimeConfig, key: &SecKey, ts: u64) -> (r: Result<
    String,
    Error,
>)
    ensures
        r matches Ok(body) ==> exists|sig: Seq<char>|
            body@ == registration_request_json(
                config@.drone_pub_key,
                config@.unyt_pub_key,
                sig,
                ts,
            ),
        r matches Err(e) ==> e is Crypto,
{
    let payload = build_registration_sig_payload(
        config.drone_pub_key.as_str(),
        config.unyt_pub_key.as_str(),
        ts,
    );
    let sig = match key.sign(payload.as_str().as_bytes()) {
        Ok(s) => s,
        Err(e) => {
            return Err(e);
        },
    };
    let body = build_registration_request(
        config.drone_pub_key.as_str(),
        config.unyt_pub_key.as_str(),
        sig.as_str(),
        ts,
    );
    proof {
        assert(body@ == registration_request_json(
            config@.drone_pub_key,
            config@.unyt_pub_key,
            sig@,
            ts,
        ));
    }
    Ok(body)
}

/// Build a signed metrics request from a configuration and a batch of
/// proofs: the drone key signs, and stands as both signing and drone key;
/// the signature covers exactly the canonical-order signing payload for
/// the same keys, records and timestamp.
pub fn build_metrics_submission(
    config: &RuntimeConfig,
    key: &SecKey,
    proofs: &Vec<String>,
    ts: u64,
) -> (r: Result<String, Error>)
    ensures
        r matches Ok(body) ==> exists|sig: Seq<char>|
            body@ == metrics_request_json(
                config@.drone_pub_key,
                config@.unyt_pub_key,
                config@.drone_pub_key,
                proofs.deep_view(),
                sig,
                ts,
            ),
        r matches Err(e) ==> e is Crypto,
{
    let payload = build_metrics_sig_payload(
        config.drone_pub_key.as_str(),
        config.unyt_pub_key.as_str(),
        config.drone_pub_key.as_str(),
        proofs,
        ts,
    );
    let sig = match key.sign(payload.as_str().as_bytes()) {
        Ok(s) => s,
        Err(e) => {
            return Err(e);
        },
    };
    let body = build_metrics_request(
        config.drone_pub_key.as_str(),
        config.unyt_pub_key.as_str(),
        config.drone_pub_key.as_str(),
        proofs,
        sig.as_str(),
        ts,
    );
    proof {
        assert(body@ == metrics_request_json(
            config@.drone_pub_key,
            config@.unyt_pub_key,
            config@.drone_pub_key,
            proofs.deep_view(),
            sig@,
            ts,
        ));
    }
    Ok(body)
}

/// Validate a health response body's status field: healthy or an error.
pub fn check_health_status(status: &str) -> (r: Result<(), Error>)
    ensures
        r is Ok <==> status@ == "healthy"@,
        r matches Err(e) ==> e is Protocol,
{
    let given = String::from_str(status);
    let expected = String::from_str("healthy");
    if given == expected {
        Ok(())
    } else {
        Err(Error::Protocol(String::from_str("bad server status: ").concat(status)))
    }
}

/// Validate a decoded registration response: the id on success, an error
/// on a well-formed but unsuccessful body.
pub fn check_registration_response(success: bool, id: u64) -> (r: Result<u64, Error>)
    ensures
        success <==> r is Ok,
        r matches Ok(got) ==> got == id,
        r matches Err(e) ==> e is Protocol,
{
    if success {
        Ok(id)
    } else {
        Err(Error::Protocol(String::from_str("registration was not successful")))
    }
}

/// Validate a decoded metrics response: success or an error.
pub fn check_metrics_response(success: bool) -> (r: Result<(), Error>)
    ensures
        success <==> r is Ok,
        r matches Err(e) ==> e is Protocol,
{
    if success {
        Ok(())
    } else {
        Err(Error::Protocol(String::from_str("metrics submission was not successful")))
    }
}

} // verus!
