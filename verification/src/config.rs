//! The runtime configuration record and its on-disk JSON form.
//!
//! The record is persisted as one canonical JSON object with a fixed field
//! order; `encode_runtime_config` writes that form and
//! `parse_runtime_config` reads it back, and parsing what was encoded is
//! proved to be the identity.  The parser accepts exactly the canonical
//! text this library writes — the store owns its file, which is rewritten
//! whole on every change, so no other writer's formatting is supported.
//! Opening, locking and rewriting the backing file stay outside the
//! library, which only turns records into text and back.

use vstd::prelude::*;

use crate::jsontext::{
    quote_str, encode_str_array, parse_lit_at, parse_quoted_at, parse_number_at, parse_str_array,
    append_quoted, append_str_array, expect_lit, parse_quoted, parse_number, parse_string_array,
    lemma_parse_string_body_bounds, lemma_digits_end_facts, lemma_parse_str_array_bounds,
    lemma_parse_quoted, lemma_parse_number, lemma_parse_str_array, cat_offset,
    lemma_flatten_piece, lemma_cat_total_len,
};
use crate::numstr::{u64_digits, format_u64, is_dec_digit};

verus! {

/// The mathematical content of a configuration record.
pub ghost struct ConfigModel {
    /// Collector endpoint URL.
    pub endpoint: Seq<char>,
    /// Encoded drone public key.
    pub drone_pub_key: Seq<char>,
    /// Encoded drone secret key.
    pub drone_sec_key: Seq<char>,
    /// Counterparty public key.
    pub unyt_pub_key: Seq<char>,
    /// Drone id, zero until registered.
    pub drone_id: u64,
    /// Seconds between reporting cycles.
    pub report_interval_seconds: u64,
    /// Last acknowledged watermark, as decimal text.
    pub last_record_timestamp: Seq<char>,
    /// Directories scanned for record files.
    pub report_path_list: Seq<Seq<char>>,
    /// Paths of external probe configurations.
    pub conductor_config_path_list: Seq<Seq<char>>,
}

/// Runtime configuration.
pub struct RuntimeConfig {
    /// Log collector endpoint.
    pub endpoint: String,
    /// Drone public key.
    pub drone_pub_key: String,
    /// Drone secret key.
    pub drone_sec_key: String,
    /// Unyt public key.
    pub unyt_pub_key: String,
    /// Drone id.
    pub drone_id: u64,
    /// Report interval seconds.
    pub report_interval_seconds: u64,
    /// Last record timestamp sent.
    pub last_record_timestamp: String,
    /// Directories scanned for record files.
    pub report_path_list: Vec<String>,
    /// Paths of external probe configurations.
    pub conductor_config_path_list: Vec<String>,
}

impl View for RuntimeConfig {
    type V = ConfigModel;

    open spec fn view(&self) -> ConfigModel {
        ConfigModel {
            endpoint: self.endpoint@,
            drone_pub_key: self.drone_pub_key@,
            drone_sec_key: self.drone_sec_key@,
            unyt_pub_key: self.unyt_pub_key@,
            drone_id: self.drone_id,
            report_interval_seconds: self.report_interval_seconds,
            last_record_timestamp: self.last_record_timestamp@,
            report_path_list: self.report_path_list.deep_view(),
            conductor_config_path_list: self.conductor_config_path_list.deep_view(),
        }
    }
}

impl RuntimeConfig {
    /// Create a new runtime configuration instance, with a zero watermark.
    pub fn with_init(
        endpoint: String,
        drone_pub_key: String,
        drone_sec_key: String,
        unyt_pub_key: String,
        drone_id: u64,
        report_interval_seconds: u64,
        report_path_list: Vec<String>,
        conductor_config_path_list: Vec<String>,
    ) -> (r: Self)
        ensures
            r@.endpoint == endpoint@,
            r@.drone_pub_key == drone_pub_key@,
            r@.drone_sec_key == drone_sec_key@,
            r@.unyt_pub_key == unyt_pub_key@,
            r@.drone_id == drone_id,
            r@.report_interval_seconds == report_interval_seconds,
            r@.last_record_timestamp == "0"@,
            r@.report_path_list == report_path_list.deep_view(),
            r@.conductor_config_path_list == conductor_config_path_list.deep_view(),
    {
        Self {
            endpoint,
            drone_pub_key,
            drone_sec_key,
            unyt_pub_key,
            drone_id,
            report_interval_seconds,
            last_record_timestamp: String::from_str("0"),
            report_path_list,
            conductor_config_path_list,
        }
    }
}

/// The opening of the record object, up to the endpoint value.
pub open spec fn lit_endpoint() -> Seq<char> {
    "{\"endpoint\":"@
}

/// The key of the drone public key field.
pub open spec fn lit_drone_pub_key() -> Seq<char> {
    ",\"dronePubKey\":"@
}

/// The key of the drone secret key field.
pub open spec fn lit_drone_sec_key() -> Seq<char> {
    ",\"droneSecKey\":"@
}

/// The key of the counterparty public key field.
pub open spec fn lit_unyt_pub_key() -> Seq<char> {
    ",\"unytPubKey\":"@
}

/// The key of the drone id field.
pub open spec fn lit_drone_id() -> Seq<char> {
    ",\"droneId\":"@
}

/// The key of the report interval field.
pub open spec fn lit_report_interval() -> Seq<char> {
    ",\"reportIntervalSeconds\":"@
}

/// The key of the watermark field.
pub open spec fn lit_last_record_timestamp() -> Seq<char> {
    ",\"lastRecordTimestamp\":"@
}

/// The key of the report directory list field.
pub open spec fn lit_report_path_list() -> Seq<char> {
    ",\"reportPathList\":"@
}

/// The key of the probe configuration list field.
pub open spec fn lit_conductor_config_path_list() -> Seq<char> {
    ",\"conductorConfigPathList\":"@
}

/// The closing brace of the record object.
pub open spec fn lit_close() -> Seq<char> {
    "}"@
}

/// The pieces of the canonical JSON text of a record, in order: literal
/// key fragments alternating with encoded field values.
pub open spec fn config_pieces(m: ConfigModel) -> Seq<Seq<char>> {
    seq![
        lit_endpoint(),
        quote_str(m.endpoint),
        lit_drone_pub_key(),
        quote_str(m.drone_pub_key),
        lit_drone_sec_key(),
        quote_str(m.drone_sec_key),
        lit_unyt_pub_key(),
        quote_str(m.unyt_pub_key),
        lit_drone_id(),
        u64_digits(m.drone_id),
        lit_report_interval(),
        u64_digits(m.report_interval_seconds),
        lit_last_record_timestamp(),
        quote_str(m.last_record_timestamp),
        lit_report_path_list(),
        encode_str_array(m.report_path_list),
        lit_conductor_config_path_list(),
        encode_str_array(m.conductor_config_path_list),
        lit_close(),
    ]
}

/// The canonical JSON text of a configuration record: one object with a
/// fixed field order, string values quoted and escaped, numbers in
/// decimal, path lists as string arrays.
pub open spec fn spec_config_json(m: ConfigModel) -> Seq<char> {
    config_pieces(m).flatten()
}

/// What the strict parser makes of a full configuration text: the record,
/// provided every field parses in order and the text ends at the brace.
pub open spec fn parse_config_json(s: Seq<char>) -> Option<ConfigModel> {
    match parse_lit_at(s, 0, lit_endpoint()) {
        Some(i1) => match parse_quoted_at(s, i1) {
            Some(endpoint) => match parse_lit_at(s, endpoint.1, lit_drone_pub_key()) {
                Some(i2) => match parse_quoted_at(s, i2) {
                    Some(dpk) => match parse_lit_at(s, dpk.1, lit_drone_sec_key()) {
                        Some(i3) => match parse_quoted_at(s, i3) {
                            Some(dsk) => match parse_lit_at(s, dsk.1, lit_unyt_pub_key()) {
                                Some(i4) => match parse_quoted_at(s, i4) {
                                    Some(upk) => match parse_lit_at(s, upk.1, lit_drone_id()) {
                                        Some(i5) => match parse_number_at(s, i5) {
                                            Some(id) => match parse_lit_at(
                                                s,
                                                id.1,
                                                lit_report_interval(),
                                            ) {
                                                Some(i6) => match parse_number_at(s, i6) {
                                                    Some(interval) => match parse_lit_at(
                                                        s,
                                                        interval.1,
                                                        lit_last_record_timestamp(),
                                                    ) {
                                                        Some(i7) => match parse_quoted_at(s, i7) {
                                                            Some(wm) => match parse_lit_at(
                                                                s,
                                                                wm.1,
                                                                lit_report_path_list(),
                                                            ) {
                                                                Some(i8) => match parse_str_array(
                                                                    s,
                                                                    i8,
                                                                ) {
                                                                    Some(rpl) => match parse_lit_at(
                                                                        s,
                                                                        rpl.1,
                                                                        lit_conductor_config_path_list(),
                                                                    ) {
                                                                        Some(i9) => match parse_str_array(
                                                                            s,
                                                                            i9,
                                                                        ) {
                                                                            Some(ccpl) => match parse_lit_at(
                                                                                s,
                                                                                ccpl.1,
                                                                                lit_close(),
                                                                            ) {
                                                                                Some(end) => if end
                                                                                    == s.len() {
                                                                                    Some(
                                                                                        ConfigModel {
                                                                                            endpoint: endpoint.0,
                                                                                            drone_pub_key: dpk.0,
                                                                                            drone_sec_key: dsk.0,
                                                                                            unyt_pub_key: upk.0,
                                                                                            drone_id: id.0,
                                                                                            report_interval_seconds: interval.0,
                                                                                            last_record_timestamp: wm.0,
                                                                                            report_path_list: rpl.0,
                                                                                            conductor_config_path_list: ccpl.0,
                                                                                        },
                                                                                    )
                                                                                } else {
                                                                                    None
                                                                                },
                                                                                None => None,
                                                                            },
                                                                            None => None,
                                                                        },
                                                                        None => None,
                                                                    },
                                                                    None => None,
                                                                },
                                                                None => None,
                                                            },
                                                            None => None,
                                                        },
                                                        None => None,
                                                    },
                                                    None => None,
                                                },
                                                None => None,
                                            },
                                            None => None,
                                        },
                                        None => None,
                                    },
                                    None => None,
                                },
                                None => None,
                            },
                            None => None,
                        },
                        None => None,
                    },
                    None => None,
                },
                None => None,
            },
            None => None,
        },
        None => None,
    }
}

/// Render a configuration record in its canonical JSON form.
pub fn encode_runtime_config(c: &RuntimeConfig) -> (r: String)
    ensures
        r@ == spec_config_json(c@),
{
    broadcast use Seq::<Seq<char>>::lemma_flatten_push;

    let ghost pieces = config_pieces(c@);
    let mut out = String::new();
    proof {
        assert(out@ =~= pieces.take(0).flatten());
    }
    out.append("{\"endpoint\":");
    proof {
        assert(pieces.take(1) =~= pieces.take(0).push(pieces[0]));
        assert(out@ =~= pieces.take(1).flatten());
    }
    append_quoted(&mut out, c.endpoint.as_str());
    proof {
        assert(pieces.take(2) =~= pieces.take(1).push(pieces[1]));
        assert(out@ =~= pieces.take(2).flatten());
    }
    out.append(",\"dronePubKey\":");
    proof {
        assert(pieces.take(3) =~= pieces.take(2).push(pieces[2]));
        assert(out@ =~= pieces.take(3).flatten());
    }
    append_quoted(&mut out, c.drone_pub_key.as_str());
    proof {
        assert(pieces.take(4) =~= pieces.take(3).push(pieces[3]));
        assert(out@ =~= pieces.take(4).flatten());
    }
    out.append(",\"droneSecKey\":");
    proof {
        assert(pieces.take(5) =~= pieces.take(4).push(pieces[4]));
        assert(out@ =~= pieces.take(5).flatten());
    }
    append_quoted(&mut out, c.drone_sec_key.as_str());
    proof {
        assert(pieces.take(6) =~= pieces.take(5).push(pieces[5]));
        assert(out@ =~= pieces.take(6).flatten());
    }
    out.append(",\"unytPubKey\":");
    proof {
        assert(pieces.take(7) =~= pieces.take(6).push(pieces[6]));
        assert(out@ =~= pieces.take(7).flatten());
    }
    append_quoted(&mut out, c.unyt_pub_key.as_str());
    proof {
        assert(pieces.take(8) =~= pieces.take(7).push(pieces[7]));
        assert(out@ =~= pieces.take(8).flatten());
    }
    out.append(",\"droneId\":");
    proof {
        assert(pieces.take(9) =~= pieces.take(8).push(pieces[8]));
        assert(out@ =~= pieces.take(9).flatten());
    }
    let id = format_u64(c.drone_id);
    out.append(id.as_str());
    proof {
        assert(pieces.take(10) =~= pieces.take(9).push(pieces[9]));
        assert(out@ =~= pieces.take(10).flatten());
    }
    out.append(",\"reportIntervalSeconds\":");
    proof {
        assert(pieces.take(11) =~= pieces.take(10).push(pieces[10]));
        assert(out@ =~= pieces.take(11).flatten());
    }
    let interval = format_u64(c.report_interval_seconds);
    out.append(interval.as_str());
    proof {
        assert(pieces.take(12) =~= pieces.take(11).push(pieces[11]));
        assert(out@ =~= pieces.take(12).flatten());
    }
    out.append(",\"lastRecordTimestamp\":");
    proof {
        assert(pieces.take(13) =~= pieces.take(12).push(pieces[12]));
        assert(out@ =~= pieces.take(13).flatten());
    }
    append_quoted(&mut out, c.last_record_timestamp.as_str());
    proof {
        assert(pieces.take(14) =~= pieces.take(13).push(pieces[13]));
        assert(out@ =~= pieces.take(14).flatten());
    }
    out.append(",\"reportPathList\":");
    proof {
        assert(pieces.take(15) =~= pieces.take(14).push(pieces[14]));
        assert(out@ =~= pieces.take(15).flatten());
    }
    append_str_array(&mut out, &c.report_path_list);
    proof {
        assert(pieces.take(16) =~= pieces.take(15).push(pieces[15]));
        assert(out@ =~= pieces.take(16).flatten());
    }
    out.append(",\"conductorConfigPathList\":");
    proof {
        assert(pieces.take(17) =~= pieces.take(16).push(pieces[16]));
        assert(out@ =~= pieces.take(17).flatten());
    }
    append_str_array(&mut out, &c.conductor_config_path_list);
    proof {
        assert(pieces.take(18) =~= pieces.take(17).push(pieces[17]));
        assert(out@ =~= pieces.take(18).flatten());
    }
    out.append("}");
    proof {
        assert(pieces.take(19) =~= pieces.take(18).push(pieces[18]));
        assert(out@ =~= pieces.take(19).flatten());
        assert(pieces.take(19) =~= pieces);
    }
    out
}

/// Parse the canonical JSON form back into a configuration record.
pub fn parse_runtime_config(s: &str) -> (r: Option<RuntimeConfig>)
    ensures
        r is Some <==> parse_config_json(s@) is Some,
        r matches Some(c) ==> parse_config_json(s@) == Some(c@),
{
    let len = s.unicode_len();
    let i1 = match expect_lit(s, 0, "{\"endpoint\":") {
        Some(k) => k,
        None => {
            return None;
        },
    };
    let (endpoint, j1) = match parse_quoted(s, i1) {
        Some(p) => p,
        None => {
            return None;
        },
    };
    proof {
        lemma_parse_string_body_bounds(s@, i1 + 1);
    }
    let i2 = match expect_lit(s, j1, ",\"dronePubKey\":") {
        Some(k) => k,
        None => {
            return None;
        },
    };
    let (drone_pub_key, j2) = match parse_quoted(s, i2) {
        Some(p) => p,
        None => {
            return None;
        },
    };
    proof {
        lemma_parse_string_body_bounds(s@, i2 + 1);
    }
    let i3 = match expect_lit(s, j2, ",\"droneSecKey\":") {
        Some(k) => k,
        None => {
            return None;
        },
    };
    let (drone_sec_key, j3) = match parse_quoted(s, i3) {
        Some(p) => p,
        None => {
            return None;
        },
    };
    proof {
        lemma_parse_string_body_bounds(s@, i3 + 1);
    }
    let i4 = match expect_lit(s, j3, ",\"unytPubKey\":") {
        Some(k) => k,
        None => {
            return None;
        },
    };
    let (unyt_pub_key, j4) = match parse_quoted(s, i4) {
        Some(p) => p,
        None => {
            return None;
        },
    };
    proof {
        lemma_parse_string_body_bounds(s@, i4 + 1);
    }
    let i5 = match expect_lit(s, j4, ",\"droneId\":") {
        Some(k) => k,
        None => {
            return None;
        },
    };
    let (drone_id, j5) = match parse_number(s, i5) {
        Some(p) => p,
        None => {
            return None;
        },
    };
    proof {
        lemma_digits_end_facts(s@, i5 as int);
    }
    let i6 = match expect_lit(s, j5, ",\"reportIntervalSeconds\":") {
        Some(k) => k,
        None => {
            return None;
        },
    };
    let (report_interval_seconds, j6) = match parse_number(s, i6) {
        Some(p) => p,
        None => {
            return None;
        },
    };
    proof {
        lemma_digits_end_facts(s@, i6 as int);
    }
    let i7 = match expect_lit(s, j6, ",\"lastRecordTimestamp\":") {
        Some(k) => k,
        None => {
            return None;
        },
    };
    let (last_record_timestamp, j7) = match parse_quoted(s, i7) {
        Some(p) => p,
        None => {
            return None;
        },
    };
    proof {
        lemma_parse_string_body_bounds(s@, i7 + 1);
    }
    let i8 = match expect_lit(s, j7, ",\"reportPathList\":") {
        Some(k) => k,
        None => {
            return None;
        },
    };
    let (report_path_list, j8) = match parse_string_array(s, i8) {
        Some(p) => p,
        None => {
            return None;
        },
    };
    proof {
        lemma_parse_str_array_bounds(s@, i8 as int);
    }
    let i9 = match expect_lit(s, j8, ",\"conductorConfigPathList\":") {
        Some(k) => k,
        None => {
            return None;
        },
    };
    let (conductor_config_path_list, j9) = match parse_string_array(s, i9) {
        Some(p) => p,
        None => {
            return None;
        },
    };
    proof {
        lemma_parse_str_array_bounds(s@, i9 as int);
    }
    let end = match expect_lit(s, j9, "}") {
        Some(k) => k,
        None => {
            return None;
        },
    };
    if end != len {
        return None;
    }
    let c = RuntimeConfig {
        endpoint,
        drone_pub_key,
        drone_sec_key,
        unyt_pub_key,
        drone_id,
        report_interval_seconds,
        last_record_timestamp,
        report_path_list,
        conductor_config_path_list,
    };
    Some(c)
}

/// Round trip: the canonical JSON text of any record parses back to a
/// record equal in every field.  Writing a configuration and reloading it
/// is the identity on the record.
#[verifier::rlimit(100)]
pub proof fn lemma_config_round_trip(m: ConfigModel)
    ensures
        parse_config_json(spec_config_json(m)) == Some(m),
{
    let pieces = config_pieces(m);
    let s = spec_config_json(m);
    lemma_cat_total_len(pieces);
    assert(cat_offset(pieces, 0) == 0);
    assert(cat_offset(pieces, 1) == cat_offset(pieces, 0) + pieces[0].len());
    assert(cat_offset(pieces, 2) == cat_offset(pieces, 1) + pieces[1].len());
    assert(cat_offset(pieces, 3) == cat_offset(pieces, 2) + pieces[2].len());
    assert(cat_offset(pieces, 4) == cat_offset(pieces, 3) + pieces[3].len());
    assert(cat_offset(pieces, 5) == cat_offset(pieces, 4) + pieces[4].len());
    assert(cat_offset(pieces, 6) == cat_offset(pieces, 5) + pieces[5].len());
    assert(cat_offset(pieces, 7) == cat_offset(pieces, 6) + pieces[6].len());
    assert(cat_offset(pieces, 8) == cat_offset(pieces, 7) + pieces[7].len());
    assert(cat_offset(pieces, 9) == cat_offset(pieces, 8) + pieces[8].len());
    assert(cat_offset(pieces, 10) == cat_offset(pieces, 9) + pieces[9].len());
    assert(cat_offset(pieces, 11) == cat_offset(pieces, 10) + pieces[10].len());
    assert(cat_offset(pieces, 12) == cat_offset(pieces, 11) + pieces[11].len());
    assert(cat_offset(pieces, 13) == cat_offset(pieces, 12) + pieces[12].len());
    assert(cat_offset(pieces, 14) == cat_offset(pieces, 13) + pieces[13].len());
    assert(cat_offset(pieces, 15) == cat_offset(pieces, 14) + pieces[14].len());
    assert(cat_offset(pieces, 16) == cat_offset(pieces, 15) + pieces[15].len());
    assert(cat_offset(pieces, 17) == cat_offset(pieces, 16) + pieces[16].len());
    assert(cat_offset(pieces, 18) == cat_offset(pieces, 17) + pieces[17].len());
    assert(cat_offset(pieces, 19) == cat_offset(pieces, 18) + pieces[18].len());
    lemma_flatten_piece(pieces, 0);
    lemma_flatten_piece(pieces, 1);
    lemma_flatten_piece(pieces, 2);
    lemma_flatten_piece(pieces, 3);
    lemma_flatten_piece(pieces, 4);
    lemma_flatten_piece(pieces, 5);
    lemma_flatten_piece(pieces, 6);
    lemma_flatten_piece(pieces, 7);
    lemma_flatten_piece(pieces, 8);
    lemma_flatten_piece(pieces, 9);
    lemma_flatten_piece(pieces, 10);
    lemma_flatten_piece(pieces, 11);
    lemma_flatten_piece(pieces, 12);
    lemma_flatten_piece(pieces, 13);
    lemma_flatten_piece(pieces, 14);
    lemma_flatten_piece(pieces, 15);
    lemma_flatten_piece(pieces, 16);
    lemma_flatten_piece(pieces, 17);
    lemma_flatten_piece(pieces, 18);
    lemma_parse_quoted(s, m.endpoint, cat_offset(pieces, 1));
    lemma_parse_quoted(s, m.drone_pub_key, cat_offset(pieces, 3));
    lemma_parse_quoted(s, m.drone_sec_key, cat_offset(pieces, 5));
    lemma_parse_quoted(s, m.unyt_pub_key, cat_offset(pieces, 7));
    reveal_strlit(",\"reportIntervalSeconds\":");
    assert(s.subrange(cat_offset(pieces, 10), cat_offset(pieces, 10) + pieces[10].len())[0] == s[
        cat_offset(pieces, 10)
    ]);
    assert(s[cat_offset(pieces, 10)] == ',');
    assert(!is_dec_digit(','));
    lemma_parse_number(s, m.drone_id, cat_offset(pieces, 9));
    reveal_strlit(",\"lastRecordTimestamp\":");
    assert(s.subrange(cat_offset(pieces, 12), cat_offset(pieces, 12) + pieces[12].len())[0] == s[
        cat_offset(pieces, 12)
    ]);
    assert(s[cat_offset(pieces, 12)] == ',');
    lemma_parse_number(s, m.report_interval_seconds, cat_offset(pieces, 11));
    lemma_parse_quoted(s, m.last_record_timestamp, cat_offset(pieces, 13));
    lemma_parse_str_array(s, m.report_path_list, cat_offset(pieces, 15));
    lemma_parse_str_array(s, m.conductor_config_path_list, cat_offset(pieces, 17));
    assert(cat_offset(pieces, 19) == s.len());
    assert(parse_config_json(s) == Some(m));
}

} // verus!
