//! The incremental reader: filters record lines against a watermark and
//! groups the eligible ones into bounded batches.
//!
//! A line is eligible when it is a JSON object whose `"k"` field is the
//! string `"fetchedOps"` and whose `"t"` field is a decimal timestamp
//! strictly greater than the watermark.  Everything else is silently
//! skipped: tolerance for unknown line shapes is deliberate.  The caller
//! hands in the lines of every record file in scan order; file and
//! directory traversal stay outside the library.

use vstd::prelude::*;
use vstd::seq_lib::*;

use crate::error::Error;
use crate::numstr::{parse_u64, format_u64, spec_parse_u64, u64_digits, lemma_u64_round_trip};

verus! {

/// Most proofs a batch may hold; a full batch is submitted at once.
pub const BATCH_SIZE: usize = 100;

/// What the permissive JSON parse of a record line yields for one string
/// field: `Some` exactly when the line is a JSON object carrying `key`
/// with a string value, and then that value.
pub uninterp spec fn json_str_field(line: Seq<char>, key: Seq<char>) -> Option<Seq<char>>;

/// Relies on `serde_json::from_str::<serde_json::Value>` together with the
/// `Object` and `String` variants of `serde_json::Value`: looks `key` up in
/// the line parsed as a JSON object, yielding its string value, and `None`
/// when the line is not an object, the key is absent, or the value is not
/// a string.
#[verifier::external_body]
fn json_string_field(line: &str, key: &str) -> (r: Option<String>)
    ensures
        r is Some <==> json_str_field(line@, key@) is Some,
        r matches Some(s) ==> json_str_field(line@, key@) == Some(s@),
{
    match serde_json::from_str::<serde_json::Value>(line) {
        Ok(serde_json::Value::Object(map)) => match map.get(key) {
            Some(serde_json::Value::String(s)) => Some(s.clone()),
            _ => None,
        },
        _ => None,
    }
}

/// Whether the line carries the recognized producer tag.
pub open spec fn line_is_report(line: Seq<char>) -> bool {
    json_str_field(line, "k"@) == Some("fetchedOps"@)
}

/// The parsed timestamp of the line, when its `"t"` field is a string
/// holding a decimal integer.
pub open spec fn line_timestamp(line: Seq<char>) -> Option<u64> {
    match json_str_field(line, "t"@) {
        Some(t) => spec_parse_u64(t),
        None => None,
    }
}

/// Whether the line is harvested against `watermark`: recognized tag and a
/// timestamp strictly beyond the watermark.
pub open spec fn line_eligible(line: Seq<char>, watermark: u64) -> bool {
    &&& line_is_report(line)
    &&& match line_timestamp(line) {
        Some(t) => t > watermark,
        None => false,
    }
}

/// The eligibility test against `watermark`, as a predicate value.
pub open spec fn eligible_pred(watermark: u64) -> spec_fn(Seq<char>) -> bool {
    |line: Seq<char>| line_eligible(line, watermark)
}

/// The eligible lines of a pass, in scan order.
pub open spec fn eligible_lines(lines: Seq<Seq<char>>, watermark: u64) -> Seq<Seq<char>> {
    lines.filter(eligible_pred(watermark))
}

/// The watermark a pass over `lines` ends with: the maximum eligible
/// timestamp, or `watermark` itself when nothing is eligible.
pub open spec fn pass_watermark(lines: Seq<Seq<char>>, watermark: u64) -> u64
    decreases lines.len(),
{
    if lines.len() == 0 {
        watermark
    } else {
        let prev = pass_watermark(lines.drop_last(), watermark);
        if line_eligible(lines.last(), watermark) {
            match line_timestamp(lines.last()) {
                Some(t) => if t > prev { t } else { prev },
                None => prev,
            }
        } else {
            prev
        }
    }
}

/// The shape every batch list has: nothing empty, nothing over the bound,
/// and only the last batch may fall short of the bound.
pub open spec fn batches_shaped(batches: Seq<Seq<Seq<char>>>) -> bool {
    &&& forall|i: int| 0 <= i < batches.len() ==> 1 <= (#[trigger] batches[i]).len() <= BATCH_SIZE
    &&& forall|i: int| 0 <= i < batches.len() - 1 ==> (#[trigger] batches[i]).len() == BATCH_SIZE
}

/// The whole contract of one successful pass: the batches hold exactly the
/// eligible lines in scan order, they are as many as the bound demands,
/// and the new watermark is the maximum eligible timestamp.
pub open spec fn read_outcome_ok(
    lines: Seq<Seq<char>>,
    watermark: u64,
    batches: Seq<Seq<Seq<char>>>,
    new_watermark: u64,
) -> bool {
    &&& batches.flatten() == eligible_lines(lines, watermark)
    &&& batches_shaped(batches)
    &&& batches.len() == (eligible_lines(lines, watermark).len() + BATCH_SIZE - 1) / (
    BATCH_SIZE as int)
    &&& new_watermark == pass_watermark(lines, watermark)
}

/// What one pass of the reader produced: the batches to submit, in order,
/// and the watermark to persist once every batch went through.
pub struct ReadOutcome {
    /// The eligible lines, verbatim, grouped into submission batches.
    pub batches: Vec<Vec<String>>,
    /// The new watermark, rendered as a decimal string.
    pub new_watermark: String,
}

/// One reader pass over the lines of every record file, in scan order.
///
/// Fails only when `ignore_before` is not a decimal integer; otherwise the
/// outcome is pinned by `read_outcome_ok`.
pub fn read_reports(lines: &Vec<String>, ignore_before: &str) -> (r: Result<ReadOutcome, Error>)
    ensures
        r is Ok <==> spec_parse_u64(ignore_before@) is Some,
        r matches Err(e) ==> e is Corrupt,
        r matches Ok(out) ==> {
            &&& spec_parse_u64(ignore_before@) matches Some(wm)
            &&& read_outcome_ok(
                lines.deep_view(),
                wm,
                out.batches.deep_view(),
                pass_watermark(lines.deep_view(), wm),
            )
            &&& out.new_watermark@ == u64_digits(pass_watermark(lines.deep_view(), wm))
            &&& spec_parse_u64(out.new_watermark@) == Some(
                pass_watermark(lines.deep_view(), wm),
            )
        },
{
    broadcast use vstd::std_specs::vec::group_vec_axioms;

    let wm: u64 = match parse_u64(ignore_before) {
        Some(w) => w,
        None => {
            return Err(Error::Corrupt(String::from_str("watermark is not a decimal integer")));
        },
    };
    let ghost lv = lines.deep_view();
    let fetched = String::from_str("fetchedOps");
    let mut batches: Vec<Vec<String>> = Vec::new();
    let mut current: Vec<String> = Vec::new();
    let mut max_wm: u64 = wm;
    let mut i: usize = 0;
    while i < lines.len()
        invariant
            i <= lines.len(),
            lv == lines.deep_view(),
            fetched@ == "fetchedOps"@,
            batches.deep_view().flatten() + current.deep_view() =~= eligible_lines(
                lv.take(i as int),
                wm,
            ),
            forall|k: int|
                0 <= k < batches.deep_view().len() ==> (#[trigger] batches.deep_view()[k]).len()
                    == BATCH_SIZE,
            current.deep_view().len() < BATCH_SIZE,
            batches.deep_view().len() * BATCH_SIZE + current.deep_view().len() == eligible_lines(
                lv.take(i as int),
                wm,
            ).len(),
            max_wm == pass_watermark(lv.take(i as int), wm),
        decreases lines.len() - i,
    {
        let line = &lines[i];
        proof {
            assert(lv[i as int] == line@);
            assert(lv.take(i + 1).drop_last() =~= lv.take(i as int));
            assert(lv.take(i + 1).last() == lv[i as int]);
            assert(lv.take(i + 1) =~= lv.take(i as int).push(lv[i as int]));
            lv.take(i as int).lemma_filter_push(lv[i as int], eligible_pred(wm));
        }
        let mut eligible_t: Option<u64> = None;
        if let Some(k) = json_string_field(line.as_str(), "k") {
            if k == fetched {
                if let Some(ts) = json_string_field(line.as_str(), "t") {
                    if let Some(t) = parse_u64(ts.as_str()) {
                        if t > wm {
                            eligible_t = Some(t);
                        }
                    }
                }
            }
        }
        proof {
            assert(eligible_t matches Some(t) ==> line_eligible(lv[i as int], wm)
                && line_timestamp(lv[i as int]) == Some(t));
            assert(eligible_t is None ==> !line_eligible(lv[i as int], wm));
        }
        match eligible_t {
            Some(t) => {
                if t > max_wm {
                    max_wm = t;
                }
                let ghost old_batches = batches.deep_view();
                let ghost old_current = current.deep_view();
                current.push(line.clone());
                proof {
                    assert(current.deep_view() =~= old_current.push(lv[i as int]));
                }
                if current.len() == BATCH_SIZE {
                    let full = current;
                    current = Vec::new();
                    batches.push(full);
                    proof {
                        assert(batches.deep_view() =~= old_batches.push(
                            old_current.push(lv[i as int]),
                        ));
                        old_batches.lemma_flatten_push(old_current.push(lv[i as int]));
                        assert(current.deep_view() =~= Seq::<Seq<char>>::empty());
                        assert(batches.deep_view().flatten() + current.deep_view()
                            =~= eligible_lines(lv.take(i + 1), wm));
                        assert(batches.deep_view().len() == old_batches.len() + 1);
                    }
                }
            },
            None => {
            },
        }
        i = i + 1;
    }
    let ghost el = eligible_lines(lv, wm);
    let ghost full_count = batches.deep_view().len();
    let ghost rem = current.deep_view().len();
    proof {
        assert(lv.take(i as int) =~= lv);
    }
    if current.len() > 0 {
        let ghost old_batches = batches.deep_view();
        let ghost old_current = current.deep_view();
        batches.push(current);
        proof {
            assert(batches.deep_view() =~= old_batches.push(old_current));
            old_batches.lemma_flatten_push(old_current);
            assert(batches.deep_view().flatten() =~= el);
        }
    } else {
        proof {
            assert(batches.deep_view().flatten() + current.deep_view() =~= batches.deep_view()
                .flatten());
        }
    }
    proof {
        assert(batches.deep_view().len() == (el.len() + BATCH_SIZE - 1) / (BATCH_SIZE as int))
            by (nonlinear_arith)
            requires
                el.len() == full_count * BATCH_SIZE + rem,
                0 <= rem < BATCH_SIZE,
                BATCH_SIZE == 100,
                batches.deep_view().len() == full_count + if rem > 0 { 1int } else { 0int },
        ;
        lemma_u64_round_trip(max_wm);
    }
    let new_watermark = format_u64(max_wm);
    Ok(ReadOutcome { batches, new_watermark })
}

/// Monotonicity: whatever the lines hold, the watermark a pass returns is
/// never below the watermark it was given.
pub proof fn lemma_watermark_monotone(lines: Seq<Seq<char>>, watermark: u64)
    ensures
        pass_watermark(lines, watermark) >= watermark,
    decreases lines.len(),
{
    if lines.len() > 0 {
        lemma_watermark_monotone(lines.drop_last(), watermark);
    }
}

/// An element of any batch occurs in the flattened batch list.
proof fn lemma_flatten_element(batches: Seq<Seq<Seq<char>>>, i: int, j: int)
    requires
        0 <= i < batches.len(),
        0 <= j < batches[i].len(),
    ensures
        batches.flatten().contains(batches[i][j]),
    decreases batches.len(),
{
    if i == 0 {
        assert(batches.flatten()[j] == batches[0][j]);
    } else {
        lemma_flatten_element(batches.drop_first(), i - 1, j);
        let rest = batches.drop_first().flatten();
        let k = choose|k: int| 0 <= k < rest.len() && rest[k] == batches[i][j];
        assert(batches.flatten()[batches.first().len() + k] == batches[i][j]);
    }
}

/// Filtering: a line that is not eligible — missing or foreign tag,
/// unparsable timestamp, or a timestamp at or below the watermark — stands
/// in no batch of a successful pass.
pub proof fn lemma_ineligible_line_never_batched(
    lines: Seq<Seq<char>>,
    watermark: u64,
    batches: Seq<Seq<Seq<char>>>,
    new_watermark: u64,
    line: Seq<char>,
    i: int,
    j: int,
)
    requires
        read_outcome_ok(lines, watermark, batches, new_watermark),
        !line_eligible(line, watermark),
        0 <= i < batches.len(),
        0 <= j < batches[i].len(),
    ensures
        batches[i][j] != line,
{
    lemma_flatten_element(batches, i, j);
    let el = eligible_lines(lines, watermark);
    let k = choose|k: int| 0 <= k < el.len() && el[k] == batches[i][j];
    lines.lemma_filter_pred(eligible_pred(watermark), k);
}

/// Two shaped batch lists over the same flattened content are the same
/// list: batching is deterministic.
proof fn lemma_chunking_unique(b1: Seq<Seq<Seq<char>>>, b2: Seq<Seq<Seq<char>>>)
    requires
        b1.flatten() == b2.flatten(),
        batches_shaped(b1),
        batches_shaped(b2),
    ensures
        b1 == b2,
    decreases b1.len(),
{
    broadcast use vstd::seq_lib::group_seq_properties;

    if b1.len() == 0 {
        if b2.len() > 0 {
            lemma_flatten_element(b2, 0, 0);
        }
        assert(b1 =~= b2);
    } else if b2.len() == 0 {
        lemma_flatten_element(b1, 0, 0);
        assert(b1 =~= b2);
    } else {
        let flat = b1.flatten();
        assert(flat == b1.first() + b1.drop_first().flatten());
        assert(flat == b2.first() + b2.drop_first().flatten());
        if b1.len() == 1 && b2.len() == 1 {
            assert(b1.drop_first().flatten() =~= Seq::<Seq<char>>::empty());
            assert(b2.drop_first().flatten() =~= Seq::<Seq<char>>::empty());
            assert(b1.first() =~= b2.first());
            assert(b1 =~= b2);
        } else if b1.len() > 1 && b2.len() == 1 {
            lemma_flatten_element(b1, 1, 0);
            let rest = b1.drop_first().flatten();
            lemma_flatten_element(b1.drop_first(), 0, 0);
            assert(rest.len() >= 1);
            assert(flat.len() >= BATCH_SIZE + 1);
            assert(b2.drop_first().flatten() =~= Seq::<Seq<char>>::empty());
            assert(flat.len() == b2.first().len());
            assert(false);
        } else if b1.len() == 1 && b2.len() > 1 {
            lemma_flatten_element(b2.drop_first(), 0, 0);
            assert(b2.drop_first().flatten().len() >= 1);
            assert(flat.len() >= BATCH_SIZE + 1);
            assert(b1.drop_first().flatten() =~= Seq::<Seq<char>>::empty());
            assert(flat.len() == b1.first().len());
            assert(false);
        } else {
            assert(b1.first().len() == BATCH_SIZE);
            assert(b2.first().len() == BATCH_SIZE);
            assert forall|k: int| 0 <= k < BATCH_SIZE implies b1.first()[k] == b2.first()[k] by {
                assert((b1.first() + b1.drop_first().flatten())[k] == b1.first()[k]);
                assert((b2.first() + b2.drop_first().flatten())[k] == b2.first()[k]);
            }
            assert(b1.first() =~= b2.first());
            let r1 = b1.drop_first().flatten();
            let r2 = b2.drop_first().flatten();
            assert(r1.len() == flat.len() - BATCH_SIZE);
            assert(r2.len() == flat.len() - BATCH_SIZE);
            assert forall|k: int| 0 <= k < r1.len() implies r1[k] == r2[k] by {
                assert((b1.first() + r1)[BATCH_SIZE + k] == r1[k]);
                assert((b2.first() + r2)[BATCH_SIZE + k] == r2[k]);
            }
            assert(r1 =~= r2);
            assert(batches_shaped(b1.drop_first())) by {
                assert(forall|k: int|
                    0 <= k < b1.drop_first().len() ==> (#[trigger] b1.drop_first()[k]) == b1[k
                        + 1]);
            }
            assert(batches_shaped(b2.drop_first())) by {
                assert(forall|k: int|
                    0 <= k < b2.drop_first().len() ==> (#[trigger] b2.drop_first()[k]) == b2[k
                        + 1]);
            }
            lemma_chunking_unique(b1.drop_first(), b2.drop_first());
            assert(b1 =~= b2) by {
                assert(forall|k: int|
                    1 <= k < b1.len() ==> b1[k] == #[trigger] b1.drop_first()[k - 1] && b2[k]
                        == b2.drop_first()[k - 1]);
            }
        }
    }
}

/// Idempotence: a pass has no hidden effect, so two passes over the same
/// lines with the same watermark are bound to the very same outcome — the
/// same batches and the same returned watermark.
pub proof fn lemma_reader_idempotent(
    lines: Seq<Seq<char>>,
    watermark: u64,
    batches1: Seq<Seq<Seq<char>>>,
    new1: u64,
    batches2: Seq<Seq<Seq<char>>>,
    new2: u64,
)
    requires
        read_outcome_ok(lines, watermark, batches1, new1),
        read_outcome_ok(lines, watermark, batches2, new2),
    ensures
        batches1 == batches2,
        new1 == new2,
{
    lemma_chunking_unique(batches1, batches2);
}

} // verus!
