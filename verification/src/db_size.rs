//! Database-size reporting: normalizing file names, aggregating sizes per
//! database, and rendering the probe's report lines.
//!
//! The probe walks a database directory outside the library and hands in
//! the raw file names and sizes; everything that decides the report's
//! content — trimming the journal suffixes, summing per database, and the
//! exact line format — is verified here.

use vstd::prelude::*;

use crate::jsontext::quote_str;
use crate::numstr::{u64_digits, format_u64};

verus! {

/// What repeatedly trimming `suf` from the end of `s` leaves, as
/// `str::trim_end_matches` does.
pub open spec fn trim_end_matches_spec(s: Seq<char>, suf: Seq<char>) -> Seq<char>
    decreases s.len(),
    when suf.len() > 0
{
    if s.len() >= suf.len() && s.subrange(s.len() - suf.len(), s.len() as int) == suf {
        trim_end_matches_spec(s.take(s.len() - suf.len()), suf)
    } else {
        s
    }
}

/// Trim every repetition of `suf` from the end of `s`.
pub fn trim_end_matches_str(s: &str, suf: &str) -> (r: String)
    requires
        suf@.len() > 0,
    ensures
        r@ == trim_end_matches_spec(s@, suf@),
{
    let suflen = suf.unicode_len();
    let mut end = s.unicode_len();
    proof {
        assert(s@.take(end as int) =~= s@);
    }
    loop
        invariant
            end <= s@.len(),
            suflen == suf@.len(),
            suflen > 0,
            trim_end_matches_spec(s@, suf@) == trim_end_matches_spec(s@.take(end as int), suf@),
        ensures
            trim_end_matches_spec(s@, suf@) == s@.take(end as int),
        decreases end,
    {
        let ghost cur = s@.take(end as int);
        if end < suflen {
            proof {
                assert(trim_end_matches_spec(cur, suf@) == cur);
            }
            break ;
        }
        let mut matches = true;
        let mut j: usize = 0;
        while j < suflen
            invariant
                j <= suflen,
                suflen <= end <= s@.len(),
                suflen == suf@.len(),
                matches ==> forall|k: int| 0 <= k < j ==> s@[end - suflen + k] == suf@[k],
                !matches ==> exists|k: int|
                    0 <= k < suflen && s@[end - suflen + k] != suf@[k],
                !matches ==> j == suflen,
            decreases suflen - j,
        {
            if s.get_char(end - suflen + j) != suf.get_char(j) {
                proof {
                    assert(s@[end - suflen + j as int] != suf@[j as int]);
                }
                matches = false;
                j = suflen;
            } else {
                j = j + 1;
            }
        }
        if matches {
            proof {
                assert forall|k: int|
                    0 <= k < suflen implies cur.subrange(
                    cur.len() - suflen,
                    cur.len() as int,
                )[k] == suf@[k] by {
                    assert(cur.subrange(cur.len() - suflen, cur.len() as int)[k] == cur[cur.len()
                        - suflen + k]);
                    assert(cur[cur.len() - suflen + k] == s@[end - suflen + k]);
                }
                assert(cur.subrange(cur.len() - suflen, cur.len() as int) =~= suf@);
                assert(cur.take(cur.len() - suflen) =~= s@.take(end - suflen));
            }
            end = end - suflen;
        } else {
            proof {
                let tail = cur.subrange(cur.len() - suflen, cur.len() as int);
                let bad = choose|k: int| 0 <= k < suflen && s@[end - suflen + k] != suf@[k];
                assert(tail[bad] == cur[cur.len() - suflen + bad]);
                assert(cur[cur.len() - suflen + bad] == s@[end - suflen + bad]);
                assert(tail != suf@) by {
                    assert(tail[bad] != suf@[bad]);
                }
                assert(trim_end_matches_spec(cur, suf@) == cur);
            }
            break ;
        }
    }
    let kept = s.substring_char(0, end);
    let r = String::from_str(kept);
    proof {
        assert(r@ =~= s@.take(end as int));
    }
    r
}

/// The database name of a raw file name: the `-shm` repetitions trimmed,
/// then the `-wal` repetitions.
pub open spec fn db_space_name(name: Seq<char>) -> Seq<char> {
    trim_end_matches_spec(trim_end_matches_spec(name, "-shm"@), "-wal"@)
}

/// The database name of a raw file name, executably.
pub fn db_space_name_of(name: &str) -> (r: String)
    ensures
        r@ == db_space_name(name@),
{
    proof {
        reveal_strlit("-shm");
        reveal_strlit("-wal");
    }
    let shm_trimmed = trim_end_matches_str(name, "-shm");
    trim_end_matches_str(shm_trimmed.as_str(), "-wal")
}

/// Saturating addition: file sizes are summed without wrapping, pinned to
/// the maximum on overflow.
pub open spec fn sat_add(a: u64, b: u64) -> u64 {
    if a + b > u64::MAX {
        u64::MAX
    } else {
        (a + b) as u64
    }
}

/// The per-database totals of a list of raw file names and sizes, keyed by
/// the trimmed database name, in first-occurrence order.
pub open spec fn aggregate_spec(entries: Seq<(Seq<char>, u64)>) -> Seq<(Seq<char>, u64)>
    decreases entries.len(),
{
    if entries.len() == 0 {
        Seq::empty()
    } else {
        let prev = aggregate_spec(entries.drop_last());
        let key = db_space_name(entries.last().0);
        let v = entries.last().1;
        if exists|i: int| 0 <= i < prev.len() && prev[i].0 == key {
            let i = choose|i: int| 0 <= i < prev.len() && prev[i].0 == key;
            prev.update(i, (key, sat_add(prev[i].1, v)))
        } else {
            prev.push((key, v))
        }
    }
}

/// The keys of an aggregate are distinct.
pub open spec fn distinct_keys(agg: Seq<(Seq<char>, u64)>) -> bool {
    forall|i: int, j: int| 0 <= i < j < agg.len() ==> agg[i].0 != agg[j].0
}

/// Aggregation keeps its keys distinct.
pub proof fn lemma_aggregate_distinct(entries: Seq<(Seq<char>, u64)>)
    ensures
        distinct_keys(aggregate_spec(entries)),
    decreases entries.len(),
{
    if entries.len() > 0 {
        lemma_aggregate_distinct(entries.drop_last());
        let prev = aggregate_spec(entries.drop_last());
        let key = db_space_name(entries.last().0);
        if exists|i: int| 0 <= i < prev.len() && prev[i].0 == key {
            let i = choose|i: int| 0 <= i < prev.len() && prev[i].0 == key;
            assert(distinct_keys(prev.update(i, (key, sat_add(prev[i].1, entries.last().1)))))
                by {
                assert(prev.update(i, (key, sat_add(prev[i].1, entries.last().1)))[i].0 == prev[
                    i
                ].0);
            }
        }
    }
}

/// Aggregate raw file names and sizes into per-database totals.
pub fn aggregate_sizes(entries: &Vec<(String, u64)>) -> (r: Vec<(String, u64)>)
    ensures
        r@.len() == aggregate_spec(entries.deep_view()).len(),
        forall|i: int|
            0 <= i < r@.len() ==> (#[trigger] r@[i]).0@ == aggregate_spec(entries.deep_view())[
                i
            ].0 && r@[i].1 == aggregate_spec(entries.deep_view())[i].1,
{
    let ghost dv = entries.deep_view();
    let mut acc: Vec<(String, u64)> = Vec::new();
    let mut n: usize = 0;
    while n < entries.len()
        invariant
            n <= entries.len(),
            dv == entries.deep_view(),
            dv.len() == entries@.len(),
            acc@.len() == aggregate_spec(dv.take(n as int)).len(),
            forall|i: int|
                0 <= i < acc@.len() ==> (#[trigger] acc@[i]).0@ == aggregate_spec(
                    dv.take(n as int),
                )[i].0 && acc@[i].1 == aggregate_spec(dv.take(n as int))[i].1,
        decreases entries.len() - n,
    {
        let ghost prev = aggregate_spec(dv.take(n as int));
        proof {
            lemma_aggregate_distinct(dv.take(n as int));
            assert(dv.take(n + 1).drop_last() =~= dv.take(n as int));
            assert(dv.take(n + 1).last() == dv[n as int]);
            assert(dv[n as int] == (entries@[n as int].0@, entries@[n as int].1));
        }
        let entry = &entries[n];
        let key = db_space_name_of(entry.0.as_str());
        let v = entry.1;
        let mut found: Option<usize> = None;
        let mut j: usize = 0;
        while j < acc.len()
            invariant
                j <= acc@.len(),
                found is None ==> forall|i: int| 0 <= i < j ==> (#[trigger] acc@[i]).0@ != key@,
                found matches Some(f) ==> f < acc@.len() && acc@[f as int].0@ == key@,
            decreases acc@.len() - j,
        {
            if acc[j].0 == key {
                found = Some(j);
                j = acc.len();
            } else {
                j = j + 1;
            }
        }
        match found {
            Some(f) => {
                let old_v = acc[f].1;
                let new_v = if old_v > u64::MAX - v {
                    u64::MAX
                } else {
                    old_v + v
                };
                acc.set(f, (key, new_v));
                proof {
                    let widx = choose|i: int|
                        0 <= i < prev.len() && prev[i].0 == db_space_name(dv[n as int].0);
                    assert(prev[f as int].0 == key@);
                    assert(widx == f as int);
                    assert forall|i: int|
                        0 <= i < acc@.len() implies (#[trigger] acc@[i]).0@ == aggregate_spec(
                        dv.take(n + 1),
                    )[i].0 && acc@[i].1 == aggregate_spec(dv.take(n + 1))[i].1 by {
                        assert(aggregate_spec(dv.take(n + 1)) == prev.update(
                            widx,
                            (key@, sat_add(prev[widx].1, v)),
                        ));
                    }
                }
            },
            None => {
                acc.push((key, v));
                proof {
                    assert(!(exists|i: int|
                        0 <= i < prev.len() && prev[i].0 == db_space_name(dv[n as int].0))) by {
                        if exists|i: int|
                            0 <= i < prev.len() && prev[i].0 == db_space_name(dv[n as int].0) {
                            let w = choose|i: int|
                                0 <= i < prev.len() && prev[i].0 == db_space_name(
                                    dv[n as int].0,
                                );
                            assert(acc@[w].0@ == key@);
                        }
                    }
                    assert(aggregate_spec(dv.take(n + 1)) == prev.push((key@, v)));
                }
            },
        }
        n = n + 1;
    }
    proof {
        assert(dv.take(entries@.len() as int) =~= dv);
    }
    acc
}

/// One probe report line: a JSON object tagged `dbSize`, carrying the
/// probe timestamp, the database name, and its total bytes, all as strings.
pub open spec fn db_size_line(ts: u64, space: Seq<char>, bytes: u64) -> Seq<char> {
    "{\"k\":\"dbSize\",\"t\":"@ + quote_str(u64_digits(ts)) + ",\"d\":"@ + quote_str(space)
        + ",\"b\":"@ + quote_str(u64_digits(bytes)) + "}"@
}

/// Render the probe report lines for raw file names and sizes measured at
/// `ts` (microseconds): one line per database, totals aggregated.
pub fn build_db_size_report(entries: &Vec<(String, u64)>, ts: u64) -> (r: Vec<String>)
    ensures
        r@.len() == aggregate_spec(entries.deep_view()).len(),
        forall|i: int|
            0 <= i < r@.len() ==> (#[trigger] r@[i])@ == db_size_line(
                ts,
                aggregate_spec(entries.deep_view())[i].0,
                aggregate_spec(entries.deep_view())[i].1,
            ),
{
    let ghost agg = aggregate_spec(entries.deep_view());
    let sizes = aggregate_sizes(entries);
    let ts_str = format_u64(ts);
    let mut out: Vec<String> = Vec::new();
    let mut i: usize = 0;
    while i < sizes.len()
        invariant
            i <= sizes@.len(),
            agg == aggregate_spec(entries.deep_view()),
            sizes@.len() == agg.len(),
            forall|k: int|
                0 <= k < sizes@.len() ==> (#[trigger] sizes@[k]).0@ == agg[k].0 && sizes@[k].1
                    == agg[k].1,
            ts_str@ == u64_digits(ts),
            out@.len() == i,
            forall|k: int|
                0 <= k < i ==> (#[trigger] out@[k])@ == db_size_line(ts, agg[k].0, agg[k].1),
        decreases sizes@.len() - i,
    {
        let mut line = String::new();
        line.append("{\"k\":\"dbSize\",\"t\":");
        crate::jsontext::append_quoted(&mut line, ts_str.as_str());
        line.append(",\"d\":");
        crate::jsontext::append_quoted(&mut line, sizes[i].0.as_str());
        line.append(",\"b\":");
        let bytes_str = format_u64(sizes[i].1);
        crate::jsontext::append_quoted(&mut line, bytes_str.as_str());
        line.append("}");
        proof {
            assert(line@ =~= db_size_line(ts, agg[i as int].0, agg[i as int].1));
        }
        out.push(line);
        i = i + 1;
    }
    out
}

} // verus!
