//! The file ingestor: runs the line parser over a whole line source,
//! collects the accepted records, reports rejections by position, and
//! hands back the collection sorted by instant.

use vstd::prelude::*;
use crate::datetime::{dt_le, dt_lt, epoch_millis_of, lemma_dt_le_millis, lemma_millis_in_range,
    valid_datetime, wrap_u64};
use crate::line::{LineModel, LineOutcome, line_model, parse_line};
use crate::record::{Diagnostic, DiagnosticModel, Entry, EntryModel};
use vstd::seq_lib::{to_multiset_build, to_multiset_insert, to_multiset_remove};
use vstd::slice::slice_to_vec;

verus! {

/// The models of a sequence of records.
pub open spec fn models_of(s: Seq<Entry>) -> Seq<EntryModel> {
    s.map_values(|e: Entry| e@)
}

/// The models of a sequence of diagnostics.
pub open spec fn diag_models_of(s: Seq<Diagnostic>) -> Seq<DiagnosticModel> {
    s.map_values(|d: Diagnostic| d@)
}

/// Records of the accepted lines, in input order.
pub open spec fn accepted_of(lines: Seq<Seq<u8>>) -> Seq<EntryModel>
    decreases lines.len(),
{
    if lines.len() == 0 {
        Seq::empty()
    } else {
        match line_model(lines.last()) {
            LineModel::Accepted(e) => accepted_of(lines.drop_last()).push(e),
            LineModel::Rejected(_) => accepted_of(lines.drop_last()),
        }
    }
}

/// Diagnostics of the rejected lines, in input order.  Rejections of
/// the first three lines are suppressed: they are assumed to be header
/// or preamble noise.
pub open spec fn diagnostics_of(lines: Seq<Seq<u8>>) -> Seq<DiagnosticModel>
    decreases lines.len(),
{
    if lines.len() == 0 {
        Seq::empty()
    } else {
        let i = lines.len() - 1;
        match line_model(lines.last()) {
            LineModel::Rejected(e) => if i > 2 {
                diagnostics_of(lines.drop_last()).push(
                    DiagnosticModel { line_index: i as int, line: lines.last(), error: e },
                )
            } else {
                diagnostics_of(lines.drop_last())
            },
            LineModel::Accepted(_) => diagnostics_of(lines.drop_last()),
        }
    }
}

/// Ascending instant order over a record sequence.
pub open spec fn sorted_by_instant(s: Seq<EntryModel>) -> bool {
    forall|i: int, j: int| 0 <= i < j < s.len() ==> dt_le(#[trigger] s[i].timestamp, #[trigger] s[j].timestamp)
}

/// Whether two records are already in order, by instant.
fn entry_in_order(a: &Entry, b: &Entry) -> (r: bool)
    ensures
        r == dt_le(a@.timestamp, b@.timestamp),
{
    match a.timestamp.cmp(&b.timestamp) {
        core::cmp::Ordering::Greater => false,
        _ => true,
    }
}

/// Sorts the records ascending by instant; the collection keeps
/// exactly the same records.
pub fn sort_entries(v: &mut Vec<Entry>)
    ensures
        sorted_by_instant(models_of(final(v)@)),
        models_of(final(v)@).to_multiset() == models_of(old(v)@).to_multiset(),
{
    broadcast use to_multiset_build, to_multiset_insert, to_multiset_remove,
        vstd::seq_lib::to_multiset_contains, vstd::multiset::group_multiset_axioms;

    let n = v.len();
    if n <= 1 {
        return ;
    }
    let mut i: usize = 1;
    while i < n
        invariant
            1 <= i <= n == v@.len(),
            sorted_by_instant(models_of(v@).take(i as int)),
            models_of(v@).to_multiset() == models_of(old(v)@).to_multiset(),
        decreases n - i,
    {
        let ghost s = v@;
        let mut j: usize = i;
        while j > 0 && !entry_in_order(&v[j - 1], &v[i])
            invariant
                0 <= j <= i < v@.len(),
                v@ == s,
                forall|k: int| j <= k < i ==> dt_lt(s[i as int]@.timestamp, #[trigger] s[k]@.timestamp),
            decreases j,
        {
            j = j - 1;
        }
        proof {
            assert(j == 0 || dt_le(s[j - 1]@.timestamp, s[i as int]@.timestamp));
        }
        let e = v.remove(i);
        v.insert(j, e);
        proof {
            let m = models_of(s);
            let mm = models_of(v@);
            let x = m[i as int];
            assert(x == e@);
            assert(v@ =~= s.remove(i as int).insert(j as int, e));
            assert(mm =~= m.remove(i as int).insert(j as int, e@));
            assert(m.contains(x)) by {
                assert(m[i as int] == x);
            }
            vstd::seq_lib::to_multiset_contains(m, x);
            vstd::seq_lib::to_multiset_remove(m, i as int);
            vstd::seq_lib::to_multiset_insert(m.remove(i as int), j as int, e@);
            assert(m.to_multiset().count(x) > 0);
            assert(mm.to_multiset() == m.to_multiset().remove(x).insert(x));
            assert(mm.to_multiset() =~= m.to_multiset());
            // the element landed at `j`; everything around it kept its
            // relative order
            assert(forall|k: int| 0 <= k < j ==> mm[k] == m[k]);
            assert(mm[j as int] == e@);
            assert(forall|k: int| j < k <= i ==> mm[k] == m[k - 1]);
            assert forall|a: int, b: int| 0 <= a <= b < i implies dt_le(
                #[trigger] m[a].timestamp,
                #[trigger] m[b].timestamp,
            ) by {
                if a < b {
                    assert(m.take(i as int)[a] == m[a]);
                    assert(m.take(i as int)[b] == m[b]);
                }
            }
            assert forall|k: int| j <= k < i implies dt_le(
                e@.timestamp,
                #[trigger] m[k].timestamp,
            ) by {
                assert(dt_lt(s[i as int]@.timestamp, s[k]@.timestamp));
            }
            assert forall|p: int, q: int| 0 <= p < q <= i implies dt_le(
                #[trigger] mm[p].timestamp,
                #[trigger] mm[q].timestamp,
            ) by {
                if q < j {
                } else if q == j {
                    assert(p < j);
                    assert(dt_le(m[p].timestamp, m[j - 1].timestamp));
                    assert(dt_le(m[j - 1].timestamp, e@.timestamp));
                } else if p == j {
                    assert(mm[q] == m[q - 1]);
                } else if p < j {
                    assert(mm[p] == m[p] && mm[q] == m[q - 1]);
                } else {
                    assert(mm[p] == m[p - 1] && mm[q] == m[q - 1]);
                }
            }
            assert forall|p: int, q: int| 0 <= p < q < i + 1 implies dt_le(
                #[trigger] mm.take(i + 1)[p].timestamp,
                #[trigger] mm.take(i + 1)[q].timestamp,
            ) by {
                assert(mm.take(i + 1)[p] == mm[p]);
                assert(mm.take(i + 1)[q] == mm[q]);
            }
            assert(sorted_by_instant(mm.take(i + 1)));
        }
        i = i + 1;
    }
    proof {
        assert(models_of(v@).take(n as int) =~= models_of(v@));
    }
}

/// Runs the line parser over every line of a source, in order.
///
/// Returns the accepted records sorted ascending by instant, together
/// with the diagnostics for the rejected lines beyond the three-line
/// header window.  A timestamp failure rejects only its line; a value
/// failure keeps the record with a zero weight; nothing stops the run.
pub fn parse_file(lines: &Vec<Vec<u8>>) -> (r: (Vec<Entry>, Vec<Diagnostic>))
    ensures
        sorted_by_instant(models_of(r.0@)),
        models_of(r.0@).to_multiset() == accepted_of(lines.deep_view()).to_multiset(),
        diag_models_of(r.1@) == diagnostics_of(lines.deep_view()),
{
    let ghost all = lines.deep_view();
    let mut records: Vec<Entry> = Vec::new();
    let mut diags: Vec<Diagnostic> = Vec::new();
    let mut idx: usize = 0;
    while idx < lines.len()
        invariant
            idx <= all.len() == lines@.len(),
            all == lines.deep_view(),
            models_of(records@) == accepted_of(all.take(idx as int)),
            diag_models_of(diags@) == diagnostics_of(all.take(idx as int)),
        decreases lines@.len() - idx,
    {
        let line: &Vec<u8> = &lines[idx];
        proof {
            assert(all[idx as int] =~= line@);
            assert(all.take(idx + 1).drop_last() =~= all.take(idx as int));
            assert(all.take(idx + 1).last() == all[idx as int]);
        }
        let outcome = parse_line(line.as_slice());
        match outcome {
            LineOutcome::Accepted(e) => {
                records.push(e);
                proof {
                    assert(models_of(records@) =~= accepted_of(all.take(idx + 1)));
                }
            },
            LineOutcome::Rejected(err) => {
                if idx > 2 {
                    diags.push(
                        Diagnostic { line_index: idx, line: slice_to_vec(line.as_slice()), error: err },
                    );
                }
                proof {
                    assert(diag_models_of(diags@) =~= diagnostics_of(all.take(idx + 1)));
                }
            },
        }
        idx = idx + 1;
    }
    proof {
        assert(all.take(all.len() as int) =~= all);
    }
    sort_entries(&mut records);
    (records, diags)
}

/// A pushed sequence keeps what the original contained.
proof fn lemma_push_preserves_contains<A>(s: Seq<A>, x: A, d: A)
    requires
        s.contains(d),
    ensures
        s.push(x).contains(d),
{
    let k = choose|k: int| 0 <= k < s.len() && s[k] == d;
    assert(s.push(x)[k] == d);
}

/// Every diagnostic points, with the right error, at a rejected line
/// beyond the three-line header window; rejections of earlier lines
/// are never reported.
pub proof fn lemma_diagnostics_shape(lines: Seq<Seq<u8>>, k: int)
    requires
        0 <= k < diagnostics_of(lines).len(),
    ensures
        ({
            let d = diagnostics_of(lines)[k];
            &&& 2 < d.line_index < lines.len()
            &&& d.line == lines[d.line_index]
            &&& line_model(d.line) is Rejected
            &&& d.error == line_model(d.line)->Rejected_0
        }),
    decreases lines.len(),
{
    if lines.len() > 0 {
        let front = diagnostics_of(lines.drop_last());
        if k < front.len() {
            lemma_diagnostics_shape(lines.drop_last(), k);
            let d = front[k];
            assert(lines.drop_last()[d.line_index] == lines[d.line_index]);
        }
    }
}

/// A rejected line contributes no record, whatever its index; beyond
/// the header window, exactly its diagnostic is reported.
pub proof fn lemma_rejected_line_handling(lines: Seq<Seq<u8>>, i: int)
    requires
        0 <= i < lines.len(),
        line_model(lines[i]) is Rejected,
    ensures
        accepted_of(lines) == accepted_of(lines.remove(i)),
        i > 2 ==> diagnostics_of(lines).contains(
            DiagnosticModel {
                line_index: i,
                line: lines[i],
                error: line_model(lines[i])->Rejected_0,
            },
        ),
    decreases lines.len(),
{
    let n = lines.len() as int;
    let d = DiagnosticModel {
        line_index: i,
        line: lines[i],
        error: line_model(lines[i])->Rejected_0,
    };
    if i == n - 1 {
        assert(lines.remove(i) =~= lines.drop_last());
        if i > 2 {
            let diags = diagnostics_of(lines);
            assert(diags[diags.len() - 1] == d);
        }
    } else {
        lemma_rejected_line_handling(lines.drop_last(), i);
        assert(lines.remove(i).drop_last() =~= lines.drop_last().remove(i));
        assert(lines.remove(i).last() == lines.last());
        assert(lines.drop_last()[i] == lines[i]);
        if i > 2 {
            let front = diagnostics_of(lines.drop_last());
            assert(front.contains(d));
            match line_model(lines.last()) {
                LineModel::Rejected(e) => {
                    if n - 1 > 2 {
                        lemma_push_preserves_contains(
                            front,
                            DiagnosticModel { line_index: n - 1, line: lines.last(), error: e },
                            d,
                        );
                    }
                },
                LineModel::Accepted(_) => {},
            }
        }
    }
}

/// Every accepted record carries a real calendar instant and the epoch
/// key derived from it.
pub proof fn lemma_accepted_entry_fields(lines: Seq<Seq<u8>>, k: int)
    requires
        0 <= k < accepted_of(lines).len(),
    ensures
        valid_datetime(accepted_of(lines)[k].timestamp),
        accepted_of(lines)[k].raw_timestamp == wrap_u64(
            epoch_millis_of(accepted_of(lines)[k].timestamp),
        ),
    decreases lines.len(),
{
    if lines.len() > 0 {
        let front = accepted_of(lines.drop_last());
        if k < front.len() {
            lemma_accepted_entry_fields(lines.drop_last(), k);
        } else {
            crate::line::lemma_accepted_entry_consistent(lines.last());
        }
    }
}

/// In a collection ingested from lines whose instants are 1970 or
/// later, the epoch keys of adjacent records ascend with the sort
/// order.
pub proof fn lemma_epoch_keys_ascend(entries: Seq<EntryModel>, lines: Seq<Seq<u8>>, i: int, j: int)
    requires
        sorted_by_instant(entries),
        entries.to_multiset() == accepted_of(lines).to_multiset(),
        forall|k: int| 0 <= k < entries.len() ==> (#[trigger] entries[k]).timestamp.year >= 1970,
        0 <= i <= j < entries.len(),
    ensures
        entries[i].raw_timestamp <= entries[j].raw_timestamp,
{
    assert forall|k: int| 0 <= k < entries.len() implies valid_datetime(
        (#[trigger] entries[k]).timestamp,
    ) && entries[k].raw_timestamp == wrap_u64(epoch_millis_of(entries[k].timestamp)) by {
        let x = entries[k];
        assert(entries.contains(x));
        vstd::seq_lib::to_multiset_contains(entries, x);
        vstd::seq_lib::to_multiset_contains(accepted_of(lines), x);
        assert(accepted_of(lines).contains(x));
        let a = choose|a: int|
            0 <= a < accepted_of(lines).len() && accepted_of(lines)[a] == x;
        lemma_accepted_entry_fields(lines, a);
    }
    if i < j {
        lemma_dt_le_millis(entries[i].timestamp, entries[j].timestamp);
    }
    lemma_millis_in_range(entries[i].timestamp);
    lemma_millis_in_range(entries[j].timestamp);
}

} // verus!
