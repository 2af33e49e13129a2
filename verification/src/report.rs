//! Report rows and their ordering: members joined with their check-in state
//! for one attendance day, sorted lexicographically on three integer keys.

use vstd::prelude::*;

verus! {

/// One line of a day's listing before formatting: a display name, a
/// rendered local check-in time (empty when unused), and three sort keys.
pub struct ReportRow {
    pub name: String,
    pub time: String,
    pub k1: i64,
    pub k2: i64,
    pub k3: i64,
}

/// Spec-level image of a report row.
#[verifier::ext_equal]
pub ghost struct RowV {
    pub name: Seq<char>,
    pub time: Seq<char>,
    pub k1: int,
    pub k2: int,
    pub k3: int,
}

impl View for ReportRow {
    type V = RowV;

    open spec fn view(&self) -> RowV {
        RowV {
            name: self.name@,
            time: self.time@,
            k1: self.k1 as int,
            k2: self.k2 as int,
            k3: self.k3 as int,
        }
    }
}

/// Strict lexicographic order on the three sort keys.
pub open spec fn row_lt(a: RowV, b: RowV) -> bool {
    a.k1 < b.k1 || (a.k1 == b.k1 && (a.k2 < b.k2 || (a.k2 == b.k2 && a.k3 < b.k3)))
}

/// `r` placed immediately before the first element it sorts strictly below.
pub open spec fn insert_sorted(s: Seq<RowV>, r: RowV) -> Seq<RowV>
    decreases s.len(),
{
    if s.len() == 0 {
        seq![r]
    } else if row_lt(r, s[0]) {
        seq![r] + s
    } else {
        seq![s[0]] + insert_sorted(s.skip(1), r)
    }
}

/// Insertion sort: stable, and deterministic for the engine's keys because
/// the third key (a row id) never ties.
pub open spec fn sort_rows(s: Seq<RowV>) -> Seq<RowV>
    decreases s.len(),
{
    if s.len() == 0 {
        Seq::empty()
    } else {
        insert_sorted(sort_rows(s.drop_last()), s.last())
    }
}

/// Where an insertion lands: before index `i`, the first position whose
/// element `r` sorts strictly below.
proof fn lemma_insert_sorted_at(s: Seq<RowV>, r: RowV, i: int)
    requires
        0 <= i <= s.len(),
        forall|k: int| 0 <= k < i ==> !row_lt(r, #[trigger] s[k]),
        i < s.len() ==> row_lt(r, s[i]),
    ensures
        insert_sorted(s, r) == s.take(i) + seq![r] + s.skip(i),
    decreases i,
{
    if i == 0 {
        assert(insert_sorted(s, r) =~= s.take(0) + seq![r] + s.skip(0));
    } else {
        assert(!row_lt(r, s[0]));
        let tail = s.skip(1);
        assert(forall|k: int| 0 <= k < tail.len() ==> #[trigger] tail[k] == s[k + 1]);
        lemma_insert_sorted_at(tail, r, i - 1);
        assert(insert_sorted(s, r) =~= s.take(i) + seq![r] + s.skip(i));
    }
}

fn row_less(a: &ReportRow, b: &ReportRow) -> (r: bool)
    ensures
        r == row_lt(a@, b@),
{
    a.k1 < b.k1 || (a.k1 == b.k1 && (a.k2 < b.k2 || (a.k2 == b.k2 && a.k3 < b.k3)))
}

/// Insert one row at its sorted position.
fn insert_row(v: &mut Vec<ReportRow>, row: ReportRow)
    ensures
        final(v)@.map_values(|x: ReportRow| x@) == insert_sorted(
            old(v)@.map_values(|x: ReportRow| x@),
            row@,
        ),
{
    let ghost s = v@.map_values(|x: ReportRow| x@);
    let mut i: usize = 0;
    loop
        invariant
            i <= v.len(),
            v == old(v),
            s == v@.map_values(|x: ReportRow| x@),
            forall|k: int| 0 <= k < i ==> !row_lt(row@, #[trigger] s[k]),
        ensures
            i <= v.len(),
            v == old(v),
            forall|k: int| 0 <= k < i ==> !row_lt(row@, #[trigger] s[k]),
            i < v.len() ==> row_lt(row@, s[i as int]),
        decreases v.len() - i,
    {
        if i >= v.len() {
            break ;
        }
        if row_less(&row, &v[i]) {
            break ;
        }
        i = i + 1;
    }
    proof {
        lemma_insert_sorted_at(s, row@, i as int);
    }
    v.insert(i, row);
    proof {
        assert(v@.map_values(|x: ReportRow| x@) =~= s.take(i as int) + seq![row@] + s.skip(
            i as int,
        ));
    }
}

/// Sort rows by their three keys, ascending.
pub fn sort_report_rows(rows: Vec<ReportRow>) -> (r: Vec<ReportRow>)
    ensures
        r@.map_values(|x: ReportRow| x@) == sort_rows(rows@.map_values(|x: ReportRow| x@)),
{
    let ghost orig = rows@.map_values(|x: ReportRow| x@);
    let mut rows = rows;
    let total = rows.len();
    let mut out: Vec<ReportRow> = Vec::new();
    let mut i: usize = 0;
    proof {
        assert(orig.len() == total as int);
        assert(out@.map_values(|x: ReportRow| x@) =~= sort_rows(orig.take(0)));
        assert(rows@.map_values(|x: ReportRow| x@) =~= orig.skip(0));
    }
    while rows.len() > 0
        invariant
            i as int + rows@.len() == orig.len(),
            orig.len() == total as int,
            out@.map_values(|x: ReportRow| x@) == sort_rows(orig.take(i as int)),
            rows@.map_values(|x: ReportRow| x@) == orig.skip(i as int),
        decreases rows.len(),
    {
        let ghost pre = rows@;
        let row = rows.remove(0);
        proof {
            let f = |x: ReportRow| x@;
            assert(pre.map_values(f)[0] == orig.skip(i as int)[0]);
            assert(row@ == orig[i as int]);
            assert(rows@ == pre.remove(0));
            assert forall|k: int| 0 <= k < rows@.len() implies #[trigger] rows@.map_values(f)[k]
                == orig.skip(i as int + 1)[k] by {
                assert(rows@[k] == pre[k + 1]);
                assert(pre.map_values(f)[k + 1] == orig.skip(i as int)[k + 1]);
                assert(orig.skip(i as int)[k + 1] == orig[i as int + 1 + k]);
            }
            assert(rows@.map_values(f) =~= orig.skip(i as int + 1));
            assert(orig.take(i as int + 1).drop_last() =~= orig.take(i as int));
            assert(orig.take(i as int + 1).last() == orig[i as int]);
        }
        insert_row(&mut out, row);
        i = i + 1;
    }
    proof {
        assert(orig.take(i as int) =~= orig);
    }
    out
}

} // verus!

verus! {

/// Rows in ascending key order.
pub open spec fn rows_sorted(s: Seq<RowV>) -> bool {
    forall|i: int, j: int| 0 <= i < j < s.len() ==> !row_lt(#[trigger] s[j], #[trigger] s[i])
}

/// Index of the first element that `r` sorts strictly below.
spec fn first_above(s: Seq<RowV>, r: RowV) -> int
    decreases s.len(),
{
    if s.len() == 0 {
        0
    } else if row_lt(r, s[0]) {
        0
    } else {
        1 + first_above(s.skip(1), r)
    }
}

proof fn lemma_first_above(s: Seq<RowV>, r: RowV)
    ensures
        0 <= first_above(s, r) <= s.len(),
        forall|k: int| 0 <= k < first_above(s, r) ==> !row_lt(r, #[trigger] s[k]),
        first_above(s, r) < s.len() ==> row_lt(r, s[first_above(s, r)]),
    decreases s.len(),
{
    if s.len() > 0 && !row_lt(r, s[0]) {
        lemma_first_above(s.skip(1), r);
        assert forall|k: int| 0 <= k < first_above(s, r) implies !row_lt(r, #[trigger] s[k]) by {
            if k >= 1 {
                assert(s.skip(1)[k - 1] == s[k]);
                assert(!row_lt(r, s.skip(1)[k - 1]));
            }
        }
        if first_above(s, r) < s.len() {
            assert(s[first_above(s, r)] == s.skip(1)[first_above(s.skip(1), r)]);
        }
    }
}

/// What the sort spec promises of every input: the output is in ascending
/// key order and holds exactly the given rows.
pub proof fn lemma_sort_rows_props(s: Seq<RowV>)
    ensures
        rows_sorted(sort_rows(s)),
        sort_rows(s).len() == s.len(),
        sort_rows(s).to_multiset() == s.to_multiset(),
    decreases s.len(),
{
    if s.len() > 0 {
        lemma_sort_rows_props(s.drop_last());
        let rest = sort_rows(s.drop_last());
        let r = s.last();
        let i = first_above(rest, r);
        lemma_first_above(rest, r);
        lemma_insert_sorted_at(rest, r, i);
        let out = sort_rows(s);
        assert(out =~= rest.insert(i, r));
        vstd::seq_lib::to_multiset_insert(rest, i, r);
        vstd::seq_lib::to_multiset_build(s.drop_last(), r);
        assert(s =~= s.drop_last().push(r));
        assert forall|a: int, b: int| 0 <= a < b < out.len() implies !row_lt(out[b], out[a]) by {
            if a < i && b < i {
                assert(out[a] == rest[a] && out[b] == rest[b]);
            } else if a < i && b == i {
                assert(out[a] == rest[a] && out[b] == r);
            } else if a < i && b > i {
                assert(out[a] == rest[a] && out[b] == rest[b - 1]);
            } else if a == i && b > i {
                assert(out[a] == r && out[b] == rest[b - 1]);
                if b - 1 > i {
                    // r sorts below rest[i], which sorts no higher than
                    // rest[b - 1]
                    assert(!row_lt(rest[b - 1], rest[i]));
                }
            } else {
                assert(out[a] == rest[a - 1] && out[b] == rest[b - 1]);
            }
        }
    } else {
        assert(sort_rows(s) =~= s);
    }
}

} // verus!
