//! Column-sparsity patterns used when assembling QP Hessians.
use vstd::prelude::*;

verus! {

/// A closed range of non-sparse columns `[start, end]`.
#[derive(Clone, Copy, Debug, PartialEq, Eq, Structural)]
pub struct Interval {
    /// First column in the interval.
    pub start: usize,
    /// Last column in the interval (inclusive).
    pub end: usize,
}

impl Interval {
    /// Whether column `i` lies in `[start, end]`.
    pub open spec fn spec_contains(self, i: int) -> bool {
        self.start <= i <= self.end
    }

    /// Builds an interval.
    pub fn new(start: usize, end: usize) -> (r: Interval)
        ensures
            r.start == start,
            r.end == end,
    {
        Interval { start, end }
    }

    /// Whether column `i` is inside the interval.
    pub fn contains(&self, i: usize) -> (r: bool)
        ensures
            r == self.spec_contains(i as int),
    {
        self.start <= i && i <= self.end
    }
}

/// Each interval is non-empty, and the intervals are sorted with at least one column
/// between any two of them (no two overlap or touch).
pub open spec fn intervals_wf(s: Seq<Interval>) -> bool {
    &&& forall|i: int| 0 <= i < s.len() ==> #[trigger] s[i].start <= s[i].end
    &&& forall|i: int, j: int|
        0 <= i < j < s.len() ==> #[trigger] s[i].end + 1 < #[trigger] s[j].start
}

/// The set of columns covered by some interval of `s`.
pub open spec fn covered(s: Seq<Interval>) -> Set<int> {
    Set::new(|c: int| exists|i: int| 0 <= i < s.len() && #[trigger] s[i].spec_contains(c))
}

/// The closed range `[start, end]` as a set of columns.
pub open spec fn column_range(start: int, end: int) -> Set<int> {
    Set::new(|c: int| start <= c <= end)
}

/// Number of leading intervals that end before column `x - 1`: those that neither
/// overlap nor touch a range starting at column `x`.
pub open spec fn count_before(s: Seq<Interval>, x: int) -> nat
    decreases s.len(),
{
    if s.len() == 0 {
        0
    } else if s[0].end + 1 < x {
        1 + count_before(s.drop_first(), x)
    } else {
        0
    }
}

/// Number of leading intervals that start at or before column `y + 1`: those that
/// overlap or touch a range ending at column `y`, or lie before it.
pub open spec fn count_reaching(s: Seq<Interval>, y: int) -> nat
    decreases s.len(),
{
    if s.len() == 0 {
        0
    } else if s[0].start <= y + 1 {
        1 + count_reaching(s.drop_first(), y)
    } else {
        0
    }
}

/// `[start, end]` widened by the intervals of `s` that it overlaps or touches.
pub open spec fn merged_interval(s: Seq<Interval>, start: usize, end: usize) -> Interval {
    let a = count_before(s, start as int) as int;
    let b = count_reaching(s, end as int) as int;
    if a < b {
        Interval {
            start: if s[a].start < start { s[a].start } else { start },
            end: if s[b - 1].end > end { s[b - 1].end } else { end },
        }
    } else {
        Interval { start, end }
    }
}

/// The intervals of `s` after adding `[start, end]`: the intervals entirely before it
/// (with a gap), then its union with every interval it overlaps or touches, then the
/// intervals entirely after it (with a gap).
pub open spec fn insert_interval(s: Seq<Interval>, start: usize, end: usize) -> Seq<Interval> {
    let a = count_before(s, start as int) as int;
    let b = count_reaching(s, end as int) as int;
    s.take(a) + seq![merged_interval(s, start, end)] + s.skip(b)
}

/// In a well-formed sequence, the leading intervals counted by `count_before` are
/// exactly those that end before column `x - 1`.
proof fn lemma_count_before(s: Seq<Interval>, x: int)
    requires
        intervals_wf(s),
    ensures
        count_before(s, x) <= s.len(),
        forall|i: int|
            0 <= i < s.len() ==> (i < count_before(s, x) <==> #[trigger] s[i].end + 1 < x),
    decreases s.len(),
{
    if s.len() > 0 {
        let t = s.drop_first();
        assert forall|i: int, j: int| 0 <= i < j < t.len() implies #[trigger] t[i].end + 1
            < #[trigger] t[j].start by {
            assert(s[i + 1].end + 1 < s[j + 1].start);
        }
        lemma_count_before(t, x);
        assert forall|i: int| 0 <= i < s.len() implies (i < count_before(s, x)
            <==> #[trigger] s[i].end + 1 < x) by {
            if i > 0 {
                assert(t[i - 1] == s[i]);
                assert(s[0].end + 1 < s[i].start);
                assert(s[i].start <= s[i].end);
            }
        }
    }
}

/// In a well-formed sequence, the leading intervals counted by `count_reaching` are
/// exactly those that start at or before column `y + 1`.
proof fn lemma_count_reaching(s: Seq<Interval>, y: int)
    requires
        intervals_wf(s),
    ensures
        count_reaching(s, y) <= s.len(),
        forall|i: int|
            0 <= i < s.len() ==> (i < count_reaching(s, y) <==> #[trigger] s[i].start <= y + 1),
    decreases s.len(),
{
    if s.len() > 0 {
        let t = s.drop_first();
        assert forall|i: int, j: int| 0 <= i < j < t.len() implies #[trigger] t[i].end + 1
            < #[trigger] t[j].start by {
            assert(s[i + 1].end + 1 < s[j + 1].start);
        }
        lemma_count_reaching(t, y);
        assert forall|i: int| 0 <= i < s.len() implies (i < count_reaching(s, y)
            <==> #[trigger] s[i].start <= y + 1) by {
            if i > 0 {
                assert(t[i - 1] == s[i]);
                assert(s[0].end + 1 < s[i].start);
                assert(s[0].start <= s[0].end);
            }
        }
    }
}

/// Adding a non-empty interval keeps the sequence well formed, and the columns it
/// covers afterwards are those covered before together with `[start, end]`.
pub proof fn lemma_insert_interval(s: Seq<Interval>, start: usize, end: usize)
    requires
        intervals_wf(s),
        start <= end,
    ensures
        intervals_wf(insert_interval(s, start, end)),
        covered(insert_interval(s, start, end)) == covered(s).union(
            column_range(start as int, end as int),
        ),
{
    lemma_count_before(s, start as int);
    lemma_count_reaching(s, end as int);
    let a = count_before(s, start as int) as int;
    let b = count_reaching(s, end as int) as int;
    let m = merged_interval(s, start, end);
    let r = insert_interval(s, start, end);
    if b < a {
        assert(s[b].start <= s[b].end);
    }
    assert(a <= b);
    assert(r.len() == a + 1 + (s.len() - b));
    assert forall|i: int| 0 <= i < r.len() implies #[trigger] r[i] == (if i < a {
        s[i]
    } else if i == a {
        m
    } else {
        s[i - a - 1 + b]
    }) by {}
    // The merged interval spans every interval it swallowed.
    assert forall|k: int| a <= k < b implies m.start <= #[trigger] s[k].start && s[k].end
        <= m.end by {
        if a < k {
            assert(s[a].end + 1 < s[k].start);
            assert(s[a].start <= s[a].end);
        }
        if k < b - 1 {
            assert(s[k].end + 1 < s[b - 1].start);
            assert(s[b - 1].start <= s[b - 1].end);
        }
    }
    assert forall|i: int, j: int| 0 <= i < j < r.len() implies #[trigger] r[i].end + 1
        < #[trigger] r[j].start by {
        if j < a {
        } else if j == a {
            assert(s[i].end + 1 < start);
            if a < b {
                assert(s[i].end + 1 < s[a].start);
            }
        } else if i > a {
            assert(s[i - a - 1 + b].end + 1 < s[j - a - 1 + b].start);
        } else if i == a {
            let jj = j - a - 1 + b;
            assert(s[jj].start > end + 1);
            if a < b {
                assert(s[b - 1].end + 1 < s[jj].start);
            }
        } else {
            let jj = j - a - 1 + b;
            assert(s[i].end + 1 < start);
            assert(s[jj].start > end + 1);
        }
    }
    assert forall|i: int| 0 <= i < r.len() implies #[trigger] r[i].start <= r[i].end by {
        if i == a {
            if a < b {
                assert(s[a].start <= s[a].end);
            }
        }
    }
    let lhs = covered(r);
    let rhs = covered(s).union(column_range(start as int, end as int));
    assert forall|c: int| lhs.contains(c) implies rhs.contains(c) by {
        let i = choose|i: int| 0 <= i < r.len() && #[trigger] r[i].spec_contains(c);
        if i < a {
            assert(s[i].spec_contains(c));
        } else if i == a {
            if !(start <= c <= end) {
                if c < start {
                    assert(a < b);
                    assert(s[a].spec_contains(c));
                } else {
                    assert(a < b);
                    assert(s[b - 1].spec_contains(c));
                }
            }
        } else {
            assert(s[i - a - 1 + b].spec_contains(c));
        }
    }
    assert forall|c: int| rhs.contains(c) implies lhs.contains(c) by {
        if start <= c <= end {
            assert(r[a].spec_contains(c));
        } else {
            let k = choose|k: int| 0 <= k < s.len() && #[trigger] s[k].spec_contains(c);
            if k < a {
                assert(r[k].spec_contains(c));
            } else if k < b {
                assert(r[a].spec_contains(c));
            } else {
                assert(r[k - b + a + 1].spec_contains(c));
            }
        }
    }
    assert(lhs =~= rhs);
}

/// Adding the same interval a second time changes nothing.
pub proof fn lemma_insert_interval_idempotent(s: Seq<Interval>, start: usize, end: usize)
    requires
        intervals_wf(s),
        start <= end,
    ensures
        insert_interval(insert_interval(s, start, end), start, end) == insert_interval(
            s,
            start,
            end,
        ),
{
    lemma_count_before(s, start as int);
    lemma_count_reaching(s, end as int);
    lemma_insert_interval(s, start, end);
    let a = count_before(s, start as int) as int;
    let b = count_reaching(s, end as int) as int;
    if b < a {
        assert(s[b].start <= s[b].end);
    }
    let m = merged_interval(s, start, end);
    let r = insert_interval(s, start, end);
    lemma_count_before(r, start as int);
    lemma_count_reaching(r, end as int);
    assert(r[a] == m);
    if a > 0 {
        assert(r[a - 1] == s[a - 1]);
    }
    if a + 1 < r.len() {
        assert(r[a + 1] == s[b]);
    }
    assert(m.start <= start && end <= m.end);
    let cb = count_before(r, start as int) as int;
    let cr = count_reaching(r, end as int) as int;
    assert(r.len() == a + 1 + s.len() - b);
    assert(!(r[a].end + 1 < start));
    assert(r[a].start <= end + 1);
    if cb < a {
        assert(r[cb] == s[cb]);
        assert(r[cb].end + 1 < start);
    }
    if cb > a {
        assert(r[a].end + 1 < start);
    }
    assert(cb == a);
    if cr < a {
        assert(r[cr] == s[cr]);
        assert(s[cr].start <= s[cr].end);
        assert(r[cr].start <= end + 1);
    }
    if cr == a {
        assert(r[a].start <= end + 1);
    }
    if cr > a + 1 {
        assert(r[a + 1].start <= end + 1);
    }
    assert(cr == a + 1);
    assert(merged_interval(r, start, end) == m);
    assert(insert_interval(r, start, end) =~= r);
}

/// Adding an interval that starts at least two columns after every interval ends
/// appends it.
proof fn lemma_insert_after(s: Seq<Interval>, start: usize, end: usize)
    requires
        intervals_wf(s),
        start <= end,
        forall|k: int| 0 <= k < s.len() ==> #[trigger] s[k].end + 1 < start,
    ensures
        insert_interval(s, start, end) == s.push(Interval { start, end }),
{
    lemma_count_before(s, start as int);
    lemma_count_reaching(s, end as int);
    assert forall|k: int| 0 <= k < s.len() implies #[trigger] s[k].start <= end + 1 by {
        assert(s[k].start <= s[k].end);
    }
    if count_before(s, start as int) < s.len() {
        assert(s[count_before(s, start as int) as int].end + 1 < start);
    }
    if count_reaching(s, end as int) < s.len() {
        assert(s[count_reaching(s, end as int) as int].start <= end + 1);
    }
    assert(insert_interval(s, start, end) =~= s.push(Interval { start, end }));
}

/// The columns covered by a well-formed sequence without its first interval.
proof fn lemma_covered_drop_first(s: Seq<Interval>)
    requires
        intervals_wf(s),
        s.len() > 0,
    ensures
        covered(s.drop_first()) == covered(s).difference(
            column_range(s[0].start as int, s[0].end as int),
        ),
{
    let t = s.drop_first();
    let r = column_range(s[0].start as int, s[0].end as int);
    assert forall|c: int| #[trigger] covered(t).contains(c) implies covered(s).difference(
        r,
    ).contains(c) by {
        let i = choose|i: int| 0 <= i < t.len() && #[trigger] t[i].spec_contains(c);
        assert(t[i] == s[i + 1]);
        assert(s[0].end + 1 < s[i + 1].start);
        assert(s[i + 1].spec_contains(c));
    }
    assert forall|c: int| covered(s).difference(r).contains(c) implies #[trigger] covered(
        t,
    ).contains(c) by {
        let i = choose|i: int| 0 <= i < s.len() && #[trigger] s[i].spec_contains(c);
        assert(i != 0);
        assert(t[i - 1] == s[i]);
        assert(t[i - 1].spec_contains(c));
    }
    assert(covered(t) =~= covered(s).difference(r));
}

/// A set of columns has only one well-formed description: two well-formed interval
/// sequences that cover the same columns are the same sequence.
pub proof fn lemma_wf_intervals_unique(s: Seq<Interval>, t: Seq<Interval>)
    requires
        intervals_wf(s),
        intervals_wf(t),
        covered(s) == covered(t),
    ensures
        s == t,
    decreases s.len() + t.len(),
{
    if s.len() == 0 || t.len() == 0 {
        if s.len() > 0 {
            let c = s[0].start as int;
            assert(s[0].start <= s[0].end);
            assert(s[0].spec_contains(c));
            assert(covered(s).contains(c));
            assert(covered(t).contains(c));
            let k = choose|k: int| 0 <= k < t.len() && #[trigger] t[k].spec_contains(c);
            assert(false);
        }
        if t.len() > 0 {
            let c = t[0].start as int;
            assert(t[0].start <= t[0].end);
            assert(t[0].spec_contains(c));
            assert(covered(t).contains(c));
            assert(covered(s).contains(c));
            let k = choose|k: int| 0 <= k < s.len() && #[trigger] s[k].spec_contains(c);
            assert(false);
        }
        assert(s =~= t);
    } else {
        // Each covered column lies at or after the first interval's start.
        assert(s[0].start <= s[0].end && t[0].start <= t[0].end);
        assert(s[0].spec_contains(s[0].start as int));
        assert(covered(t).contains(s[0].start as int));
        let i = choose|i: int| 0 <= i < t.len() && #[trigger] t[i].spec_contains(s[0].start as int);
        if i > 0 {
            assert(t[0].end + 1 < t[i].start);
        }
        assert(t[0].spec_contains(t[0].start as int));
        assert(covered(s).contains(t[0].start as int));
        let j = choose|j: int| 0 <= j < s.len() && #[trigger] s[j].spec_contains(t[0].start as int);
        if j > 0 {
            assert(s[0].end + 1 < s[j].start);
        }
        assert(s[0].start == t[0].start);
        // The first intervals end together: the column right after the shorter one would
        // be covered by one sequence and not the other.
        if s[0].end < t[0].end {
            let c = s[0].end + 1;
            assert(t[0].spec_contains(c));
            assert(covered(s).contains(c));
            let k = choose|k: int| 0 <= k < s.len() && #[trigger] s[k].spec_contains(c);
            if k > 0 {
                assert(s[0].end + 1 < s[k].start);
            }
            assert(false);
        }
        if t[0].end < s[0].end {
            let c = t[0].end + 1;
            assert(s[0].spec_contains(c));
            assert(covered(t).contains(c));
            let k = choose|k: int| 0 <= k < t.len() && #[trigger] t[k].spec_contains(c);
            if k > 0 {
                assert(t[0].end + 1 < t[k].start);
            }
            assert(false);
        }
        assert(s[0] == t[0]);
        lemma_covered_drop_first(s);
        lemma_covered_drop_first(t);
        let s1 = s.drop_first();
        let t1 = t.drop_first();
        assert forall|a: int, b: int| 0 <= a < b < s1.len() implies #[trigger] s1[a].end + 1
            < #[trigger] s1[b].start by {
            assert(s[a + 1].end + 1 < s[b + 1].start);
        }
        assert forall|a: int, b: int| 0 <= a < b < t1.len() implies #[trigger] t1[a].end + 1
            < #[trigger] t1[b].start by {
            assert(t[a + 1].end + 1 < t[b + 1].start);
        }
        lemma_wf_intervals_unique(s1, t1);
        assert(s.len() == t.len());
        assert forall|k: int| 0 <= k < s.len() implies s[k] == t[k] by {
            if k > 0 {
                assert(s[k] == s1[k - 1]);
                assert(t[k] == t1[k - 1]);
            }
        }
        assert(s =~= t);
    }
}

/// Adding `[start, end]` gives the only well-formed sequence that covers the old
/// columns together with `[start, end]`: whatever the intervals looked like, the result
/// is their canonical, fully merged form.
pub proof fn lemma_insert_interval_canonical(
    s: Seq<Interval>,
    start: usize,
    end: usize,
    t: Seq<Interval>,
)
    requires
        intervals_wf(s),
        start <= end,
        intervals_wf(t),
        covered(t) == covered(s).union(column_range(start as int, end as int)),
    ensures
        insert_interval(s, start, end) == t,
{
    lemma_insert_interval(s, start, end);
    lemma_wf_intervals_unique(insert_interval(s, start, end), t);
}

/// The intervals obtained by adding each interval of `ivs`, in order, to `s`.
pub open spec fn insert_all(s: Seq<Interval>, ivs: Seq<Interval>) -> Seq<Interval>
    decreases ivs.len(),
{
    if ivs.len() == 0 {
        s
    } else {
        insert_interval(insert_all(s, ivs.drop_last()), ivs.last().start, ivs.last().end)
    }
}

/// Every interval of `ivs` is non-empty.
pub open spec fn all_nonempty(ivs: Seq<Interval>) -> bool {
    forall|k: int| 0 <= k < ivs.len() ==> #[trigger] ivs[k].start <= ivs[k].end
}

/// Adding non-empty intervals one by one to a well-formed sequence keeps it well
/// formed and covers exactly the columns of both.
proof fn lemma_insert_all(s: Seq<Interval>, ivs: Seq<Interval>)
    requires
        intervals_wf(s),
        all_nonempty(ivs),
    ensures
        intervals_wf(insert_all(s, ivs)),
        covered(insert_all(s, ivs)) == covered(s).union(covered(ivs)),
    decreases ivs.len(),
{
    if ivs.len() > 0 {
        let init = ivs.drop_last();
        let last = ivs.last();
        assert forall|k: int| 0 <= k < init.len() implies #[trigger] init[k].start
            <= init[k].end by {
            assert(init[k] == ivs[k]);
        }
        lemma_insert_all(s, init);
        assert(ivs[ivs.len() - 1].start <= ivs[ivs.len() - 1].end);
        lemma_insert_interval(insert_all(s, init), last.start, last.end);
        lemma_covered_push(init, last);
        assert(ivs == init.push(last));
        assert(covered(insert_all(s, ivs)) =~= covered(s).union(covered(ivs)));
    }
}

/// Columns covered after appending one interval.
proof fn lemma_covered_push(s: Seq<Interval>, iv: Interval)
    ensures
        covered(s.push(iv)) == covered(s).union(column_range(iv.start as int, iv.end as int)),
{
    let t = s.push(iv);
    assert forall|c: int| #[trigger] covered(t).contains(c) implies covered(s).union(
        column_range(iv.start as int, iv.end as int),
    ).contains(c) by {
        let i = choose|i: int| 0 <= i < t.len() && #[trigger] t[i].spec_contains(c);
        if i < s.len() {
            assert(s[i].spec_contains(c));
        }
    }
    assert forall|c: int|
        covered(s).union(column_range(iv.start as int, iv.end as int)).contains(
            c,
        ) implies #[trigger] covered(t).contains(c) by {
        if iv.start <= c <= iv.end {
            assert(t[s.len() as int].spec_contains(c));
        } else {
            let i = choose|i: int| 0 <= i < s.len() && #[trigger] s[i].spec_contains(c);
            assert(t[i].spec_contains(c));
        }
    }
    assert(covered(t) =~= covered(s).union(column_range(iv.start as int, iv.end as int)));
}

/// Columns covered by the concatenation of two interval sequences.
pub proof fn lemma_covered_concat(s: Seq<Interval>, t: Seq<Interval>)
    ensures
        covered(s + t) == covered(s).union(covered(t)),
{
    let u = s + t;
    assert forall|c: int| #[trigger] covered(u).contains(c) implies covered(s).union(
        covered(t),
    ).contains(c) by {
        let i = choose|i: int| 0 <= i < u.len() && #[trigger] u[i].spec_contains(c);
        if i < s.len() {
            assert(s[i].spec_contains(c));
        } else {
            assert(t[i - s.len()].spec_contains(c));
        }
    }
    assert forall|c: int| covered(s).union(covered(t)).contains(c) implies #[trigger] covered(
        u,
    ).contains(c) by {
        if covered(s).contains(c) {
            let i = choose|i: int| 0 <= i < s.len() && #[trigger] s[i].spec_contains(c);
            assert(u[i].spec_contains(c));
        } else {
            let i = choose|i: int| 0 <= i < t.len() && #[trigger] t[i].spec_contains(c);
            assert(u[i + s.len()].spec_contains(c));
        }
    }
    assert(covered(u) =~= covered(s).union(covered(t)));
}

/// Adding the intervals of a well-formed sequence, in order, to an empty one gives the
/// sequence back: a pattern added to an empty pattern is unchanged.
pub proof fn lemma_insert_all_rebuilds(s: Seq<Interval>)
    requires
        intervals_wf(s),
    ensures
        insert_all(Seq::empty(), s) == s,
    decreases s.len(),
{
    if s.len() > 0 {
        let init = s.drop_last();
        assert forall|i: int, j: int| 0 <= i < j < init.len() implies #[trigger] init[i].end + 1
            < #[trigger] init[j].start by {
            assert(s[i].end + 1 < s[j].start);
        }
        lemma_insert_all_rebuilds(init);
        let last = s.last();
        assert(s[s.len() - 1].start <= s[s.len() - 1].end);
        assert forall|k: int| 0 <= k < init.len() implies #[trigger] init[k].end + 1 < last.start by {
            assert(s[k].end + 1 < s[s.len() - 1].start);
        }
        lemma_insert_after(init, last.start, last.end);
        assert(init.push(Interval { start: last.start, end: last.end }) =~= s);
    }
}

/// The sum of a well-formed pattern and an empty one, in either order, is the pattern.
pub proof fn lemma_sum_with_empty(s: Seq<Interval>)
    requires
        intervals_wf(s),
    ensures
        insert_all(Seq::empty(), s + Seq::<Interval>::empty()) == s,
        insert_all(Seq::empty(), Seq::<Interval>::empty() + s) == s,
{
    assert(s + Seq::<Interval>::empty() =~= s);
    assert(Seq::<Interval>::empty() + s =~= s);
    lemma_insert_all_rebuilds(s);
}

/// `iv` is a maximal run of `true` flags: every flag in it is set and the flags just
/// outside it (where they exist) are not.
pub open spec fn is_maximal_run(flags: Seq<bool>, iv: Interval) -> bool {
    &&& iv.start <= iv.end < flags.len()
    &&& forall|c: int| iv.start <= c <= iv.end ==> #[trigger] flags[c]
    &&& (iv.start == 0 || !flags[iv.start - 1])
    &&& (iv.end + 1 == flags.len() || !flags[iv.end + 1])
}

/// The indices `c < len` whose flag is set.
pub open spec fn set_flags(flags: Seq<bool>, len: int) -> Set<int> {
    Set::new(|c: int| 0 <= c < len && flags[c])
}

/// The set of non-sparse columns, as intervals kept sorted and merged.
#[derive(Clone, Debug, PartialEq, Eq)]
pub struct Sparsity {
    /// Non-sparse column intervals.
    pub intervals: Vec<Interval>,
}

impl Sparsity {
    /// The intervals are non-empty, sorted and pairwise disjoint.
    pub open spec fn wf(&self) -> bool {
        intervals_wf(self.intervals@)
    }

    /// The columns covered by the intervals.
    pub open spec fn columns(&self) -> Set<int> {
        covered(self.intervals@)
    }

    /// An empty sparsity pattern.
    pub fn new() -> (r: Sparsity)
        ensures
            r.intervals@ == Seq::<Interval>::empty(),
            r.wf(),
    {
        Sparsity { intervals: Vec::new() }
    }

    /// Adds `[start, end]`, merging it with every interval it overlaps or touches
    /// (an interval ending at `start - 1` or starting at `end + 1`).
    pub fn add_interval(&mut self, start: usize, end: usize)
        requires
            old(self).wf(),
            start <= end,
        ensures
            final(self).intervals@ == insert_interval(old(self).intervals@, start, end),
            final(self).wf(),
            final(self).columns() == old(self).columns().union(
                column_range(start as int, end as int),
            ),
    {
        let ghost s = self.intervals@;
        proof {
            lemma_count_before(s, start as int);
            lemma_count_reaching(s, end as int);
            lemma_insert_interval(s, start, end);
        }
        let ghost a = count_before(s, start as int) as int;
        let ghost b = count_reaching(s, end as int) as int;
        let ghost m = merged_interval(s, start, end);
        proof {
            if b < a {
                assert(s[b].start <= s[b].end);
            }
        }
        let n = self.intervals.len();
        let mut out: Vec<Interval> = Vec::new();
        let mut cur_start = start;
        let mut cur_end = end;
        let mut inserted = false;
        let mut i: usize = 0;
        while i < n
            invariant
                n == s.len(),
                s == self.intervals@,
                intervals_wf(s),
                start <= end,
                a == count_before(s, start as int),
                b == count_reaching(s, end as int),
                m == merged_interval(s, start, end),
                0 <= a <= b <= n,
                forall|k: int| 0 <= k < s.len() ==> (k < a <==> #[trigger] s[k].end + 1 < start),
                forall|k: int| 0 <= k < s.len() ==> (k < b <==> #[trigger] s[k].start <= end + 1),
                0 <= i <= n,
                !inserted ==> i <= b,
                !inserted && i <= a ==> cur_start == start && cur_end == end && out@ == s.take(
                    i as int,
                ),
                !inserted && i > a ==> cur_start == m.start && cur_end == (if s[i - 1].end > end {
                    s[i - 1].end
                } else {
                    end
                }) && out@ == s.take(a),
                inserted ==> i >= b && out@ == s.take(a) + seq![m] + s.subrange(b, i as int),
            decreases n - i,
        {
            let interval = self.intervals[i];
            let ghost ii = i as int;
            if inserted {
                out.push(interval);
                proof {
                    assert(out@ =~= s.take(a) + seq![m] + s.subrange(b, ii + 1));
                }
            } else if interval.end < start && start - interval.end > 1 {
                // Entirely before, with at least one column in between.
                out.push(interval);
                proof {
                    assert(out@ =~= s.take(ii + 1));
                }
            } else if interval.start > end && interval.start - end > 1 {
                // Entirely after, with at least one column in between.
                out.push(Interval::new(cur_start, cur_end));
                out.push(interval);
                proof {
                    assert(ii == b);
                    assert(out@ =~= s.take(a) + seq![m] + s.subrange(b, ii + 1));
                }
                inserted = true;
            } else {
                // Overlapping or touching: widen the merged interval.
                proof {
                    assert(a <= ii < b);
                    if ii > a {
                        assert(s[a].end + 1 < s[ii].start);
                        assert(s[a].start <= s[a].end);
                        assert(s[ii - 1].end + 1 < s[ii].start);
                        assert(s[ii].start <= s[ii].end);
                    }
                }
                if interval.start < cur_start {
                    cur_start = interval.start;
                }
                if interval.end > cur_end {
                    cur_end = interval.end;
                }
            }
            i = i + 1;
        }
        if !inserted {
            out.push(Interval::new(cur_start, cur_end));
            proof {
                assert(out@ =~= s.take(a) + seq![m] + s.subrange(b, n as int));
            }
        }
        proof {
            assert(s.subrange(b, n as int) =~= s.skip(b));
        }
        self.intervals = out;
    }

    /// The sparsity pattern of a matrix from the per-column flags telling which columns
    /// hold a non-zero entry: one interval per maximal run of non-zero columns.
    pub fn detect_columns_from_flags(nonzero: &Vec<bool>) -> (r: Sparsity)
        ensures
            r.wf(),
            forall|k: int|
                0 <= k < r.intervals@.len() ==> is_maximal_run(nonzero@, #[trigger] r.intervals@[k]),
            r.columns() == set_flags(nonzero@, nonzero@.len() as int),
    {
        let n = nonzero.len();
        let mut sparsity = Sparsity::new();
        let mut last_nonzero: Option<usize> = None;
        let ghost flags = nonzero@;
        proof {
            assert(sparsity.columns() =~= set_flags(flags, 0));
        }
        for column in 0..n
            invariant
                n == flags.len(),
                flags == nonzero@,
                sparsity.wf(),
                forall|k: int|
                    0 <= k < sparsity.intervals@.len() ==> is_maximal_run(
                        flags,
                        #[trigger] sparsity.intervals@[k],
                    ),
                match last_nonzero {
                    Some(st) => {
                        &&& st < column
                        &&& forall|c: int| st <= c < column ==> #[trigger] flags[c]
                        &&& (st == 0 || !flags[st - 1])
                        &&& forall|k: int|
                            0 <= k < sparsity.intervals@.len() ==> #[trigger] sparsity.intervals@[k].end
                                < st
                        &&& sparsity.columns() == set_flags(flags, st as int)
                    },
                    None => {
                        &&& (column == 0 || !flags[column - 1])
                        &&& forall|k: int|
                            0 <= k < sparsity.intervals@.len() ==> #[trigger] sparsity.intervals@[k].end
                                < column
                        &&& sparsity.columns() == set_flags(flags, column as int)
                    },
                },
        {
            if !nonzero[column] {
                if let Some(start) = last_nonzero {
                    let ghost before = sparsity.intervals@;
                    proof {
                        lemma_insert_after(before, start, (column - 1) as usize);
                    }
                    sparsity.add_interval(start, column - 1);
                    last_nonzero = None;
                    proof {
                        let iv = Interval { start, end: (column - 1) as usize };
                        assert(sparsity.intervals@ == before.push(iv));
                        assert forall|k: int| 0 <= k < sparsity.intervals@.len() implies is_maximal_run(
                            flags,
                            #[trigger] sparsity.intervals@[k],
                        ) by {
                            if k < before.len() {
                                assert(sparsity.intervals@[k] == before[k]);
                            }
                        }
                        assert(sparsity.columns() =~= set_flags(flags, column + 1));
                    }
                } else {
                    proof {
                        assert(sparsity.columns() =~= set_flags(flags, column + 1));
                    }
                }
            } else if last_nonzero.is_none() {
                last_nonzero = Some(column);
            }
        }
        if let Some(start) = last_nonzero {
            let ghost before = sparsity.intervals@;
            proof {
                lemma_insert_after(before, start, (n - 1) as usize);
            }
            sparsity.add_interval(start, n - 1);
            proof {
                let iv = Interval { start, end: (n - 1) as usize };
                assert(sparsity.intervals@ == before.push(iv));
                assert forall|k: int| 0 <= k < sparsity.intervals@.len() implies is_maximal_run(
                    flags,
                    #[trigger] sparsity.intervals@[k],
                ) by {
                    if k < before.len() {
                        assert(sparsity.intervals@[k] == before[k]);
                    }
                }
                assert(sparsity.columns() =~= set_flags(flags, n as int));
            }
        } else {
            proof {
                assert(sparsity.columns() =~= set_flags(flags, n as int));
            }
        }
        sparsity
    }

}

impl<'a> core::ops::Add for &'a Sparsity {
    type Output = Sparsity;

    /// The union of two sparsity patterns: every interval of `self`, then every interval
    /// of `other`, added in turn to an empty pattern.
    fn add(self, other: &'a Sparsity) -> (r: Sparsity)
        ensures
            r.intervals@ == insert_all(Seq::empty(), self.intervals@ + other.intervals@),
            r.wf(),
            r.columns() == self.columns().union(other.columns()),
    {
        let ghost all = self.intervals@ + other.intervals@;
        let mut s = Sparsity::new();
        let n = self.intervals.len();
        let m = other.intervals.len();
        proof {
            assert(all.take(0) =~= Seq::<Interval>::empty());
        }
        for i in 0..n
            invariant
                n == self.intervals@.len(),
                all == self.intervals@ + other.intervals@,
                self.wf(),
                s.intervals@ == insert_all(Seq::empty(), all.take(i as int)),
                s.wf(),
        {
            let iv = self.intervals[i];
            proof {
                assert(all.take(i + 1).drop_last() =~= all.take(i as int));
                assert(all.take(i + 1).last() == iv);
            }
            s.add_interval(iv.start, iv.end);
        }
        for j in 0..m
            invariant
                n == self.intervals@.len(),
                m == other.intervals@.len(),
                all == self.intervals@ + other.intervals@,
                other.wf(),
                s.intervals@ == insert_all(Seq::empty(), all.take(n + j)),
                s.wf(),
        {
            let iv = other.intervals[j];
            proof {
                assert(all.take(n + j + 1).drop_last() =~= all.take(n + j));
                assert(all.take(n + j + 1).last() == iv);
            }
            s.add_interval(iv.start, iv.end);
        }
        proof {
            assert(all.take(n + m) =~= all);
            assert forall|k: int| 0 <= k < all.len() implies #[trigger] all[k].start
                <= all[k].end by {
                if k < n {
                    assert(all[k] == self.intervals@[k]);
                } else {
                    assert(all[k] == other.intervals@[k - n]);
                }
            }
            lemma_insert_all(Seq::empty(), all);
            lemma_covered_concat(self.intervals@, other.intervals@);
            assert(covered(Seq::<Interval>::empty()) =~= Set::<int>::empty());
            assert(s.columns() =~= self.columns().union(other.columns()));
        }
        s
    }

}

/// The sum of two sparsity patterns needs both to be well formed; its value is stated
/// by the `ensures` of `add` rather than by a spec function.
impl<'a> vstd::std_specs::ops::AddSpecImpl for &'a Sparsity {
    open spec fn obeys_add_spec() -> bool {
        false
    }

    open spec fn add_req(self, rhs: &'a Sparsity) -> bool {
        self.wf() && rhs.wf()
    }

    open spec fn add_spec(self, rhs: &'a Sparsity) -> Sparsity {
        arbitrary()
    }
}

} // verus!
