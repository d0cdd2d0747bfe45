//! Grouping of a footstep sequence into supports.
use vstd::prelude::*;

verus! {

/// One support of a walk, by the indices of its footsteps in the planned sequence.
#[derive(Clone, Debug)]
pub struct SupportLayout {
    /// Indices of the footsteps on the ground (one: single support, two: double).
    pub footsteps: Vec<usize>,
    /// Whether this is the initial support.
    pub start: bool,
    /// Whether this is the final support.
    pub end: bool,
    /// Whether the support starts at the walk's start time.
    pub starts_walk: bool,
}

/// The plain content of a support layout.
pub struct SupportPlan {
    /// Indices of the footsteps on the ground.
    pub footsteps: Seq<usize>,
    /// Whether this is the initial support.
    pub start: bool,
    /// Whether this is the final support.
    pub end: bool,
    /// Whether the support starts at the walk's start time.
    pub starts_walk: bool,
}

impl View for SupportLayout {
    type V = SupportPlan;

    open spec fn view(&self) -> SupportPlan {
        SupportPlan {
            footsteps: self.footsteps@,
            start: self.start,
            end: self.end,
            starts_walk: self.starts_walk,
        }
    }
}

/// A support on the given footsteps, neither initial nor final.
pub open spec fn plain_support(footsteps: Seq<usize>) -> SupportPlan {
    SupportPlan { footsteps, start: false, end: false, starts_walk: false }
}

/// The supports that open the walk.
pub open spec fn opening_supports(start: bool, middle: bool) -> Seq<SupportPlan> {
    if start {
        seq![SupportPlan { footsteps: seq![0usize, 1usize], start: true, end: false, starts_walk: true }]
    } else {
        seq![SupportPlan { footsteps: seq![0usize], start: false, end: false, starts_walk: true }]
            + if middle {
            seq![SupportPlan { footsteps: seq![0usize, 1usize], start: false, end: false, starts_walk: true }]
        } else {
            Seq::empty()
        }
    }
}

/// The supports of steps `1..k` of a walk of `n` footsteps: each step's single
/// support, followed (with `middle`, except for the last step `n - 2`) by the double
/// support towards the next footstep.
pub open spec fn step_supports(n: nat, middle: bool, k: nat) -> Seq<SupportPlan>
    decreases k,
{
    if k <= 1 {
        Seq::empty()
    } else {
        let step = (k - 1) as usize;
        step_supports(n, middle, (k - 1) as nat) + seq![plain_support(seq![step])] + if middle
            && step != n - 2 {
            seq![plain_support(seq![step, (step + 1) as usize])]
        } else {
            Seq::empty()
        }
    }
}

/// The support that closes the walk.
pub open spec fn closing_supports(n: nat, end: bool) -> Seq<SupportPlan> {
    if end {
        seq![SupportPlan { footsteps: seq![(n - 2) as usize, (n - 1) as usize], start: false, end: true, starts_walk: false }]
    } else {
        Seq::empty()
    }
}

/// The supports of a walk of `n` footsteps: with more than two footsteps, the opening
/// supports and those of each intermediate step; then, with `end`, the closing double
/// support on the last two footsteps.
pub open spec fn spec_support_layout(n: nat, start: bool, middle: bool, end: bool) -> Seq<
    SupportPlan,
> {
    (if n > 2 {
        opening_supports(start, middle) + step_supports(n, middle, (n - 1) as nat)
    } else {
        Seq::empty()
    }) + closing_supports(n, end)
}

/// The footsteps of a support are one footstep, or two consecutive ones, of the
/// sequence.
pub open spec fn well_placed(p: SupportPlan, n: nat) -> bool {
    ||| p.footsteps.len() == 1 && p.footsteps[0] < n
    ||| p.footsteps.len() == 2 && p.footsteps[1] == p.footsteps[0] + 1 && p.footsteps[1] < n
}

fn one_footstep(i: usize) -> (r: Vec<usize>)
    ensures
        r@ == seq![i],
{
    let mut v: Vec<usize> = Vec::new();
    v.push(i);
    v
}

fn two_footsteps(i: usize, j: usize) -> (r: Vec<usize>)
    ensures
        r@ == seq![i, j],
{
    let mut v: Vec<usize> = Vec::new();
    v.push(i);
    v.push(j);
    v
}

/// Groups a sequence of `n_footsteps` footsteps into supports: the initial double
/// support (with `start`) or single support (followed, with `middle`, by a double
/// support), the single support of each intermediate footstep (followed, with
/// `middle`, by a double support), and the final double support (with `end`).
pub fn support_layout(n_footsteps: usize, start: bool, middle: bool, end: bool) -> (r: Vec<
    SupportLayout,
>)
    requires
        end ==> n_footsteps >= 2,
    ensures
        r@.map_values(|s: SupportLayout| s@) == spec_support_layout(
            n_footsteps as nat,
            start,
            middle,
            end,
        ),
{
    let ghost n = n_footsteps as nat;
    let mut supports: Vec<SupportLayout> = Vec::new();
    if n_footsteps > 2 {
        if start {
            supports.push(
                SupportLayout {
                    footsteps: two_footsteps(0, 1),
                    start: true,
                    end: false,
                    starts_walk: true,
                },
            );
        } else {
            supports.push(
                SupportLayout {
                    footsteps: one_footstep(0),
                    start: false,
                    end: false,
                    starts_walk: true,
                },
            );
            if middle {
                supports.push(
                    SupportLayout {
                        footsteps: two_footsteps(0, 1),
                        start: false,
                        end: false,
                        starts_walk: true,
                    },
                );
            }
        }
        proof {
            assert(supports@.map_values(|s: SupportLayout| s@) =~= opening_supports(
                start,
                middle,
            ) + step_supports(n, middle, 1));
        }
        let ghost opening = opening_supports(start, middle);
        for step in 1..n_footsteps - 1
            invariant
                n == n_footsteps,
                n_footsteps > 2,
                opening == opening_supports(start, middle),
                supports@.map_values(|s: SupportLayout| s@) == opening + step_supports(
                    n,
                    middle,
                    step as nat,
                ),
        {
            let ghost before = supports@;
            supports.push(
                SupportLayout {
                    footsteps: one_footstep(step),
                    start: false,
                    end: false,
                    starts_walk: false,
                },
            );
            proof {
                assert(supports@.map_values(|s: SupportLayout| s@) =~= before.map_values(
                    |s: SupportLayout| s@,
                ).push(plain_support(seq![step])));
            }
            let ghost mid = supports@;
            let is_end = step == n_footsteps - 2;
            if !is_end && middle {
                supports.push(
                    SupportLayout {
                        footsteps: two_footsteps(step, step + 1),
                        start: false,
                        end: false,
                        starts_walk: false,
                    },
                );
            }
            proof {
                let tail: Seq<SupportPlan> = if middle && step != n - 2 {
                    seq![plain_support(seq![step, (step + 1) as usize])]
                } else {
                    Seq::empty()
                };
                assert(step_supports(n, middle, (step + 1) as nat) == step_supports(
                    n,
                    middle,
                    step as nat,
                ) + seq![plain_support(seq![step])] + tail);
                assert(supports@.map_values(|s: SupportLayout| s@) =~= mid.map_values(
                    |s: SupportLayout| s@,
                ) + tail);
                assert(supports@.map_values(|s: SupportLayout| s@) =~= opening + step_supports(
                    n,
                    middle,
                    (step + 1) as nat,
                ));
            }
        }
    }
    let ghost body = supports@.map_values(|s: SupportLayout| s@);
    if end {
        let count = n_footsteps;
        supports.push(
            SupportLayout {
                footsteps: two_footsteps(count - 2, count - 1),
                start: false,
                end: true,
                starts_walk: false,
            },
        );
    }
    proof {
        assert(supports@.map_values(|s: SupportLayout| s@) =~= body + closing_supports(n, end));
    }
    supports
}

proof fn lemma_step_supports_well_placed(n: nat, middle: bool, k: nat)
    requires
        k <= n - 1,
        n <= usize::MAX,
    ensures
        forall|i: int|
            0 <= i < step_supports(n, middle, k).len() ==> well_placed(
                #[trigger] step_supports(n, middle, k)[i],
                n,
            ),
    decreases k,
{
    if k > 1 {
        lemma_step_supports_well_placed(n, middle, (k - 1) as nat);
        let prev = step_supports(n, middle, (k - 1) as nat);
        let all = step_supports(n, middle, k);
        assert forall|i: int| 0 <= i < all.len() implies well_placed(#[trigger] all[i], n) by {
            if i < prev.len() {
                assert(all[i] == prev[i]);
            }
        }
    }
}

/// Every support of a walk stands on one footstep or on two consecutive footsteps of
/// the sequence; with `start` (and more than two footsteps) the first support is the
/// initial double support on the first two footsteps, and with `end` the last support
/// is the final double support on the last two.
pub proof fn lemma_support_layout_shape(n: nat, start: bool, middle: bool, end: bool)
    requires
        end ==> n >= 2,
        n <= usize::MAX,
    ensures
        forall|i: int|
            0 <= i < spec_support_layout(n, start, middle, end).len() ==> well_placed(
                #[trigger] spec_support_layout(n, start, middle, end)[i],
                n,
            ),
        start && n > 2 ==> spec_support_layout(n, start, middle, end)[0] == (SupportPlan {
            footsteps: seq![0usize, 1usize],
            start: true,
            end: false,
            starts_walk: true,
        }),
        end ==> spec_support_layout(n, start, middle, end).last() == (SupportPlan {
            footsteps: seq![(n - 2) as usize, (n - 1) as usize],
            start: false,
            end: true,
            starts_walk: false,
        }),
{
    let all = spec_support_layout(n, start, middle, end);
    if n > 2 {
        lemma_step_supports_well_placed(n, middle, (n - 1) as nat);
        let o = opening_supports(start, middle);
        let st = step_supports(n, middle, (n - 1) as nat);
        assert forall|i: int| 0 <= i < all.len() implies well_placed(#[trigger] all[i], n) by {
            if i < o.len() {
                assert(all[i] == o[i]);
            } else if i < o.len() + st.len() {
                assert(all[i] == st[i - o.len()]);
            }
        }
    }
}

/// The `j`-th of the supports of the intermediate steps: without `middle`, the single
/// support of footstep `j + 1`; with `middle`, alternately the single support of
/// footstep `j / 2 + 1` (even `j`) and the double support on footsteps `j / 2 + 1` and
/// `j / 2 + 2` (odd `j`).
pub open spec fn step_support_at(middle: bool, j: int) -> SupportPlan {
    if !middle {
        plain_support(seq![(j + 1) as usize])
    } else if j % 2 == 0 {
        plain_support(seq![(j / 2 + 1) as usize])
    } else {
        plain_support(seq![(j / 2 + 1) as usize, (j / 2 + 2) as usize])
    }
}

/// How many supports the intermediate steps of a walk of `n > 2` footsteps give:
/// `n - 2` single supports, and with `middle` the `n - 3` double supports between them.
pub open spec fn step_support_count(n: nat, middle: bool) -> nat {
    if middle {
        (2 * n - 5) as nat
    } else {
        (n - 2) as nat
    }
}

proof fn lemma_step_supports_closed(n: nat, middle: bool, k: nat)
    requires
        2 < n <= usize::MAX,
        1 <= k <= n - 1,
    ensures
        step_supports(n, middle, k).len() == (if !middle {
            k - 1
        } else if k == n - 1 {
            2 * k - 3
        } else {
            2 * k - 2
        }),
        forall|j: int|
            0 <= j < step_supports(n, middle, k).len() ==> #[trigger] step_supports(
                n,
                middle,
                k,
            )[j] == step_support_at(middle, j),
    decreases k,
{
    if k > 1 {
        lemma_step_supports_closed(n, middle, (k - 1) as nat);
        let prev = step_supports(n, middle, (k - 1) as nat);
        let all = step_supports(n, middle, k);
        assert forall|j: int| 0 <= j < all.len() implies #[trigger] all[j] == step_support_at(
            middle,
            j,
        ) by {
            if j < prev.len() {
                assert(all[j] == prev[j]);
            } else if !middle {
                assert(j == k - 2);
            } else if j == prev.len() {
                assert(j == 2 * k - 4);
                assert(j / 2 + 1 == k - 1);
            } else {
                assert(j == 2 * k - 3);
                assert(j / 2 + 1 == k - 1);
            }
        }
    }
}

/// The supports of a walk, position by position: with more than two footsteps, the
/// opening supports, then `step_support_count` supports of the intermediate steps in
/// the order given by `step_support_at`, then (with `end`) the closing support; with two
/// footsteps or fewer, only the closing support.
pub proof fn lemma_support_layout_indices(n: nat, start: bool, middle: bool, end: bool)
    requires
        end ==> n >= 2,
        n <= usize::MAX,
    ensures
        n > 2 ==> spec_support_layout(n, start, middle, end).len() == opening_supports(
            start,
            middle,
        ).len() + step_support_count(n, middle) + (if end {
            1int
        } else {
            0int
        }),
        n > 2 ==> opening_supports(start, middle).len() == (if !start && middle {
            2int
        } else {
            1int
        }),
        n > 2 ==> forall|j: int|
            0 <= j < step_support_count(n, middle) ==> #[trigger] spec_support_layout(
                n,
                start,
                middle,
                end,
            )[opening_supports(start, middle).len() + j] == step_support_at(middle, j),
        n > 2 ==> forall|j: int|
            0 <= j < opening_supports(start, middle).len() ==> spec_support_layout(
                n,
                start,
                middle,
                end,
            )[j] == #[trigger] opening_supports(start, middle)[j],
        n <= 2 ==> spec_support_layout(n, start, middle, end) == closing_supports(n, end),
{
    let all = spec_support_layout(n, start, middle, end);
    if n > 2 {
        lemma_step_supports_closed(n, middle, (n - 1) as nat);
        let o = opening_supports(start, middle);
        let st = step_supports(n, middle, (n - 1) as nat);
        assert(st.len() == step_support_count(n, middle));
        assert forall|j: int| 0 <= j < step_support_count(n, middle) implies #[trigger] all[o.len()
            + j] == step_support_at(middle, j) by {
            assert(all[o.len() + j] == st[j]);
        }
    } else {
        assert(all =~= closing_supports(n, end));
    }
}

/// The support at position `p` of a walk, by the part of the walk it belongs to.
proof fn lemma_support_layout_at(n: nat, start: bool, middle: bool, end: bool, p: int)
    requires
        end ==> n >= 2,
        n <= usize::MAX,
        0 <= p < spec_support_layout(n, start, middle, end).len(),
    ensures
        ({
            let l = spec_support_layout(n, start, middle, end);
            let o = opening_supports(start, middle).len() as int;
            let c = step_support_count(n, middle) as int;
            &&& n > 2 ==> l.len() == o + c + (if end {
                1int
            } else {
                0int
            })
            &&& n <= 2 ==> l.len() == (if end {
                1int
            } else {
                0int
            })
            &&& (n > 2 && p < o) ==> l[p] == opening_supports(start, middle)[p]
            &&& (n > 2 && o <= p < o + c) ==> l[p] == step_support_at(middle, p - o)
            &&& (n <= 2 || p >= o + c) ==> (end && p == l.len() - 1 && l[p] == closing_supports(
                n,
                end,
            )[0])
        }),
{
    lemma_support_layout_indices(n, start, middle, end);
    let l = spec_support_layout(n, start, middle, end);
    let o = opening_supports(start, middle).len() as int;
    let c = step_support_count(n, middle) as int;
    if n > 2 {
        lemma_step_supports_closed(n, middle, (n - 1) as nat);
        if p >= o + c {
            assert(l[p] == closing_supports(n, end)[p - o - c]);
        }
    }
}

/// The walk opens on the first footstep: with more than two footsteps, the first
/// support is the initial double support on footsteps `0` and `1` when `start` is
/// requested, and otherwise the single support on footstep `0`; either way it starts at
/// the walk's start time. Only that first support can be initial, only when `start` is
/// requested; only the last support can be final, exactly when `end` is requested; and
/// the supports that start at the walk's start time are the first one and, without
/// `start` and with `middle`, the double support right after it.
pub proof fn lemma_support_layout_flags(n: nat, start: bool, middle: bool, end: bool)
    requires
        end ==> n >= 2,
        n <= usize::MAX,
    ensures
        n > 2 && !start ==> spec_support_layout(n, start, middle, end)[0] == (SupportPlan {
            footsteps: seq![0usize],
            start: false,
            end: false,
            starts_walk: true,
        }),
        n > 2 && start ==> spec_support_layout(n, start, middle, end)[0] == (SupportPlan {
            footsteps: seq![0usize, 1usize],
            start: true,
            end: false,
            starts_walk: true,
        }),
        forall|i: int|
            0 <= i < spec_support_layout(n, start, middle, end).len() ==> (#[trigger] spec_support_layout(
                n,
                start,
                middle,
                end,
            )[i].start ==> i == 0 && start && n > 2),
        forall|i: int|
            0 <= i < spec_support_layout(n, start, middle, end).len() ==> (#[trigger] spec_support_layout(
                n,
                start,
                middle,
                end,
            )[i].end <==> end && i == spec_support_layout(n, start, middle, end).len() - 1),
        forall|i: int|
            0 <= i < spec_support_layout(n, start, middle, end).len() ==> (#[trigger] spec_support_layout(
                n,
                start,
                middle,
                end,
            )[i].starts_walk <==> n > 2 && (i == 0 || (i == 1 && !start && middle))),
{
    let l = spec_support_layout(n, start, middle, end);
    if n > 2 {
        lemma_support_layout_at(n, start, middle, end, 0);
    }
    assert forall|i: int| 0 <= i < l.len() && #[trigger] l[i].start implies i == 0 && start && n
        > 2 by {
        lemma_support_layout_at(n, start, middle, end, i);
    }
    assert forall|i: int| 0 <= i < l.len() implies (#[trigger] l[i].end <==> end && i == l.len()
        - 1) by {
        lemma_support_layout_at(n, start, middle, end, i);
    }
    assert forall|i: int| 0 <= i < l.len() implies (#[trigger] l[i].starts_walk <==> n > 2 && (i
        == 0 || (i == 1 && !start && middle))) by {
        lemma_support_layout_at(n, start, middle, end, i);
    }
}

/// Some support of `supports` stands on footstep `k`.
pub open spec fn stood_on(supports: Seq<SupportPlan>, k: int) -> bool {
    exists|i: int| 0 <= i < supports.len() && #[trigger] supports[i].footsteps.contains(k as usize)
}

/// The single supports stand on strictly increasing footsteps: the walk never goes back
/// to, or repeats, a footstep it stood on alone.
#[verifier::rlimit(40)]
pub proof fn lemma_support_layout_singles_increase(n: nat, start: bool, middle: bool, end: bool)
    requires
        end ==> n >= 2,
        n <= usize::MAX,
    ensures
        forall|i: int, j: int|
            0 <= i < j < spec_support_layout(n, start, middle, end).len()
                && (#[trigger] spec_support_layout(n, start, middle, end)[i]).footsteps.len() == 1
                && (#[trigger] spec_support_layout(n, start, middle, end)[j]).footsteps.len() == 1
                ==> spec_support_layout(n, start, middle, end)[i].footsteps[0]
                < spec_support_layout(n, start, middle, end)[j].footsteps[0],
{
    let l = spec_support_layout(n, start, middle, end);
    let o = opening_supports(start, middle).len() as int;
    let c = step_support_count(n, middle) as int;
    assert forall|i: int, j: int|
        0 <= i < j < l.len() && (#[trigger] l[i]).footsteps.len() == 1 && (
        #[trigger] l[j]).footsteps.len() == 1 implies l[i].footsteps[0] < l[j].footsteps[0] by {
        lemma_support_layout_at(n, start, middle, end, i);
        lemma_support_layout_at(n, start, middle, end, j);
        if n > 2 && o <= i < o + c && o <= j < o + c && middle {
            assert((i - o) % 2 == 0 && (j - o) % 2 == 0);
            assert((i - o) / 2 < (j - o) / 2);
        }
    }
}

/// With the final support, every footstep of the sequence is stood on by some support.
#[verifier::rlimit(40)]
pub proof fn lemma_support_layout_stands_on_all(n: nat, start: bool, middle: bool)
    requires
        n >= 2,
        n <= usize::MAX,
    ensures
        forall|k: int| 0 <= k < n ==> #[trigger] stood_on(spec_support_layout(n, start, middle, true), k),
{
    let l = spec_support_layout(n, start, middle, true);
    let o = opening_supports(start, middle).len() as int;
    assert forall|k: int| 0 <= k < n implies #[trigger] stood_on(l, k) by {
        let last = l.len() - 1;
        lemma_support_layout_at(n, start, middle, true, last);
        if k >= n - 2 {
            assert(l[last].footsteps[k - (n - 2)] == k as usize);
            assert(l[last].footsteps.contains(k as usize));
        } else if k == 0 {
            lemma_support_layout_at(n, start, middle, true, 0);
            assert(l[0].footsteps[0] == 0usize);
            assert(l[0].footsteps.contains(k as usize));
        } else {
            let j = if middle {
                2 * (k - 1)
            } else {
                k - 1
            };
            lemma_support_layout_at(n, start, middle, true, o + j);
            assert(l[o + j].footsteps[0] == k as usize);
            assert(l[o + j].footsteps.contains(k as usize));
        }
    }
}

/// Without `middle`, the only double supports are the initial and the final ones.
pub proof fn lemma_support_layout_doubles(n: nat, start: bool, end: bool)
    requires
        end ==> n >= 2,
        n <= usize::MAX,
    ensures
        forall|i: int|
            0 <= i < spec_support_layout(n, start, false, end).len() && (
            #[trigger] spec_support_layout(n, start, false, end)[i]).footsteps.len() == 2
                ==> spec_support_layout(n, start, false, end)[i].start
                || spec_support_layout(n, start, false, end)[i].end,
{
    let l = spec_support_layout(n, start, false, end);
    assert forall|i: int| 0 <= i < l.len() && (#[trigger] l[i]).footsteps.len() == 2 implies l[i].start
        || l[i].end by {
        lemma_support_layout_at(n, start, false, end, i);
    }
}

/// Support `a` comes before support `b` in walking order: it stands on an earlier first
/// footstep, or on the same first footstep with fewer footsteps (the single support on a
/// footstep comes before the double support that leaves it).
pub open spec fn walks_before(a: SupportPlan, b: SupportPlan) -> bool {
    ||| a.footsteps[0] < b.footsteps[0]
    ||| a.footsteps[0] == b.footsteps[0] && a.footsteps.len() < b.footsteps.len()
}

/// The supports come in strict walking order: each one stands on a later first footstep
/// than the one before it, or on the same first footstep as a double support after a
/// single one.
#[verifier::rlimit(60)]
pub proof fn lemma_support_layout_order(n: nat, start: bool, middle: bool, end: bool)
    requires
        end ==> n >= 2,
        n <= usize::MAX,
    ensures
        forall|i: int, j: int|
            0 <= i < j < spec_support_layout(n, start, middle, end).len() ==> walks_before(
                #[trigger] spec_support_layout(n, start, middle, end)[i],
                #[trigger] spec_support_layout(n, start, middle, end)[j],
            ),
{
    let l = spec_support_layout(n, start, middle, end);
    let o = opening_supports(start, middle).len() as int;
    let c = step_support_count(n, middle) as int;
    assert forall|i: int, j: int| 0 <= i < j < l.len() implies walks_before(
        #[trigger] l[i],
        #[trigger] l[j],
    ) by {
        lemma_support_layout_at(n, start, middle, end, i);
        lemma_support_layout_at(n, start, middle, end, j);
        if n > 2 && middle && o <= i < o + c && o <= j < o + c {
            assert((i - o) / 2 <= (j - o) / 2);
            if (i - o) / 2 == (j - o) / 2 {
                assert((i - o) % 2 == 0 && (j - o) % 2 == 1);
            }
        }
        if n > 2 && middle && o <= i < o + c && j >= o + c {
            assert(i - o <= 2 * n - 6);
            assert((i - o) / 2 + 1 <= n - 2);
        }
    }
}

/// Some support of `l` is the single support on footstep `k`.
pub open spec fn has_single(l: Seq<SupportPlan>, k: int) -> bool {
    exists|i: int| 0 <= i < l.len() && #[trigger] l[i].footsteps.len() == 1 && l[i].footsteps[0] == k
}

/// Some support of `l` is a double support whose first footstep is `k`.
pub open spec fn has_double(l: Seq<SupportPlan>, k: int) -> bool {
    exists|i: int| 0 <= i < l.len() && #[trigger] l[i].footsteps.len() == 2 && l[i].footsteps[0] == k
}

/// Which supports a walk has. With more than two footsteps, there is a single support on
/// every footstep but the last, except on the first one when the walk opens with the
/// initial double support. The double supports are that initial one on footsteps `0`
/// and `1`, with `middle` one between each pair of consecutive footsteps before the last
/// step, and with `end` the final one on the last two footsteps.
#[verifier::rlimit(60)]
pub proof fn lemma_support_layout_members(n: nat, start: bool, middle: bool, end: bool)
    requires
        end ==> n >= 2,
        n <= usize::MAX,
    ensures
        forall|k: int|
            #[trigger] has_single(spec_support_layout(n, start, middle, end), k) <==> (n > 2 && 0
                <= k <= n - 2 && (k > 0 || !start)),
        forall|k: int|
            #[trigger] has_double(spec_support_layout(n, start, middle, end), k) <==> ((n > 2
                && k == 0 && (start || middle)) || (n > 2 && middle && 0 <= k && k + 3 <= n) || (
            end && k == n - 2)),
{
    let l = spec_support_layout(n, start, middle, end);
    let o = opening_supports(start, middle).len() as int;
    let c = step_support_count(n, middle) as int;
    lemma_support_layout_indices(n, start, middle, end);
    assert forall|k: int| #[trigger] has_single(l, k) <==> (n > 2 && 0 <= k <= n - 2 && (k > 0
        || !start)) by {
        if has_single(l, k) {
            let i = choose|i: int|
                0 <= i < l.len() && #[trigger] l[i].footsteps.len() == 1 && l[i].footsteps[0] == k;
            lemma_support_layout_at(n, start, middle, end, i);
            if n > 2 && o <= i < o + c && middle {
                assert((i - o) % 2 == 0);
                assert(i - o <= 2 * n - 6);
            }
        }
        if n > 2 && 0 <= k <= n - 2 && (k > 0 || !start) {
            let i = if k == 0 {
                0
            } else if middle {
                o + 2 * (k - 1)
            } else {
                o + (k - 1)
            };
            lemma_support_layout_at(n, start, middle, end, i);
            assert(l[i].footsteps.len() == 1 && l[i].footsteps[0] == k);
        }
    }
    assert forall|k: int| #[trigger] has_double(l, k) <==> ((n > 2 && k == 0 && (start || middle))
        || (n > 2 && middle && 0 <= k && k + 3 <= n) || (end && k == n - 2)) by {
        if has_double(l, k) {
            let i = choose|i: int|
                0 <= i < l.len() && #[trigger] l[i].footsteps.len() == 2 && l[i].footsteps[0] == k;
            lemma_support_layout_at(n, start, middle, end, i);
            if n > 2 && o <= i < o + c && middle {
                assert((i - o) % 2 == 1);
                assert(i - o <= 2 * n - 6);
            }
        }
        if n > 2 && k == 0 && (start || middle) {
            let i = if start {
                0
            } else {
                1
            };
            lemma_support_layout_at(n, start, middle, end, i);
            assert(l[i].footsteps.len() == 2 && l[i].footsteps[0] == k);
        } else if n > 2 && middle && 0 <= k && k + 3 <= n {
            let i = o + 2 * (k - 1) + 1;
            lemma_support_layout_at(n, start, middle, end, i);
            assert(l[i].footsteps.len() == 2 && l[i].footsteps[0] == k);
        } else if end && k == n - 2 {
            let i = l.len() - 1;
            lemma_support_layout_at(n, start, middle, end, i);
            assert(l[i].footsteps.len() == 2 && l[i].footsteps[0] == k);
        }
    }
}

} // verus!
