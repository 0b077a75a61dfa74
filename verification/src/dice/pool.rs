//! Operations on the sequence of dice: putting a range in order, marking a
//! range as kept or dropped, and adding up results.

use vstd::prelude::*;
use crate::dice::eval::DieRoll;

verus! {

/// Whether `a` may stand before `b`: not lower when ordering from the
/// highest result down, not higher when ordering from the lowest up.
pub open spec fn before(a: DieRoll, b: DieRoll, high: bool) -> bool {
    if high {
        a.result >= b.result
    } else {
        a.result <= b.result
    }
}

/// `s`, which is in order, with `x` put in behind every die that may stand
/// before it.
pub open spec fn insert(s: Seq<DieRoll>, x: DieRoll, high: bool) -> Seq<DieRoll>
    decreases s.len(),
{
    if s.len() == 0 {
        seq![x]
    } else if before(s.last(), x, high) {
        s.push(x)
    } else {
        insert(s.drop_last(), x, high).push(s.last())
    }
}

/// The dice of `s` in order of their results, from the highest down if `high`
/// and from the lowest up otherwise. Dice with equal results keep the order
/// they had.
pub open spec fn sorted(s: Seq<DieRoll>, high: bool) -> Seq<DieRoll>
    decreases s.len(),
{
    if s.len() == 0 {
        s
    } else {
        insert(sorted(s.drop_last(), high), s.last(), high)
    }
}

/// `rolls` with the dice at `start..end` put in order.
pub open spec fn sort_range(rolls: Seq<DieRoll>, start: int, end: int, high: bool) -> Seq<DieRoll> {
    rolls.subrange(0, start) + sorted(rolls.subrange(start, end), high) + rolls.subrange(
        end,
        rolls.len() as int,
    )
}

/// `rolls` with the dice at `start..end` marked as kept, or as dropped.
pub open spec fn flag(rolls: Seq<DieRoll>, start: int, end: int, keep: bool) -> Seq<DieRoll> {
    Seq::new(
        rolls.len(),
        |i: int|
            if start <= i < end {
                DieRoll { keep, ..rolls[i] }
            } else {
                rolls[i]
            },
    )
}

/// The sum of the results of all dice in `s`, wrapping on overflow.
pub open spec fn total(s: Seq<DieRoll>) -> i32
    decreases s.len(),
{
    if s.len() == 0 {
        0
    } else {
        total(s.drop_last()).wrapping_add(s.last().result)
    }
}

/// The sum of the results of the kept dice in `s`, wrapping on overflow.
pub open spec fn kept_total(s: Seq<DieRoll>) -> i32
    decreases s.len(),
{
    if s.len() == 0 {
        0
    } else if s.last().keep {
        kept_total(s.drop_last()).wrapping_add(s.last().result)
    } else {
        kept_total(s.drop_last())
    }
}


/// Putting dice in order changes neither how many there are nor what holds
/// of each of them.
pub proof fn lemma_insert_keeps(s: Seq<DieRoll>, x: DieRoll, high: bool, p: spec_fn(DieRoll) -> bool)
    requires
        forall|i: int| 0 <= i < s.len() ==> p(#[trigger] s[i]),
        p(x),
    ensures
        insert(s, x, high).len() == s.len() + 1,
        forall|i: int| 0 <= i < s.len() + 1 ==> p(#[trigger] insert(s, x, high)[i]),
    decreases s.len(),
{
    if s.len() > 0 && !before(s.last(), x, high) {
        lemma_insert_keeps(s.drop_last(), x, high, p);
    }
}

/// Putting dice in order changes neither how many there are nor what holds
/// of each of them.
pub proof fn lemma_sorted_keeps(s: Seq<DieRoll>, high: bool, p: spec_fn(DieRoll) -> bool)
    requires
        forall|i: int| 0 <= i < s.len() ==> p(#[trigger] s[i]),
    ensures
        sorted(s, high).len() == s.len(),
        forall|i: int| 0 <= i < s.len() ==> p(#[trigger] sorted(s, high)[i]),
    decreases s.len(),
{
    if s.len() > 0 {
        lemma_sorted_keeps(s.drop_last(), high, p);
        lemma_insert_keeps(sorted(s.drop_last(), high), s.last(), high, p);
    }
}

/// Whether the dice stand in order: each may stand before all behind it.
pub open spec fn ordered(s: Seq<DieRoll>, high: bool) -> bool {
    forall|i: int, j: int| 0 <= i < j < s.len() ==> before(#[trigger] s[i], #[trigger] s[j], high)
}

/// Putting a die into dice that stand in order leaves them in order.
pub proof fn lemma_insert_ordered(s: Seq<DieRoll>, x: DieRoll, high: bool)
    requires
        ordered(s, high),
    ensures
        ordered(insert(s, x, high), high),
    decreases s.len(),
{
    let out = insert(s, x, high);
    if s.len() == 0 {
    } else if before(s.last(), x, high) {
        assert forall|i: int, j: int| 0 <= i < j < out.len() implies before(
            #[trigger] out[i],
            #[trigger] out[j],
            high,
        ) by {
            if j == s.len() {
                if i < s.len() - 1 {
                    assert(before(s[i], s[s.len() - 1], high));
                }
            } else {
                assert(before(s[i], s[j], high));
            }
        }
    } else {
        let rest = s.drop_last();
        assert(ordered(rest, high)) by {
            assert forall|i: int, j: int| 0 <= i < j < rest.len() implies before(
                #[trigger] rest[i],
                #[trigger] rest[j],
                high,
            ) by {
                assert(before(s[i], s[j], high));
            }
        }
        lemma_insert_ordered(rest, x, high);
        let last = s.last();
        assert forall|i: int| 0 <= i < rest.len() implies (|d: DieRoll| before(d, last, high))(
            #[trigger] rest[i],
        ) by {
            assert(before(s[i], s[s.len() - 1], high));
        }
        lemma_insert_keeps(rest, x, high, |d: DieRoll| before(d, last, high));
        let shorter = insert(rest, x, high);
        assert forall|i: int, j: int| 0 <= i < j < out.len() implies before(
            #[trigger] out[i],
            #[trigger] out[j],
            high,
        ) by {
            if j == shorter.len() {
                assert((|d: DieRoll| before(d, last, high))(shorter[i]));
            } else {
                assert(before(shorter[i], shorter[j], high));
            }
        }
    }
}

/// What [`sorted`] gives stands in order.
pub proof fn lemma_sorted_ordered(s: Seq<DieRoll>, high: bool)
    ensures
        ordered(sorted(s, high), high),
    decreases s.len(),
{
    if s.len() > 0 {
        lemma_sorted_ordered(s.drop_last(), high);
        lemma_insert_ordered(sorted(s.drop_last(), high), s.last(), high);
    }
}

/// Putting a die into a sequence adds the die and nothing else.
pub proof fn lemma_insert_permutes(s: Seq<DieRoll>, x: DieRoll, high: bool)
    ensures
        insert(s, x, high).to_multiset() == s.to_multiset().insert(x),
    decreases s.len(),
{
    broadcast use vstd::seq_lib::to_multiset_build;

    if s.len() == 0 {
        assert(insert(s, x, high) =~= s.push(x));
    } else if before(s.last(), x, high) {
    } else {
        lemma_insert_permutes(s.drop_last(), x, high);
        assert(s =~= s.drop_last().push(s.last()));
        assert(s.drop_last().to_multiset().insert(x).insert(s.last()) =~= s.drop_last().to_multiset().insert(
            s.last(),
        ).insert(x));
    }
}

/// What [`sorted`] gives holds the dice it was given, each as often as it
/// was given.
pub proof fn lemma_sorted_permutes(s: Seq<DieRoll>, high: bool)
    ensures
        sorted(s, high).to_multiset() == s.to_multiset(),
    decreases s.len(),
{
    broadcast use vstd::seq_lib::to_multiset_build;

    if s.len() > 0 {
        lemma_sorted_permutes(s.drop_last(), high);
        lemma_insert_permutes(sorted(s.drop_last(), high), s.last(), high);
        assert(s =~= s.drop_last().push(s.last()));
    }
}

/// Two ordered sequences as one: where a die of each could stand next, the
/// die of the first stands before an equal die of the second.
pub open spec fn merged(a: Seq<DieRoll>, b: Seq<DieRoll>, high: bool) -> Seq<DieRoll>
    decreases a.len() + b.len(),
{
    if b.len() == 0 {
        a
    } else if a.len() == 0 {
        b
    } else if before(a.last(), b.last(), high) {
        merged(a, b.drop_last(), high).push(b.last())
    } else {
        merged(a.drop_last(), b, high).push(a.last())
    }
}

/// Merging has as many dice as the two sequences together.
pub proof fn lemma_merged_len(a: Seq<DieRoll>, b: Seq<DieRoll>, high: bool)
    ensures
        merged(a, b, high).len() == a.len() + b.len(),
    decreases a.len() + b.len(),
{
    if b.len() > 0 && a.len() > 0 {
        if before(a.last(), b.last(), high) {
            lemma_merged_len(a, b.drop_last(), high);
        } else {
            lemma_merged_len(a.drop_last(), b, high);
        }
    }
}

/// Putting a die into the second of two sequences and merging them is
/// merging them and putting the die in.
pub proof fn lemma_merged_insert(a: Seq<DieRoll>, b: Seq<DieRoll>, x: DieRoll, high: bool)
    ensures
        merged(a, insert(b, x, high), high) == insert(merged(a, b, high), x, high),
    decreases a.len() + b.len(),
{
    let bx = insert(b, x, high);
    let ab = merged(a, b, high);
    lemma_merged_len(a, b, high);
    if b.len() == 0 || before(b.last(), x, high) {
        assert(bx =~= b.push(x));
        assert(bx.last() == x);
        assert(bx.drop_last() =~= b);
        if a.len() == 0 {
            assert(ab =~= b);
        } else if before(a.last(), x, high) {
            assert(merged(a, bx, high) == ab.push(x));
            if b.len() == 0 {
                assert(ab.last() == a.last());
            } else if before(a.last(), b.last(), high) {
                assert(ab.last() == b.last());
            } else {
                assert(ab.last() == a.last());
            }
        } else {
            lemma_merged_insert(a.drop_last(), b, x, high);
            assert(merged(a, bx, high) == merged(a.drop_last(), bx, high).push(a.last()));
            if b.len() > 0 {
                assert(!before(a.last(), b.last(), high));
            }
            assert(ab == merged(a.drop_last(), b, high).push(a.last()));
            assert(ab.last() == a.last());
            assert(ab.drop_last() =~= merged(a.drop_last(), b, high));
        }
    } else {
        let shorter = insert(b.drop_last(), x, high);
        assert(bx == shorter.push(b.last()));
        assert(bx.last() == b.last());
        assert(bx.drop_last() =~= shorter);
        if a.len() == 0 {
            assert(ab =~= b);
        } else if before(a.last(), b.last(), high) {
            lemma_merged_insert(a, b.drop_last(), x, high);
            assert(ab == merged(a, b.drop_last(), high).push(b.last()));
            assert(ab.last() == b.last());
            assert(ab.drop_last() =~= merged(a, b.drop_last(), high));
        } else {
            lemma_merged_insert(a.drop_last(), b, x, high);
            assert(ab == merged(a.drop_last(), b, high).push(a.last()));
            assert(ab.last() == a.last());
            assert(ab.drop_last() =~= merged(a.drop_last(), b, high));
        }
    }
}

/// Putting two sequences in order and merging them is putting the one
/// behind the other in order.
pub proof fn lemma_merged_sorted(a: Seq<DieRoll>, b: Seq<DieRoll>, high: bool)
    ensures
        merged(sorted(a, high), sorted(b, high), high) == sorted(a + b, high),
    decreases b.len(),
{
    if b.len() == 0 {
        assert(a + b =~= a);
    } else {
        lemma_merged_sorted(a, b.drop_last(), high);
        lemma_merged_insert(sorted(a, high), sorted(b.drop_last(), high), b.last(), high);
        assert((a + b).drop_last() =~= a + b.drop_last());
        assert((a + b).last() == b.last());
    }
}

fn stands_before(a: &DieRoll, b: &DieRoll, high: bool) -> (r: bool)
    ensures
        r == before(*a, *b, high),
{
    if high {
        a.result >= b.result
    } else {
        a.result <= b.result
    }
}

/// Merges two ordered vectors of dice into one.
fn merge(a: &Vec<DieRoll>, b: &Vec<DieRoll>, high: bool) -> (out: Vec<DieRoll>)
    requires
        a.len() + b.len() <= usize::MAX,
    ensures
        out@ == merged(a@, b@, high),
{
    let n = a.len() + b.len();
    let mut out: Vec<DieRoll> = Vec::new();
    let blank = DieRoll { sides: 0, result: 0, keep: false };
    let mut k: usize = 0;
    while k < n
        invariant
            k <= n,
            out.len() == k,
        decreases n - k,
    {
        out.push(blank);
        k = k + 1;
    }
    let mut i: usize = a.len();
    let mut j: usize = b.len();
    proof {
        assert(a@.take(i as int) =~= a@);
        assert(b@.take(j as int) =~= b@);
        assert(out@.subrange(n as int, n as int) =~= Seq::<DieRoll>::empty());
        assert(merged(a@, b@, high) + Seq::<DieRoll>::empty() =~= merged(a@, b@, high));
    }
    while i > 0 || j > 0
        invariant
            i <= a.len(),
            j <= b.len(),
            n == a.len() + b.len(),
            out.len() == n,
            merged(a@, b@, high) == merged(a@.take(i as int), b@.take(j as int), high)
                + out@.subrange(i + j, n as int),
        decreases i + j,
    {
        let ghost x = a@.take(i as int);
        let ghost y = b@.take(j as int);
        let ghost tail = out@.subrange(i + j, n as int);
        let from_second = if j == 0 {
            false
        } else if i == 0 {
            true
        } else {
            stands_before(&a[i - 1], &b[j - 1], high)
        };
        if from_second {
            let die = b[j - 1];
            out.set(i + j - 1, die);
            proof {
                assert(y.last() == die);
                assert(y.drop_last() =~= b@.take(j - 1));
                if i == 0 {
                    assert(merged(x, y, high) == y);
                    assert(merged(x, y.drop_last(), high) =~= y.drop_last());
                }
                assert(merged(x, y, high) =~= merged(x, y.drop_last(), high).push(die));
                assert(out@.subrange(i + j - 1, n as int) =~= seq![die] + tail);
                assert(merged(x, y.drop_last(), high).push(die) + tail =~= merged(
                    x,
                    y.drop_last(),
                    high,
                ) + (seq![die] + tail));
            }
            j = j - 1;
        } else {
            let die = a[i - 1];
            out.set(i + j - 1, die);
            proof {
                assert(x.last() == die);
                assert(x.drop_last() =~= a@.take(i - 1));
                if j == 0 {
                    assert(merged(x, y, high) == x);
                    assert(merged(x.drop_last(), y, high) =~= x.drop_last());
                }
                assert(merged(x, y, high) =~= merged(x.drop_last(), y, high).push(die));
                assert(out@.subrange(i + j - 1, n as int) =~= seq![die] + tail);
                assert(merged(x.drop_last(), y, high).push(die) + tail =~= merged(
                    x.drop_last(),
                    y,
                    high,
                ) + (seq![die] + tail));
            }
            i = i - 1;
        }
    }
    proof {
        assert(a@.take(0) =~= Seq::<DieRoll>::empty());
        assert(b@.take(0) =~= Seq::<DieRoll>::empty());
        assert(out@.subrange(0, n as int) =~= out@);
        assert(Seq::<DieRoll>::empty() + out@ =~= out@);
    }
    out
}

/// The dice at `from..to`, put in order.
fn sort_run(v: &Vec<DieRoll>, from: usize, to: usize, high: bool) -> (out: Vec<DieRoll>)
    requires
        from <= to <= v.len(),
    ensures
        out@ == sorted(v@.subrange(from as int, to as int), high),
        out.len() == to - from,
    decreases to - from,
{
    let ghost part = v@.subrange(from as int, to as int);
    proof {
        lemma_sorted_keeps(part, high, |d: DieRoll| true);
    }
    if to - from == 0 {
        Vec::new()
    } else if to - from == 1 {
        let mut out: Vec<DieRoll> = Vec::new();
        out.push(v[from]);
        proof {
            assert(part.drop_last() =~= Seq::<DieRoll>::empty());
            assert(sorted(part.drop_last(), high) =~= Seq::<DieRoll>::empty());
            assert(out@ =~= sorted(part, high));
        }
        out
    } else {
        let mid = from + (to - from) / 2;
        let left = sort_run(v, from, mid, high);
        let right = sort_run(v, mid, to, high);
        proof {
            let x = v@.subrange(from as int, mid as int);
            let y = v@.subrange(mid as int, to as int);
            lemma_merged_sorted(x, y, high);
            assert(x + y =~= part);
        }
        merge(&left, &right, high)
    }
}

/// Puts the dice at `start..end` in order of their results, from the highest
/// down if `high` and from the lowest up otherwise. Dice with equal results
/// keep the order they had.
pub fn sort_dice(v: &mut Vec<DieRoll>, start: usize, end: usize, high: bool)
    requires
        start <= end <= old(v).len(),
    ensures
        final(v)@ == sort_range(old(v)@, start as int, end as int, high),
{
    let ghost orig = v@;
    let out = sort_run(v, start, end, high);
    let mut k: usize = 0;
    assert(v@ =~= orig.subrange(0, start as int) + out@.take(0) + orig.subrange(
        start as int,
        orig.len() as int,
    ));
    while k < out.len()
        invariant
            start <= end <= orig.len(),
            k <= out.len(),
            out.len() == end - start,
            v.len() == orig.len(),
            v@ == orig.subrange(0, start as int) + out@.take(k as int) + orig.subrange(
                start + k,
                orig.len() as int,
            ),
        decreases out.len() - k,
    {
        v.set(start + k, out[k]);
        assert(v@ =~= orig.subrange(0, start as int) + out@.take(k as int + 1) + orig.subrange(
            start + k + 1,
            orig.len() as int,
        ));
        k = k + 1;
    }
    assert(out@.take(out.len() as int) =~= out@);
}

/// Marks the dice at `start..end` as kept, or as dropped.
pub fn mark_dice(v: &mut Vec<DieRoll>, start: usize, end: usize, keep: bool)
    requires
        start <= end <= old(v).len(),
    ensures
        final(v)@ == flag(old(v)@, start as int, end as int, keep),
{
    let ghost orig = v@;
    let mut i: usize = start;
    assert(v@ =~= flag(orig, start as int, start as int, keep));
    while i < end
        invariant
            start <= i <= end <= v.len(),
            v.len() == orig.len(),
            v@ == flag(orig, start as int, i as int, keep),
        decreases end - i,
    {
        let die = v[i];
        v.set(i, DieRoll { sides: die.sides, result: die.result, keep });
        assert(v@ =~= flag(orig, start as int, i as int + 1, keep));
        i = i + 1;
    }
}

/// The sum of the results of the dice at `start..end`, wrapping on overflow.
pub fn sum_results(v: &Vec<DieRoll>, start: usize, end: usize) -> (sum: i32)
    requires
        start <= end <= v.len(),
    ensures
        sum == total(v@.subrange(start as int, end as int)),
{
    let mut sum: i32 = 0;
    let mut i: usize = start;
    while i < end
        invariant
            start <= i <= end <= v.len(),
            sum == total(v@.subrange(start as int, i as int)),
        decreases end - i,
    {
        assert(v@.subrange(start as int, i as int + 1).drop_last() =~= v@.subrange(
            start as int,
            i as int,
        ));
        sum = sum.wrapping_add(v[i].result);
        i = i + 1;
    }
    sum
}

/// The sum of the results of the kept dice, wrapping on overflow.
pub fn sum_kept(v: &Vec<DieRoll>) -> (sum: i32)
    ensures
        sum == kept_total(v@),
{
    let mut sum: i32 = 0;
    let mut i: usize = 0;
    while i < v.len()
        invariant
            i <= v.len(),
            sum == kept_total(v@.take(i as int)),
        decreases v.len() - i,
    {
        assert(v@.take(i as int + 1).drop_last() =~= v@.take(i as int));
        if v[i].keep {
            sum = sum.wrapping_add(v[i].result);
        }
        i = i + 1;
    }
    assert(v@.take(v.len() as int) =~= v@);
    sum
}

} // verus!
