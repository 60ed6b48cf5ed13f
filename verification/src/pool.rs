//! Reading a pool of rolled dice.
//!
//! A pool is the collection of rolls that count (glitches are already left
//! out). It can be read in two ways. Read *for effect*, the biggest die is set
//! aside as the effect die and the two highest values left over make the
//! total. Read *for total*, the two highest values make the total and the
//! biggest die left over is the effect die.
//!
//! Both readings depend only on which rolls are in the pool, never on their
//! order, so they are defined over the multiset of the pool's entries.

use vstd::multiset::Multiset;
use vstd::prelude::*;

verus! {

/// A roll that counts: the value it ended with and the size of the die that
/// showed it.
#[derive(Clone, Copy, Debug, PartialEq, Eq, Structural)]
pub struct Scored {
    pub value: u64,
    pub sides: u64,
}

/// What one reading of a pool comes to: the total, and the size of the effect die.
#[derive(Clone, Copy, Debug, PartialEq, Eq, Structural)]
pub struct Reading {
    pub total: u64,
    pub effect: u64,
}

/// The size of the effect die where no rolled die is left to serve as one.
pub const FALLBACK_SIDES: u64 = 4;

/// No value in a pool may be larger than this, so that two of them can be added.
pub const VALUE_LIMIT: u64 = 0x7fff_ffff_ffff_ffff;

/// `b` is at least as good an effect die as `a`: it is bigger, or as big with
/// a value that is no higher (the weakest of the biggest dice is set aside).
pub open spec fn effect_order(a: Scored, b: Scored) -> bool {
    a.sides < b.sides || (a.sides == b.sides && a.value >= b.value)
}

/// `b` counts at least as much towards a total as `a`: its value is higher, or
/// as high on a die that is no bigger (of equal values the smaller die is
/// spent first, which keeps the bigger one for the effect).
pub open spec fn total_order(a: Scored, b: Scored) -> bool {
    a.value < b.value || (a.value == b.value && a.sides >= b.sides)
}

/// What an entry is picked for: to be the effect die, or to count towards
/// the total.
#[derive(Clone, Copy, Debug, PartialEq, Eq, Structural)]
pub enum Pick {
    Effect,
    Total,
}

/// `b` is at least as good a pick as `a`.
pub open spec fn ranks(pick: Pick, a: Scored, b: Scored) -> bool {
    match pick {
        Pick::Effect => effect_order(a, b),
        Pick::Total => total_order(a, b),
    }
}

/// `e` is in `m` and no entry of `m` is a better pick.
pub open spec fn is_pick(pick: Pick, m: Multiset<Scored>, e: Scored) -> bool {
    m.count(e) > 0 && forall|x: Scored| m.count(x) > 0 ==> ranks(pick, x, e)
}

/// The best pick of a pool that is not empty.
pub open spec fn best(pick: Pick, m: Multiset<Scored>) -> Scored {
    choose|e: Scored| is_pick(pick, m, e)
}

/// The best effect die of a pool that is not empty.
pub open spec fn effect_pick(m: Multiset<Scored>) -> Scored {
    best(Pick::Effect, m)
}

/// The entry of a pool that is not empty which counts most towards a total.
pub open spec fn total_pick(m: Multiset<Scored>) -> Scored {
    best(Pick::Total, m)
}

/// The sum of the two highest values of a pool; of all its values, where
/// there are fewer than two.
pub open spec fn top_two(m: Multiset<Scored>) -> nat {
    if m.len() == 0 {
        0
    } else {
        let first = total_pick(m);
        let rest = m.remove(first);
        if rest.len() == 0 {
            first.value as nat
        } else {
            (first.value + total_pick(rest).value) as nat
        }
    }
}

/// What is left of a pool once the two entries that make `top_two` are spent.
pub open spec fn below_top_two(m: Multiset<Scored>) -> Multiset<Scored> {
    if m.len() == 0 {
        m
    } else {
        let rest = m.remove(total_pick(m));
        if rest.len() == 0 {
            rest
        } else {
            rest.remove(total_pick(rest))
        }
    }
}

/// The total of a pool read for effect. With fewer than three entries no die
/// can be spared, and every value counts.
pub open spec fn effect_first_total(m: Multiset<Scored>) -> nat {
    if m.len() < 3 {
        top_two(m)
    } else {
        top_two(m.remove(effect_pick(m)))
    }
}

/// The size of the effect die of a pool read for effect.
pub open spec fn effect_first_sides(m: Multiset<Scored>) -> nat {
    if m.len() < 3 {
        FALLBACK_SIDES as nat
    } else {
        effect_pick(m).sides as nat
    }
}

/// The total of a pool read for total.
pub open spec fn total_first_total(m: Multiset<Scored>) -> nat {
    top_two(m)
}

/// The size of the effect die of a pool read for total.
pub open spec fn total_first_sides(m: Multiset<Scored>) -> nat {
    let left = below_top_two(m);
    if left.len() == 0 {
        FALLBACK_SIDES as nat
    } else {
        effect_pick(left).sides as nat
    }
}

/// Every value of the pool is small enough to be added to another.
pub open spec fn addable(s: Seq<Scored>) -> bool {
    forall|i: int| 0 <= i < s.len() ==> (#[trigger] s[i]).value <= VALUE_LIMIT
}

/// Every size of an effect die that a reading of `s` can name: the fallback,
/// or the size of an entry.
pub open spec fn names_sides(s: Seq<Scored>, sides: nat) -> bool {
    sides == FALLBACK_SIDES || exists|i: int| 0 <= i < s.len() && (#[trigger] s[i]).sides == sides
}

/// An entry that is no worse a pick than any other is the best pick.
pub proof fn lemma_pick_is(pick: Pick, s: Seq<Scored>, i: int)
    requires
        0 <= i < s.len(),
        forall|j: int| 0 <= j < s.len() ==> ranks(pick, #[trigger] s[j], s[i]),
    ensures
        best(pick, s.to_multiset()) == s[i],
        s.remove(i).to_multiset() == s.to_multiset().remove(s[i]),
        s.to_multiset().len() == s.len(),
{
    s.to_multiset_ensures();
    let m = s.to_multiset();
    assert(s.contains(s[i]));
    assert forall|x: Scored| m.count(x) > 0 implies ranks(pick, x, s[i]) by {
        assert(s.contains(x));
        let j = choose|j: int| 0 <= j < s.len() && s[j] == x;
        assert(ranks(pick, s[j], s[i]));
    }
    assert(is_pick(pick, m, s[i]));
    let p = best(pick, m);
    assert(is_pick(pick, m, p));
    assert(ranks(pick, p, s[i]) && ranks(pick, s[i], p));
}

/// The values of the entries, added up.
pub open spec fn sum_of_values(s: Seq<Scored>) -> nat
    decreases s.len(),
{
    if s.len() == 0 {
        0
    } else {
        sum_of_values(s.drop_last()) + s.last().value as nat
    }
}

/// In a pool of fewer than three every value counts: the two highest values
/// are all there are.
pub proof fn lemma_few_values_all_count(s: Seq<Scored>)
    requires
        s.len() < 3,
    ensures
        top_two(s.to_multiset()) == sum_of_values(s),
        effect_first_total(s.to_multiset()) == sum_of_values(s),
        total_first_total(s.to_multiset()) == sum_of_values(s),
{
    s.to_multiset_ensures();
    reveal_with_fuel(sum_of_values, 3);
    let m = s.to_multiset();
    if s.len() == 1 {
        lemma_pick_is(Pick::Total, s, 0);
        s.remove(0).to_multiset_ensures();
        assert(m.remove(s[0]).len() == 0);
        assert(top_two(m) == s[0].value);
    } else if s.len() == 2 {
        let i: int = if total_order(s[0], s[1]) {
            1
        } else {
            0
        };
        lemma_pick_is(Pick::Total, s, i);
        let rest = s.remove(i);
        rest.to_multiset_ensures();
        lemma_pick_is(Pick::Total, rest, 0);
        assert(rest[0] == s[1 - i]);
        assert(m.remove(s[i]).len() == 1);
        assert(top_two(m) == s[i].value + s[1 - i].value);
        assert(s.drop_last().last() == s[0]);
    } else {
        assert(m.len() == 0);
    }
}

/// A pool that is not empty has an entry that is no worse a pick than any
/// other.
proof fn lemma_has_pick(pick: Pick, s: Seq<Scored>) -> (i: int)
    requires
        s.len() > 0,
    ensures
        0 <= i < s.len(),
        forall|j: int| 0 <= j < s.len() ==> ranks(pick, #[trigger] s[j], s[i]),
    decreases s.len(),
{
    if s.len() == 1 {
        0
    } else {
        let before = s.drop_last();
        let k = lemma_has_pick(pick, before);
        let last = s.len() - 1;
        let i = if ranks(pick, s[k], s[last]) {
            last
        } else {
            k
        };
        assert forall|j: int| 0 <= j < s.len() implies ranks(pick, #[trigger] s[j], s[i]) by {
            if j < last {
                assert(ranks(pick, before[j], before[k]));
            }
        }
        i
    }
}

/// The place of the best pick of a pool that is not empty.
proof fn lemma_best_at(pick: Pick, s: Seq<Scored>) -> (i: int)
    requires
        s.len() > 0,
    ensures
        0 <= i < s.len(),
        forall|j: int| 0 <= j < s.len() ==> ranks(pick, #[trigger] s[j], s[i]),
        best(pick, s.to_multiset()) == s[i],
        s.remove(i).to_multiset() == s.to_multiset().remove(s[i]),
        s.to_multiset().len() == s.len(),
{
    let i = lemma_has_pick(pick, s);
    lemma_pick_is(pick, s, i);
    i
}

/// What a pool of two or more spends on its total: the places of the two
/// entries that make it, and the entries that are left.
proof fn lemma_spent(s: Seq<Scored>) -> (spent: (int, int, Seq<Scored>))
    requires
        s.len() >= 2,
    ensures
        0 <= spent.0 < s.len(),
        0 <= spent.1 < s.len(),
        spent.0 != spent.1,
        forall|k: int| 0 <= k < s.len() ==> total_order(#[trigger] s[k], s[spent.0]),
        forall|k: int|
            0 <= k < s.len() && k != spent.0 ==> total_order(#[trigger] s[k], s[spent.1]),
        top_two(s.to_multiset()) == s[spent.0].value + s[spent.1].value,
        below_top_two(s.to_multiset()) == spent.2.to_multiset(),
        spent.2.len() == s.len() - 2,
        forall|k: int| 0 <= k < spent.2.len() ==> s.contains(#[trigger] spent.2[k]),
{
    s.to_multiset_ensures();
    let a = lemma_best_at(Pick::Total, s);
    let rest = s.remove(a);
    rest.to_multiset_ensures();
    let b = lemma_best_at(Pick::Total, rest);
    let other = if b < a {
        b
    } else {
        b + 1
    };
    assert(rest[b] == s[other]);
    assert forall|k: int| 0 <= k < s.len() && k != a implies total_order(
        #[trigger] s[k],
        s[other],
    ) by {
        let at = if k < a {
            k
        } else {
            k - 1
        };
        assert(rest[at] == s[k]);
        assert(total_order(rest[at], rest[b]));
    }
    let left = rest.remove(b);
    assert forall|k: int| 0 <= k < left.len() implies s.contains(#[trigger] left[k]) by {
        let in_rest = if k < b {
            k
        } else {
            k + 1
        };
        let in_s = if in_rest < a {
            in_rest
        } else {
            in_rest + 1
        };
        assert(left[k] == rest[in_rest]);
        assert(rest[in_rest] == s[in_s]);
    }
    (a, other, left)
}

/// A pool of one or two spends all it has on its total.
proof fn lemma_all_spent(s: Seq<Scored>)
    requires
        0 < s.len() < 3,
    ensures
        below_top_two(s.to_multiset()).len() == 0,
{
    s.to_multiset_ensures();
    if s.len() == 2 {
        let spent = lemma_spent(s);
        spent.2.to_multiset_ensures();
    } else {
        let a = lemma_best_at(Pick::Total, s);
        s.remove(a).to_multiset_ensures();
    }
}

/// No two entries of a pool add up to more than its two highest values.
pub proof fn lemma_top_two_is_highest(s: Seq<Scored>, i: int, j: int)
    requires
        0 <= i < s.len(),
        0 <= j < s.len(),
        i != j,
    ensures
        s[i].value + s[j].value <= top_two(s.to_multiset()),
{
    let spent = lemma_spent(s);
    assert(total_order(s[i], s[spent.0]) && total_order(s[j], s[spent.0]));
    if i != spent.0 {
        assert(total_order(s[i], s[spent.1]));
    }
    if j != spent.0 {
        assert(total_order(s[j], s[spent.1]));
    }
}

/// The two highest values of a pool of two or more are the values of two of
/// its entries.
pub proof fn lemma_top_two_is_reached(s: Seq<Scored>) -> (places: (int, int))
    requires
        s.len() >= 2,
    ensures
        0 <= places.0 < s.len(),
        0 <= places.1 < s.len(),
        places.0 != places.1,
        s[places.0].value + s[places.1].value == top_two(s.to_multiset()),
{
    let spent = lemma_spent(s);
    (spent.0, spent.1)
}

/// The effect die of each reading is the fallback or the die of an entry,
/// and the one of the reading for total is no bigger than the one of the
/// reading for effect.
pub proof fn lemma_effect_dice(s: Seq<Scored>)
    ensures
        names_sides(s, effect_first_sides(s.to_multiset())),
        names_sides(s, total_first_sides(s.to_multiset())),
        total_first_sides(s.to_multiset()) <= effect_first_sides(s.to_multiset()),
{
    s.to_multiset_ensures();
    if s.len() >= 3 {
        let e = lemma_best_at(Pick::Effect, s);
        let spent = lemma_spent(s);
        let left = spent.2;
        left.to_multiset_ensures();
        let f = lemma_best_at(Pick::Effect, left);
        assert(s.contains(left[f]));
        let at = choose|at: int| 0 <= at < s.len() && s[at] == left[f];
        assert(effect_order(s[at], s[e]));
    } else if s.len() > 0 {
        lemma_all_spent(s);
    }
}

/// The two readings bear their names: reading a pool for total gives a total
/// that is no lower than reading it for effect, and reading it for effect
/// gives an effect die that is no smaller than reading it for total.
pub proof fn lemma_readings_bear_their_names(s: Seq<Scored>)
    ensures
        effect_first_total(s.to_multiset()) <= total_first_total(s.to_multiset()),
        total_first_sides(s.to_multiset()) <= effect_first_sides(s.to_multiset()),
{
    s.to_multiset_ensures();
    lemma_effect_dice(s);
    if s.len() >= 3 {
        let e = lemma_best_at(Pick::Effect, s);
        let others = s.remove(e);
        others.to_multiset_ensures();
        let (i, j) = lemma_top_two_is_reached(others);
        let i_in_s = if i < e {
            i
        } else {
            i + 1
        };
        let j_in_s = if j < e {
            j
        } else {
            j + 1
        };
        assert(others[i] == s[i_in_s] && others[j] == s[j_in_s]);
        lemma_top_two_is_highest(s, i_in_s, j_in_s);
    }
}

/// What the readings of a pool are made of: each effect die is the fallback
/// or the die of an entry, and no total is more than twice the highest value
/// that an entry can have.
pub proof fn lemma_readings_are_of_the_pool(s: Seq<Scored>, limit: nat)
    requires
        forall|k: int| 0 <= k < s.len() ==> (#[trigger] s[k]).value <= limit,
    ensures
        names_sides(s, effect_first_sides(s.to_multiset())),
        names_sides(s, total_first_sides(s.to_multiset())),
        effect_first_total(s.to_multiset()) <= 2 * limit,
        total_first_total(s.to_multiset()) <= 2 * limit,
{
    s.to_multiset_ensures();
    lemma_effect_dice(s);
    lemma_readings_bear_their_names(s);
    if s.len() >= 2 {
        let (i, j) = lemma_top_two_is_reached(s);
        assert(s[i].value <= limit && s[j].value <= limit);
    } else if s.len() == 1 {
        lemma_few_values_all_count(s);
        reveal_with_fuel(sum_of_values, 2);
        assert(s[0].value <= limit);
    }
}

/// Whether `b` is at least as good a pick as `a`.
fn no_worse(pick: Pick, a: Scored, b: Scored) -> (r: bool)
    ensures
        r == ranks(pick, a, b),
{
    match pick {
        Pick::Effect => a.sides < b.sides || (a.sides == b.sides && a.value >= b.value),
        Pick::Total => a.value < b.value || (a.value == b.value && a.sides >= b.sides),
    }
}

/// The place of the best pick.
fn best_index(pick: Pick, v: &Vec<Scored>) -> (at: usize)
    requires
        v.len() > 0,
    ensures
        at < v.len(),
        forall|j: int| 0 <= j < v.len() ==> ranks(pick, #[trigger] v[j], v[at as int]),
        best(pick, v@.to_multiset()) == v[at as int],
        v@.remove(at as int).to_multiset() == v@.to_multiset().remove(v[at as int]),
{
    let mut at: usize = 0;
    let mut i: usize = 1;
    while i < v.len()
        invariant
            1 <= i <= v.len(),
            at < i,
            forall|j: int| 0 <= j < i ==> ranks(pick, #[trigger] v[j], v[at as int]),
        decreases v.len() - i,
    {
        if no_worse(pick, v[at], v[i]) {
            at = i;
        }
        i += 1;
    }
    proof {
        lemma_pick_is(pick, v@, at as int);
    }
    at
}

/// Spends the two highest values of the pool and returns their sum. What is
/// left in `v` is the pool without them.
fn spend_top_two(v: &mut Vec<Scored>) -> (total: u64)
    requires
        addable(old(v)@),
    ensures
        total == top_two(old(v)@.to_multiset()),
        final(v)@.to_multiset() == below_top_two(old(v)@.to_multiset()),
        forall|x: Scored| final(v)@.contains(x) ==> old(v)@.contains(x),
{
    proof {
        v@.to_multiset_ensures();
    }
    if v.len() == 0 {
        return 0;
    }
    let i = best_index(Pick::Total, v);
    let first = v.remove(i);
    proof {
        v@.to_multiset_ensures();
    }
    if v.len() == 0 {
        return first.value;
    }
    let j = best_index(Pick::Total, v);
    let second = v.remove(j);
    first.value + second.value
}

/// Reads a pool for effect: the biggest die (the weakest of them, where
/// several are as big) is the effect die, and the two highest values among the
/// others make the total. A pool of fewer than three has no die to spare: its
/// values are all added up and the effect die is the fallback. An empty pool
/// has no reading.
pub fn read_for_effect(entries: Vec<Scored>) -> (reading: Option<Reading>)
    requires
        addable(entries@),
    ensures
        reading is Some <==> entries@.len() > 0,
        reading matches Some(r) ==> {
            &&& r.total == effect_first_total(entries@.to_multiset())
            &&& r.effect == effect_first_sides(entries@.to_multiset())
            &&& names_sides(entries@, r.effect as nat)
        },
{
    let mut rest = entries;
    proof {
        rest@.to_multiset_ensures();
    }
    if rest.len() == 0 {
        return None;
    }
    if rest.len() < 3 {
        let total = spend_top_two(&mut rest);
        return Some(Reading { total, effect: FALLBACK_SIDES });
    }
    let i = best_index(Pick::Effect, &rest);
    let effect = rest.remove(i);
    let total = spend_top_two(&mut rest);
    Some(Reading { total, effect: effect.sides })
}

/// Reads a pool for total: the two highest values make the total (of equal
/// values the one on the smaller die is spent first), and the biggest die
/// among the others is the effect die, or the fallback where none is left. An
/// empty pool has no reading.
pub fn read_for_total(entries: Vec<Scored>) -> (reading: Option<Reading>)
    requires
        addable(entries@),
    ensures
        reading is Some <==> entries@.len() > 0,
        reading matches Some(r) ==> {
            &&& r.total == total_first_total(entries@.to_multiset())
            &&& r.effect == total_first_sides(entries@.to_multiset())
            &&& names_sides(entries@, r.effect as nat)
        },
{
    let mut rest = entries;
    proof {
        rest@.to_multiset_ensures();
    }
    if rest.len() == 0 {
        return None;
    }
    let total = spend_top_two(&mut rest);
    proof {
        rest@.to_multiset_ensures();
    }
    if rest.len() == 0 {
        return Some(Reading { total, effect: FALLBACK_SIDES });
    }
    let i = best_index(Pick::Effect, &rest);
    proof {
        assert(entries@.contains(rest@[i as int]));
    }
    Some(Reading { total, effect: rest[i].sides })
}

} // verus!
