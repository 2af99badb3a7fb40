//! The roster: an ordered collection of combatants and the bulk operations
//! that span it.

use vstd::prelude::*;

use crate::entity::Entity;
use crate::entity::clamp_u32;
use crate::entity::spec_increment;
use crate::entity::spec_interrupt;
use crate::entity::spec_take_turn;

verus! {

/// Relates a combatant to itself after one initiative reroll: everything
/// but `cur_init` is untouched, and the new `cur_init` is the base plus
/// some sum of `d6_init` six-sided die results, clamped into range.
pub open spec fn rerolled(pre: Entity, post: Entity) -> bool {
    &&& post.name == pre.name
    &&& post.base_init == pre.base_init
    &&& post.d6_init == pre.d6_init
    &&& post.turn_taken == pre.turn_taken
    &&& exists|s: int|
        pre.d6_init <= s <= 6 * pre.d6_init && post.cur_init == #[trigger] clamp_u32(
            pre.base_init + s,
        )
    &&& pre.base_init + 6 * pre.d6_init <= u32::MAX ==> pre.base_init + pre.d6_init
        <= post.cur_init <= pre.base_init + 6 * pre.d6_init
}

/// The position of the first combatant holding the maximal initiative.
pub open spec fn first_max_index(s: Seq<Entity>) -> int
    decreases s.len(),
{
    if s.len() <= 1 {
        0
    } else {
        let r = 1 + first_max_index(s.drop_first());
        if s[0].cur_init >= s[r].cur_init {
            0
        } else {
            r
        }
    }
}

/// `first_max_index` points at a maximal initiative, and everything before
/// it is strictly smaller.
pub proof fn lemma_first_max_index(s: Seq<Entity>)
    requires
        s.len() > 0,
    ensures
        0 <= first_max_index(s) < s.len(),
        forall|j: int|
            0 <= j < s.len() ==> #[trigger] s[j].cur_init <= s[first_max_index(s)].cur_init,
        forall|j: int|
            0 <= j < first_max_index(s) ==> #[trigger] s[j].cur_init < s[first_max_index(
                s,
            )].cur_init,
    decreases s.len(),
{
    if s.len() > 1 {
        let t = s.drop_first();
        lemma_first_max_index(t);
        let r = 1 + first_max_index(t);
        let m = first_max_index(s);
        assert(forall|j: int| 0 <= j < t.len() ==> #[trigger] t[j] == s[j + 1]);
        assert(s[r] == t[r - 1]);
        assert forall|j: int| 0 <= j < s.len() implies #[trigger] s[j].cur_init
            <= s[m].cur_init by {
            if j >= 1 {
                assert(s[j] == t[j - 1]);
                assert(t[j - 1].cur_init <= t[first_max_index(t)].cur_init);
            }
        }
        assert forall|j: int| 0 <= j < m implies #[trigger] s[j].cur_init < s[m].cur_init by {
            if j >= 1 {
                assert(s[j] == t[j - 1]);
                assert(t[j - 1].cur_init < t[first_max_index(t)].cur_init);
            }
        }
    }
}

/// No other position has the first-maximum property: it determines
/// `first_max_index` exactly.
pub proof fn lemma_first_max_index_unique(s: Seq<Entity>, i: int)
    requires
        0 <= i < s.len(),
        forall|j: int| 0 <= j < s.len() ==> #[trigger] s[j].cur_init <= s[i].cur_init,
        forall|j: int| 0 <= j < i ==> #[trigger] s[j].cur_init < s[i].cur_init,
    ensures
        i == first_max_index(s),
{
    lemma_first_max_index(s);
}

/// The roster sorted by initiative, descending and stably: repeatedly take
/// the first combatant holding the maximal remaining initiative.
pub open spec fn spec_sort_desc(s: Seq<Entity>) -> Seq<Entity>
    decreases s.len(),
    via spec_sort_desc_decreases
{
    if s.len() == 0 {
        Seq::empty()
    } else {
        seq![s[first_max_index(s)]] + spec_sort_desc(s.remove(first_max_index(s)))
    }
}

#[via_fn]
proof fn spec_sort_desc_decreases(s: Seq<Entity>) {
    if s.len() > 0 {
        lemma_first_max_index(s);
    }
}

/// Descending order on current initiative.
pub open spec fn sorted_desc(s: Seq<Entity>) -> bool {
    forall|i: int, j: int| 0 <= i < j < s.len() ==> s[i].cur_init >= s[j].cur_init
}

/// Finds the position of the first element holding the maximal initiative.
fn first_max(v: &Vec<Entity>) -> (m: usize)
    requires
        v@.len() > 0,
    ensures
        m == first_max_index(v@),
{
    let mut best: usize = 0;
    let mut i: usize = 1;
    while i < v.len()
        invariant
            1 <= i <= v@.len(),
            best < i,
            forall|j: int| 0 <= j < i ==> #[trigger] v@[j].cur_init <= v@[best as int].cur_init,
            forall|j: int| 0 <= j < best ==> #[trigger] v@[j].cur_init < v@[best as int].cur_init,
        decreases v@.len() - i,
    {
        if v[i].cur_init > v[best].cur_init {
            best = i;
        }
        i = i + 1;
    }
    proof {
        lemma_first_max_index_unique(v@, best as int);
    }
    best
}

/// A filter that rejects every element yields the empty sequence.
proof fn lemma_filter_none<A>(s: Seq<A>, pred: spec_fn(A) -> bool)
    requires
        forall|i: int| 0 <= i < s.len() ==> !pred(#[trigger] s[i]),
    ensures
        s.filter(pred) == Seq::<A>::empty(),
    decreases s.len(),
{
    reveal_with_fuel(Seq::filter, 2);
    if s.len() > 0 {
        lemma_filter_none(s.drop_last(), pred);
    }
}

/// Sorting permutes the roster: the sorted sequence holds exactly the same
/// combatants, with multiplicity.
pub proof fn lemma_sort_desc_permutes(s: Seq<Entity>)
    ensures
        spec_sort_desc(s).to_multiset() == s.to_multiset(),
    decreases s.len(),
{
    broadcast use vstd::seq_lib::group_to_multiset_ensures;
    broadcast use vstd::multiset::group_multiset_axioms;

    if s.len() > 0 {
        lemma_first_max_index(s);
        let m = first_max_index(s);
        let rest = s.remove(m);
        lemma_sort_desc_permutes(rest);
        vstd::seq_lib::lemma_seq_union_to_multiset_commutative(seq![s[m]], spec_sort_desc(rest));
        assert(spec_sort_desc(rest) + seq![s[m]] =~= spec_sort_desc(rest).push(s[m]));
        assert(rest.to_multiset() =~= s.to_multiset().remove(s[m]));
        assert(s.contains(s[m]));
        assert(s.to_multiset().count(s[m]) > 0);
        assert(spec_sort_desc(s).to_multiset() =~= s.to_multiset());
    } else {
        assert(spec_sort_desc(s).to_multiset() =~= s.to_multiset());
    }
}

/// The sorted roster is in descending order of current initiative.
pub proof fn lemma_sort_desc_sorted(s: Seq<Entity>)
    ensures
        sorted_desc(spec_sort_desc(s)),
    decreases s.len(),
{
    broadcast use vstd::seq_lib::group_to_multiset_ensures;

    if s.len() > 0 {
        lemma_first_max_index(s);
        let m = first_max_index(s);
        let rest = s.remove(m);
        let tail = spec_sort_desc(rest);
        lemma_sort_desc_sorted(rest);
        lemma_sort_desc_permutes(rest);
        assert forall|k: int| 0 <= k < tail.len() implies #[trigger] tail[k].cur_init
            <= s[m].cur_init by {
            assert(tail.contains(tail[k]));
            assert(tail.to_multiset().count(tail[k]) > 0);
            assert(rest.to_multiset().count(tail[k]) > 0);
            assert(rest.contains(tail[k]));
            let j = choose|j: int| 0 <= j < rest.len() && rest[j] == tail[k];
            assert(rest[j] == if j < m {
                s[j]
            } else {
                s[j + 1]
            });
        }
        assert(spec_sort_desc(s) == seq![s[m]] + tail);
        assert forall|i: int, j: int|
            0 <= i < j < spec_sort_desc(s).len() implies spec_sort_desc(s)[i].cur_init
            >= spec_sort_desc(s)[j].cur_init by {
            if i > 0 {
                assert(spec_sort_desc(s)[i] == tail[i - 1]);
                assert(spec_sort_desc(s)[j] == tail[j - 1]);
            } else {
                assert(spec_sort_desc(s)[j] == tail[j - 1]);
            }
        }
    }
}

/// The sort is stable: for every initiative value, the combatants holding
/// exactly that value appear in the sorted roster in the same order as in
/// the original.
pub proof fn lemma_sort_desc_stable(s: Seq<Entity>, c: u32)
    ensures
        spec_sort_desc(s).filter(|e: Entity| e.cur_init == c) == s.filter(
            |e: Entity| e.cur_init == c,
        ),
    decreases s.len(),
{
    let pred = |e: Entity| e.cur_init == c;
    reveal_with_fuel(Seq::filter, 2);
    if s.len() > 0 {
        lemma_first_max_index(s);
        let m = first_max_index(s);
        let rest = s.remove(m);
        lemma_sort_desc_stable(rest, c);
        // The sorted roster splits as its first element plus the sorted rest.
        assert(spec_sort_desc(s) == seq![s[m]] + spec_sort_desc(rest));
        Seq::filter_distributes_over_add(seq![s[m]], spec_sort_desc(rest), pred);
        assert(seq![s[m]].drop_last() =~= Seq::<Entity>::empty());
        // The original splits around position m.
        assert(s =~= s.take(m) + (seq![s[m]] + s.skip(m + 1)));
        Seq::filter_distributes_over_add(s.take(m), seq![s[m]] + s.skip(m + 1), pred);
        Seq::filter_distributes_over_add(seq![s[m]], s.skip(m + 1), pred);
        assert(rest =~= s.take(m) + s.skip(m + 1));
        Seq::filter_distributes_over_add(s.take(m), s.skip(m + 1), pred);
        if pred(s[m]) {
            // Everything before the first maximum is strictly smaller than
            // it, so nothing in the prefix holds the value c.
            assert forall|i: int| 0 <= i < s.take(m).len() implies !pred(
                #[trigger] s.take(m)[i],
            ) by {
                assert(s.take(m)[i] == s[i]);
                assert(s[i].cur_init < s[m].cur_init);
            }
            lemma_filter_none(s.take(m), pred);
        }
    }
}

/// What a refresh does to one combatant: a combatant still holding
/// initiative becomes eligible to act again; one at the 0 floor is left
/// untouched, whatever its `turn_taken` value.
pub open spec fn spec_refresh(e: Entity) -> Entity {
    if e.cur_init > 0 {
        Entity { turn_taken: false, ..e }
    } else {
        e
    }
}

/// An ordered sequence of combatants. Insertion order is significant until
/// an explicit sort is requested; removal is by name match.
pub struct Roster {
    entities: Vec<Entity>,
}

impl View for Roster {
    type V = Seq<Entity>;

    closed spec fn view(&self) -> Seq<Entity> {
        self.entities@
    }
}

impl Roster {
    /// An empty roster.
    pub fn new() -> (r: Roster)
        ensures
            r@ == Seq::<Entity>::empty(),
    {
        let r = Roster { entities: Vec::new() };
        proof {
            assert(r@ =~= Seq::<Entity>::empty());
        }
        r
    }

    /// How many combatants are on the roster.
    pub fn len(&self) -> (n: usize)
        ensures
            n == self@.len(),
    {
        self.entities.len()
    }

    /// The combatant at position `i`.
    pub fn get(&self, i: usize) -> (e: &Entity)
        requires
            i < self@.len(),
        ensures
            *e == self@[i as int],
    {
        &self.entities[i]
    }

    /// Appends a combatant at the end; no deduplication, no reordering.
    pub fn add(&mut self, e: Entity)
        ensures
            final(self)@ == old(self)@.push(e),
    {
        self.entities.push(e);
    }

    /// Empties the roster entirely.
    pub fn clear(&mut self)
        ensures
            final(self)@ == Seq::<Entity>::empty(),
    {
        self.entities.clear();
    }

    /// Removes every combatant whose name equals `name` — a batch predicate
    /// filter, not a single lookup-and-delete. The order of the remaining
    /// combatants is preserved.
    pub fn remove_by_name(&mut self, name: &String)
        ensures
            final(self)@ == old(self)@.filter(|e: Entity| e.name@ != name@),
    {
        let ghost orig = self.entities@;
        let ghost pred = |e: Entity| e.name@ != name@;
        let mut kept: Vec<Entity> = Vec::new();
        while self.entities.len() > 0
            invariant
                self.entities@.len() <= orig.len(),
                self.entities@ == orig.skip(orig.len() - self.entities@.len()),
                kept@ == orig.take(orig.len() - self.entities@.len()).filter(pred),
                pred == (|e: Entity| e.name@ != name@),
            decreases self.entities@.len(),
        {
            let ghost j = orig.len() - self.entities@.len();
            let e = self.entities.remove(0);
            proof {
                assert(e == orig[j]);
                assert(self.entities@ =~= orig.skip(j + 1));
                assert(orig.take(j + 1) =~= orig.take(j) + seq![orig[j]]);
                Seq::filter_distributes_over_add(orig.take(j), seq![orig[j]], pred);
                reveal_with_fuel(Seq::filter, 2);
                assert(seq![orig[j]].drop_last() =~= Seq::<Entity>::empty());
                assert(seq![orig[j]].filter(pred) == if pred(orig[j]) {
                    seq![orig[j]]
                } else {
                    Seq::<Entity>::empty()
                });
            }
            if !(e.name == *name) {
                kept.push(e);
                proof {
                    assert(kept@ =~= orig.take(j + 1).filter(pred));
                }
            } else {
                proof {
                    assert(kept@ =~= orig.take(j + 1).filter(pred));
                }
            }
        }
        proof {
            assert(orig.take(orig.len() as int) =~= orig);
        }
        self.entities = kept;
    }

    /// The combatant at position `i` takes its turn; everyone else is left
    /// alone.
    pub fn take_turn_at(&mut self, i: usize)
        requires
            i < old(self)@.len(),
        ensures
            final(self)@ == old(self)@.update(i as int, spec_take_turn(old(self)@[i as int])),
    {
        let ghost snap = self.entities@;
        let mut e = self.entities.remove(i);
        e.take_turn();
        self.entities.insert(i, e);
        proof {
            assert(self.entities@ =~= snap.update(i as int, e));
        }
    }

    /// The combatant at position `i` attempts an interrupt of the given
    /// cost. Returns whether it went through; a rejected interrupt changes
    /// nothing.
    pub fn interrupt_at(&mut self, i: usize, cost: u32) -> (spent: bool)
        requires
            i < old(self)@.len(),
        ensures
            spent == (old(self)@[i as int].cur_init >= cost),
            final(self)@ == old(self)@.update(i as int, spec_interrupt(old(self)@[i as int], cost)),
    {
        let ghost snap = self.entities@;
        let mut e = self.entities.remove(i);
        let spent = e.interrupt(cost);
        self.entities.insert(i, e);
        proof {
            assert(self.entities@ =~= snap.update(i as int, e));
        }
        spent
    }

    /// Adds a fixed amount to the current initiative of the combatant at
    /// position `i`, unconditionally.
    pub fn increment_at(&mut self, i: usize, amount: u32)
        requires
            i < old(self)@.len(),
        ensures
            final(self)@ == old(self)@.update(i as int, spec_increment(old(self)@[i as int], amount)),
    {
        let ghost snap = self.entities@;
        let mut e = self.entities.remove(i);
        e.increment(amount);
        self.entities.insert(i, e);
        proof {
            assert(self.entities@ =~= snap.update(i as int, e));
        }
    }

    /// Sorts the roster by current initiative, descending. The sort is
    /// stable: combatants with equal initiative keep their relative order.
    pub fn sort_by_initiative_desc(&mut self)
        ensures
            final(self)@ == spec_sort_desc(old(self)@),
    {
        let ghost orig = self.entities@;
        let mut out: Vec<Entity> = Vec::new();
        while self.entities.len() > 0
            invariant
                out@ + spec_sort_desc(self.entities@) == spec_sort_desc(orig),
            decreases self.entities@.len(),
        {
            let ghost pre = self.entities@;
            let ghost old_out = out@;
            let m = first_max(&self.entities);
            proof {
                lemma_first_max_index(pre);
            }
            let e = self.entities.remove(m);
            out.push(e);
            proof {
                assert(spec_sort_desc(pre) == seq![pre[m as int]] + spec_sort_desc(
                    pre.remove(m as int),
                ));
                assert(out@ + spec_sort_desc(self.entities@) =~= old_out + spec_sort_desc(pre));
            }
        }
        proof {
            assert(spec_sort_desc(self.entities@) =~= Seq::<Entity>::empty());
            assert(out@ =~= spec_sort_desc(orig));
        }
        self.entities = out;
    }

    /// Rerolls the initiative of every combatant, independently. Does not
    /// reset `turn_taken`.
    pub fn reroll_all(&mut self)
        ensures
            final(self)@.len() == old(self)@.len(),
            forall|i: int|
                0 <= i < old(self)@.len() ==> rerolled(old(self)@[i], #[trigger] final(self)@[i]),
    {
        let mut i: usize = 0;
        while i < self.entities.len()
            invariant
                i <= self.entities@.len(),
                self.entities@.len() == old(self)@.len(),
                forall|j: int|
                    0 <= j < i ==> rerolled(old(self)@[j], #[trigger] self.entities@[j]),
                forall|j: int| i <= j < self.entities@.len() ==> self.entities@[j] == old(self)@[j],
            decreases self.entities@.len() - i,
        {
            let ghost snap = self.entities@;
            let mut e = self.entities.remove(i);
            e.reroll_init();
            self.entities.insert(i, e);
            proof {
                assert(self.entities@ =~= snap.update(i as int, e));
            }
            i = i + 1;
        }
    }

    /// Starts a new pass for every combatant still holding initiative:
    /// `turn_taken` is cleared where `cur_init > 0` and preserved where
    /// `cur_init == 0`.
    pub fn refresh_pass(&mut self)
        ensures
            final(self)@.len() == old(self)@.len(),
            forall|i: int|
                0 <= i < old(self)@.len() ==> #[trigger] final(self)@[i] == spec_refresh(
                    old(self)@[i],
                ),
    {
        let mut i: usize = 0;
        while i < self.entities.len()
            invariant
                i <= self.entities@.len(),
                self.entities@.len() == old(self)@.len(),
                forall|j: int|
                    0 <= j < i ==> #[trigger] self.entities@[j] == spec_refresh(old(self)@[j]),
                forall|j: int| i <= j < self.entities@.len() ==> self.entities@[j] == old(self)@[j],
            decreases self.entities@.len() - i,
        {
            if self.entities[i].cur_init > 0 {
                let ghost snap = self.entities@;
                let mut e = self.entities.remove(i);
                e.turn_taken = false;
                self.entities.insert(i, e);
                proof {
                    assert(self.entities@ =~= snap.update(i as int, e));
                }
            }
            i = i + 1;
        }
    }
}

} // verus!
