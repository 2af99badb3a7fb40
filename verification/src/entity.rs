//! A single combatant's initiative state and the operations that mutate it.

use vstd::prelude::*;

use crate::dice::roll_d6;
use vstd::string::StringExecFns;

verus! {

/// One combatant: a display name, a fixed initiative floor, a count of
/// six-sided bonus dice, the current initiative, and whether the combatant
/// has already acted in the current pass.
///
/// `base_init` and `d6_init` are fixed at construction; only `cur_init` and
/// `turn_taken` change afterwards. The representation keeps `cur_init`
/// non-negative: no operation can take it below zero.
pub struct Entity {
    pub name: String,
    pub base_init: u32,
    pub d6_init: u32,
    pub cur_init: u32,
    pub turn_taken: bool,
}

/// Clamps a mathematical initiative total into the representable range.
pub open spec fn clamp_u32(n: int) -> u32 {
    if n > u32::MAX {
        u32::MAX as u32
    } else if n < 0 {
        0
    } else {
        n as u32
    }
}

/// The sum of a sequence of die rolls.
pub open spec fn sum_rolls(rolls: Seq<u32>) -> int
    decreases rolls.len(),
{
    if rolls.len() == 0 {
        0
    } else {
        sum_rolls(rolls.drop_last()) + rolls.last()
    }
}

/// What taking a turn does: spend 10 points of initiative, stopping at the
/// 0 floor, and mark the turn as taken.
pub open spec fn spec_take_turn(e: Entity) -> Entity {
    Entity {
        cur_init: if e.cur_init >= 10 {
            (e.cur_init - 10) as u32
        } else {
            0
        },
        turn_taken: true,
        ..e
    }
}

/// What an interrupt does: spend `cost` points if affordable, otherwise
/// change nothing. `turn_taken` is never touched.
pub open spec fn spec_interrupt(e: Entity, cost: u32) -> Entity {
    if e.cur_init >= cost {
        Entity { cur_init: (e.cur_init - cost) as u32, ..e }
    } else {
        e
    }
}

/// What a direct increment does: add the amount to `cur_init`,
/// unconditionally, clamping at the top of the representable range.
pub open spec fn spec_increment(e: Entity, amount: u32) -> Entity {
    Entity { cur_init: clamp_u32(e.cur_init + amount), ..e }
}

/// What a reroll from the given die results does: replace `cur_init` with
/// the base plus the sum of the rolls, clamped into range.
pub open spec fn spec_reroll(e: Entity, rolls: Seq<u32>) -> Entity {
    Entity { cur_init: clamp_u32(e.base_init + sum_rolls(rolls)), ..e }
}

impl Entity {
    /// Constructs a combatant with no initiative rolled and its turn not taken.
    pub fn new(name: &str, base_init: u32, d6_init: u32) -> (e: Entity)
        ensures
            e.name@ == name@,
            e.base_init == base_init,
            e.d6_init == d6_init,
            e.cur_init == 0,
            !e.turn_taken,
    {
        Entity {
            name: name.to_owned(),
            base_init,
            d6_init,
            cur_init: 0,
            turn_taken: false,
        }
    }

    /// Consumes 10 points of initiative, saturating at the 0 floor, and marks
    /// the combatant as having acted this pass. Always succeeds.
    pub fn take_turn(&mut self)
        ensures
            *final(self) == spec_take_turn(*old(self)),
    {
        if self.cur_init >= 10 {
            self.cur_init = self.cur_init - 10;
        } else {
            self.cur_init = 0;
        }
        self.turn_taken = true;
    }

    /// Spends `cost` points of initiative if affordable. Returns whether the
    /// interrupt went through; a rejected interrupt changes nothing.
    pub fn interrupt(&mut self, cost: u32) -> (spent: bool)
        ensures
            spent == (old(self).cur_init >= cost),
            *final(self) == spec_interrupt(*old(self), cost),
    {
        if self.cur_init >= cost {
            self.cur_init = self.cur_init - cost;
            true
        } else {
            false
        }
    }

    /// Adds a fixed amount to the current initiative, unconditionally,
    /// clamping at the top of the representable range.
    pub fn increment(&mut self, amount: u32)
        ensures
            *final(self) == spec_increment(*old(self), amount),
    {
        if amount <= u32::MAX - self.cur_init {
            self.cur_init = self.cur_init + amount;
        } else {
            self.cur_init = u32::MAX;
        }
    }

    /// Replaces `cur_init` with the base plus the given die results: the
    /// injected-source form of a reroll, fully deterministic in its inputs.
    /// `turn_taken` is not touched.
    pub fn reroll_with(&mut self, rolls: &Vec<u32>)
        requires
            rolls@.len() == old(self).d6_init,
        ensures
            *final(self) == spec_reroll(*old(self), rolls@),
    {
        let mut total: u64 = self.base_init as u64;
        let mut i: usize = 0;
        while i < rolls.len()
            invariant
                i <= rolls@.len(),
                rolls@.len() <= u32::MAX,
                total == self.base_init + sum_rolls(rolls@.take(i as int)),
                total <= self.base_init + i * (u32::MAX as int),
                *self == *old(self),
            decreases rolls@.len() - i,
        {
            proof {
                assert(rolls@.take(i + 1).drop_last() =~= rolls@.take(i as int));
                assert(rolls@.take(i + 1).last() == rolls@[i as int]);
            }
            total = total + (rolls[i] as u64);
            i = i + 1;
        }
        proof {
            assert(rolls@.take(rolls@.len() as int) =~= rolls@);
        }
        if total > u32::MAX as u64 {
            self.cur_init = u32::MAX;
        } else {
            self.cur_init = total as u32;
        }
    }

    /// Rolls initiative: the base plus one six-sided die for each point of
    /// `d6_init`, replacing (not accumulating onto) the previous value.
    /// `turn_taken` is not touched.
    pub fn reroll_init(&mut self)
        ensures
            final(self).name == old(self).name,
            final(self).base_init == old(self).base_init,
            final(self).d6_init == old(self).d6_init,
            final(self).turn_taken == old(self).turn_taken,
            exists|s: int|
                old(self).d6_init <= s <= 6 * old(self).d6_init && final(self).cur_init
                    == #[trigger] clamp_u32(old(self).base_init + s),
            old(self).base_init + 6 * old(self).d6_init <= u32::MAX ==> old(self).base_init + old(
                self,
            ).d6_init <= final(self).cur_init <= old(self).base_init + 6 * old(self).d6_init,
    {
        let mut rolls: Vec<u32> = Vec::new();
        let mut i: u32 = 0;
        while i < self.d6_init
            invariant
                i <= self.d6_init,
                rolls@.len() == i,
                forall|j: int| 0 <= j < rolls@.len() ==> 1 <= #[trigger] rolls@[j] <= 6,
                *self == *old(self),
            decreases self.d6_init - i,
        {
            let r = roll_d6();
            rolls.push(r);
            i = i + 1;
        }
        proof {
            lemma_sum_rolls_bounds(rolls@);
        }
        let ghost s = sum_rolls(rolls@);
        self.reroll_with(&rolls);
        proof {
            assert(old(self).d6_init <= s <= 6 * old(self).d6_init && final(self).cur_init
                == clamp_u32(old(self).base_init + s));
        }
    }
}

impl Default for Entity {
    /// The fallback combatant used to fill missing fields when restoring
    /// saved state: "Lattice", base 10, one bonus die, nothing rolled.
    fn default() -> (e: Entity)
        ensures
            e.name@ == "Lattice"@,
            e.base_init == 10,
            e.d6_init == 1,
            e.cur_init == 0,
            !e.turn_taken,
    {
        Entity::new("Lattice", 10, 1)
    }
}

/// The character for one decimal digit.
pub open spec fn decimal_digit(d: nat) -> char {
    if d == 0 {
        '0'
    } else if d == 1 {
        '1'
    } else if d == 2 {
        '2'
    } else if d == 3 {
        '3'
    } else if d == 4 {
        '4'
    } else if d == 5 {
        '5'
    } else if d == 6 {
        '6'
    } else if d == 7 {
        '7'
    } else if d == 8 {
        '8'
    } else {
        '9'
    }
}

/// The decimal rendering of a non-negative integer, without leading zeroes.
pub open spec fn spec_decimal(n: nat) -> Seq<char>
    decreases n,
{
    if n < 10 {
        seq![decimal_digit(n)]
    } else {
        spec_decimal(n / 10).push(decimal_digit(n % 10))
    }
}

/// The stable textual summary of a combatant:
/// `<cur_init> | <name> (<base_init>+<d6_init>d6)`.
pub open spec fn spec_summary(e: Entity) -> Seq<char> {
    spec_decimal(e.cur_init as nat) + seq![' ', '|', ' '] + e.name@ + seq![' ', '(']
        + spec_decimal(e.base_init as nat) + seq!['+'] + spec_decimal(e.d6_init as nat)
        + seq!['d', '6', ')']
}

/// Appends the decimal rendering of `n`, most significant digit first.
fn append_decimal(s: &mut String, n: u32)
    ensures
        final(s)@ == old(s)@ + spec_decimal(n as nat),
    decreases n,
{
    if n >= 10 {
        append_decimal(s, n / 10);
    }
    let d: u32 = n % 10;
    let digit: &str = if d == 0 {
        "0"
    } else if d == 1 {
        "1"
    } else if d == 2 {
        "2"
    } else if d == 3 {
        "3"
    } else if d == 4 {
        "4"
    } else if d == 5 {
        "5"
    } else if d == 6 {
        "6"
    } else if d == 7 {
        "7"
    } else if d == 8 {
        "8"
    } else {
        "9"
    };
    proof {
        reveal_strlit("0");
        reveal_strlit("1");
        reveal_strlit("2");
        reveal_strlit("3");
        reveal_strlit("4");
        reveal_strlit("5");
        reveal_strlit("6");
        reveal_strlit("7");
        reveal_strlit("8");
        reveal_strlit("9");
        assert(digit@ =~= seq![decimal_digit((n % 10) as nat)]);
    }
    s.append(digit);
    proof {
        if n >= 10 {
            assert(spec_decimal(n as nat) =~= spec_decimal((n / 10) as nat) + seq![
                decimal_digit((n % 10) as nat),
            ]);
            assert(final(s)@ =~= old(s)@ + spec_decimal(n as nat));
        } else {
            assert(spec_decimal(n as nat) =~= seq![decimal_digit((n % 10) as nat)]);
        }
    }
}

impl Entity {
    /// Produces the stable textual summary used for display:
    /// `<cur_init> | <name> (<base_init>+<d6_init>d6)`.
    pub fn summary(&self) -> (r: String)
        ensures
            r@ == spec_summary(*self),
    {
        let mut r = String::new();
        append_decimal(&mut r, self.cur_init);
        r.append(" | ");
        r.append(self.name.as_str());
        r.append(" (");
        append_decimal(&mut r, self.base_init);
        r.append("+");
        append_decimal(&mut r, self.d6_init);
        r.append("d6)");
        proof {
            reveal_strlit(" | ");
            reveal_strlit(" (");
            reveal_strlit("+");
            reveal_strlit("d6)");
            assert(" | "@ =~= seq![' ', '|', ' ']);
            assert(" ("@ =~= seq![' ', '(']);
            assert("+"@ =~= seq!['+']);
            assert("d6)"@ =~= seq!['d', '6', ')']);
            assert(r@ =~= spec_summary(*self));
        }
        r
    }
}

/// The current initiative is never negative, after any sequence of
/// operations: the representation itself carries the 0 floor.
pub proof fn lemma_initiative_never_negative(e: Entity)
    ensures
        e.cur_init >= 0,
{
}

/// Taking a turn converges to the 0 floor: when fewer than 10 points are
/// left, one call reaches 0 and marks the turn taken, and any further call
/// changes nothing.
pub proof fn lemma_take_turn_converges(e: Entity)
    requires
        e.cur_init < 10,
    ensures
        spec_take_turn(e).cur_init == 0,
        spec_take_turn(e).turn_taken,
        spec_take_turn(spec_take_turn(e)) == spec_take_turn(e),
{
}

/// An interrupt is guarded, not saturating: below cost it changes nothing,
/// at or above cost it spends exactly `cost`; `turn_taken` is never touched.
pub proof fn lemma_interrupt_guard(e: Entity, cost: u32)
    ensures
        e.cur_init >= cost ==> spec_interrupt(e, cost).cur_init == e.cur_init - cost,
        e.cur_init < cost ==> spec_interrupt(e, cost) == e,
        spec_interrupt(e, cost).turn_taken == e.turn_taken,
        spec_interrupt(e, cost).name == e.name,
{
}

/// A sequence of die faces sums to something between one and six times its
/// length.
pub proof fn lemma_sum_rolls_bounds(rolls: Seq<u32>)
    requires
        forall|j: int| 0 <= j < rolls.len() ==> 1 <= #[trigger] rolls[j] <= 6,
    ensures
        rolls.len() <= sum_rolls(rolls) <= 6 * rolls.len(),
    decreases rolls.len(),
{
    if rolls.len() > 0 {
        lemma_sum_rolls_bounds(rolls.drop_last());
    }
}

/// A die source that always returns `v` sums to exactly `len * v`.
pub proof fn lemma_sum_rolls_constant(rolls: Seq<u32>, v: u32)
    requires
        forall|j: int| 0 <= j < rolls.len() ==> #[trigger] rolls[j] == v,
    ensures
        sum_rolls(rolls) == rolls.len() * v,
    decreases rolls.len(),
{
    if rolls.len() > 0 {
        lemma_sum_rolls_constant(rolls.drop_last(), v);
        assert((rolls.len() - 1) * v + v == rolls.len() * v) by (nonlinear_arith);
    }
}

/// Rerolling stays within the advertised interval: with `k` dice the new
/// initiative lands in `[base + k, base + 6k]` for every sequence of draws,
/// as long as the top of that interval is representable.
pub proof fn lemma_reroll_bounds(e: Entity, rolls: Seq<u32>)
    requires
        rolls.len() == e.d6_init,
        forall|j: int| 0 <= j < rolls.len() ==> 1 <= #[trigger] rolls[j] <= 6,
        e.base_init + 6 * e.d6_init <= u32::MAX,
    ensures
        e.base_init + e.d6_init <= spec_reroll(e, rolls).cur_init <= e.base_init + 6 * e.d6_init,
{
    lemma_sum_rolls_bounds(rolls);
}

/// Rerolling from a die source fixed at `v` gives exactly `base + k * v`.
pub proof fn lemma_reroll_constant_source(e: Entity, rolls: Seq<u32>, v: u32)
    requires
        rolls.len() == e.d6_init,
        forall|j: int| 0 <= j < rolls.len() ==> #[trigger] rolls[j] == v,
        e.base_init + e.d6_init * v <= u32::MAX,
    ensures
        spec_reroll(e, rolls).cur_init == e.base_init + e.d6_init * v,
{
    lemma_sum_rolls_constant(rolls, v);
}

} // verus!
