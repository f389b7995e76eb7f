//! The loot table: what an enemy may drop, decided by one draw per roll.
//!
//! The draw and the samples come from the caller's random source, so a roll
//! is a function of its arguments and can be replayed.

use vstd::prelude::*;
use crate::error::{GameError, ValidationFault};

verus! {

/// Draws lie in `[0, DRAW_LIMIT)`.
pub const DRAW_LIMIT: i16 = 10_000;

pub struct Enemy {
    pub id: u128,
    pub name: String,
    pub description: String,
}

/// One possible drop of an enemy. `min_roll` is a floor for the draw, not a
/// probability: the higher it is, the rarer the drop.
#[derive(Clone, Copy, Debug, PartialEq, Eq, Structural)]
pub struct EnemyDrop {
    pub enemy_id: u128,
    pub item_id: u128,
    pub min_roll: i16,
    pub min: i16,
    pub max: i16,
}

/// So many units of an item, granted by a roll.
#[derive(Clone, Copy, Debug, PartialEq, Eq, Structural)]
pub struct DropGrant {
    pub item_id: u128,
    pub amount: i16,
}

impl EnemyDrop {
    /// A drop grants at least one unit, and `max` is no less than `min`.
    pub open spec fn wf(&self) -> bool {
        1 <= self.min <= self.max
    }

    /// How many quantities the drop can grant.
    pub open spec fn span(&self) -> int {
        self.max - self.min + 1
    }

    pub open spec fn drops_on(&self, rng_draw: i16) -> bool {
        rng_draw >= self.min_roll
    }

    /// The quantity that a sample picks. Samples that differ by a multiple
    /// of the span pick the same quantity.
    pub open spec fn quantity(&self, sample: int) -> int {
        self.min + sample % self.span()
    }

    /// What `roll` returns.
    pub open spec fn spec_roll(&self, rng_draw: i16, sample: u32) -> Result<Option<i16>, GameError> {
        if !self.wf() {
            Err(GameError::ValidationError(ValidationFault::BadAmount))
        } else if self.drops_on(rng_draw) {
            Ok(Some(self.quantity(sample as int) as i16))
        } else {
            Ok(None)
        }
    }

    /// Decides this drop for one draw: nothing below `min_roll`, else a
    /// quantity within `[min, max]` picked by the sample.
    pub fn roll(&self, rng_draw: i16, sample: u32) -> (r: Result<Option<i16>, GameError>)
        ensures
            r == self.spec_roll(rng_draw, sample),
            r matches Ok(Some(q)) ==> self.min <= q <= self.max && q == self.quantity(
                sample as int,
            ),
            r matches Ok(granted) ==> (granted is Some <==> rng_draw >= self.min_roll),
    {
        if self.min < 1 || self.max < self.min {
            return Err(GameError::ValidationError(ValidationFault::BadAmount));
        }
        if rng_draw < self.min_roll {
            return Ok(None);
        }
        let span: u32 = (self.max - self.min) as u32 + 1;
        let offset = sample % span;
        Ok(Some(self.min + offset as i16))
    }

    /// Within every run of `span` consecutive samples each quantity of
    /// `[min, max]` is picked exactly once: the sample `round * span + k`
    /// picks `min + k`. Uniform samples therefore give uniform quantities.
    pub proof fn lemma_quantity_is_even(&self, round: int, k: int)
        requires
            self.wf(),
            0 <= round,
            0 <= k < self.span(),
        ensures
            self.quantity(round * self.span() + k) == self.min + k,
    {
        let s = self.span();
        assert((round * s + k) % s == k) by (nonlinear_arith)
            requires
                0 <= round,
                0 <= k < s,
        ;
    }
}

/// The grant of the drop at index `i`, if it belongs to the enemy and the
/// draw reaches its floor.
pub open spec fn grant_at(
    enemy: u128,
    drops: Seq<EnemyDrop>,
    rng_draw: i16,
    samples: Seq<u32>,
    i: int,
) -> Option<DropGrant> {
    if drops[i].enemy_id == enemy && drops[i].drops_on(rng_draw) {
        Some(
            DropGrant {
                item_id: drops[i].item_id,
                amount: drops[i].quantity(samples[i] as int) as i16,
            },
        )
    } else {
        None
    }
}

/// The grants of the first `n` drops, in their order. Each drop is decided
/// on its own: one roll yields none, one or many grants.
pub open spec fn grants(
    enemy: u128,
    drops: Seq<EnemyDrop>,
    rng_draw: i16,
    samples: Seq<u32>,
    n: nat,
) -> Seq<DropGrant>
    decreases n,
{
    if n == 0 {
        Seq::empty()
    } else {
        let before = grants(enemy, drops, rng_draw, samples, (n - 1) as nat);
        match grant_at(enemy, drops, rng_draw, samples, n - 1) {
            Some(g) => before.push(g),
            None => before,
        }
    }
}

pub open spec fn misconfigured(enemy: u128, drops: Seq<EnemyDrop>) -> bool {
    exists|i: int| 0 <= i < drops.len() && (#[trigger] drops[i]).enemy_id == enemy && !drops[i].wf()
}

/// What `roll` returns. The draw must lie in `[0, DRAW_LIMIT)`, and there
/// must be one sample for each drop on record.
pub open spec fn spec_roll(enemy: u128, drops: Seq<EnemyDrop>, rng_draw: i16, samples: Seq<u32>)
    -> Result<Seq<DropGrant>, GameError> {
    if rng_draw < 0 || rng_draw >= DRAW_LIMIT {
        Err(GameError::ValidationError(ValidationFault::OutOfRange))
    } else if samples.len() != drops.len() {
        Err(GameError::ValidationError(ValidationFault::Inconsistent))
    } else if misconfigured(enemy, drops) {
        Err(GameError::ValidationError(ValidationFault::BadAmount))
    } else {
        Ok(grants(enemy, drops, rng_draw, samples, drops.len()))
    }
}

/// Rolls the loot of a defeated enemy. Of the drops on record only those of
/// this enemy count; the sample at a drop's index picks its quantity.
pub fn roll(enemy: &Enemy, drops: &Vec<EnemyDrop>, rng_draw: i16, samples: &Vec<u32>) -> (r: Result<
    Vec<DropGrant>,
    GameError,
>)
    ensures
        match spec_roll(enemy.id, drops@, rng_draw, samples@) {
            Ok(g) => r matches Ok(v) && v@ == g,
            Err(e) => r matches Err(f) && f == e,
        },
{
    if rng_draw < 0 || rng_draw >= DRAW_LIMIT {
        return Err(GameError::ValidationError(ValidationFault::OutOfRange));
    }
    let n = drops.len();
    if samples.len() != n {
        return Err(GameError::ValidationError(ValidationFault::Inconsistent));
    }
    let mut out: Vec<DropGrant> = Vec::new();
    let mut i: usize = 0;
    while i < n
        invariant
            i <= n,
            n == drops@.len(),
            n == samples@.len(),
            0 <= rng_draw < DRAW_LIMIT,
            out@ == grants(enemy.id, drops@, rng_draw, samples@, i as nat),
            forall|j: int|
                0 <= j < i && (#[trigger] drops@[j]).enemy_id == enemy.id ==> drops@[j].wf(),
        decreases n - i,
    {
        let drop = drops[i];
        if drop.enemy_id == enemy.id {
            match drop.roll(rng_draw, samples[i]) {
                Err(e) => {
                    assert(drops@[i as int].enemy_id == enemy.id && !drops@[i as int].wf());
                    return Err(e);
                },
                Ok(Some(q)) => {
                    out.push(DropGrant { item_id: drop.item_id, amount: q });
                },
                Ok(None) => {},
            }
        }
        i = i + 1;
    }
    Ok(out)
}

} // verus!
