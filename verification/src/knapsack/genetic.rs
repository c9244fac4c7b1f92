//! Fitness evaluation for the seeded genetic search.
//!
//! The evolutionary loop — population seeding, crossover and mutation —
//! draws randomness from the instance seed and keeps a floating-point
//! mutation rate, so it lives outside the verified library. What it
//! optimizes is defined and checked here: an individual's fitness is its
//! selection's total value when the selection fits the capacity, and zero
//! otherwise.

use vstd::prelude::*;

verus! {

/// Sum of the values selected among the first `k` genes.
pub open spec fn flag_sum(vals: Seq<u32>, sel: Seq<bool>, k: int) -> int
    decreases k,
{
    if k <= 0 {
        0
    } else {
        flag_sum(vals, sel, k - 1) + if sel[k - 1] {
            vals[k - 1] as int
        } else {
            0
        }
    }
}

/// One candidate selection together with its last evaluated fitness.
pub struct Individual {
    pub items: Vec<bool>,
    pub fitness: u32,
}

impl Individual {
    pub fn new(items: Vec<bool>, fitness: u32) -> (r: Self)
        ensures
            r.items@ == items@,
            r.fitness == fitness,
    {
        Individual { items, fitness }
    }

    /// Evaluates the selection: total value if the total weight fits the
    /// capacity, zero otherwise. The size bound keeps the fitness within its
    /// 32-bit range.
    pub fn calculate_fitness(&mut self, values: &Vec<u32>, weights: &Vec<u32>, max_weight: u32)
        requires
            old(self).items@.len() == values@.len(),
            values@.len() == weights@.len(),
            values@.len() <= 0xFFF,
            forall|i: int| 0 <= i < values@.len() ==> #[trigger] values@[i] <= 0x10_0000,
            forall|i: int| 0 <= i < weights@.len() ==> #[trigger] weights@[i] <= 0x10_0000,
        ensures
            final(self).items@ == old(self).items@,
            final(self).fitness == if flag_sum(weights@, old(self).items@, weights@.len() as int)
                <= max_weight {
                flag_sum(values@, old(self).items@, values@.len() as int)
            } else {
                0
            },
    {
        let mut total_value: u64 = 0;
        let mut total_weight: u64 = 0;
        let mut i: usize = 0;
        while i < self.items.len()
            invariant
                self.items@ == old(self).items@,
                self.fitness == old(self).fitness,
                self.items@.len() == values@.len(),
                values@.len() == weights@.len(),
                values@.len() <= 0xFFF,
                forall|k: int| 0 <= k < values@.len() ==> #[trigger] values@[k] <= 0x10_0000,
                forall|k: int| 0 <= k < weights@.len() ==> #[trigger] weights@[k] <= 0x10_0000,
                0 <= i <= self.items@.len(),
                total_value == flag_sum(values@, self.items@, i as int),
                total_weight == flag_sum(weights@, self.items@, i as int),
                total_value <= (i as int) * 0x10_0000,
                total_weight <= (i as int) * 0x10_0000,
            decreases self.items.len() - i,
        {
            if self.items[i] {
                total_value = total_value + values[i] as u64;
                total_weight = total_weight + weights[i] as u64;
            }
            i = i + 1;
        }
        if total_weight <= max_weight as u64 {
            self.fitness = total_value as u32;
        } else {
            self.fitness = 0;
        }
    }
}

} // verus!
