//! Sampling weights of constants.
use super::options::ConstantOption;
use super::sampler::{draw_index, entropy_generator};
use super::term::Constant;
use super::weight::{
    completed, defaults, drawable, in_unit_range, integers, interval, last_wins,
    lemma_completed_covers,
    lemma_interval, lists, occurrences, unlisted, usable, weights_of, DEFAULT_WEIGHT,
};
use crate::Error;
use rand::rngs::StdRng;
use vstd::prelude::*;

verus! {

/// A constant with its sampling weight, in millionths.
#[derive(Debug)]
pub struct ConstantWeight {
    constant: Constant,
    weight: i32,
}

impl View for ConstantWeight {
    type V = (int, int);

    closed spec fn view(&self) -> (int, int) {
        (self.constant@, self.weight as int)
    }
}

impl ConstantWeight {
    #[verifier::type_invariant]
    spec fn within_unit_range(&self) -> bool {
        in_unit_range(self.weight as int)
    }

    /// Pairs the constant with the weight, or refuses a weight outside the
    /// unit range.
    pub fn new(constant: Constant, weight: i32) -> (r: Result<Self, Error>)
        ensures
            in_unit_range(weight as int) ==> r.is_ok() && r.unwrap()@ == (constant@, weight as int),
            !in_unit_range(weight as int) ==> r == Err::<Self, Error>(Error::WeightOutOfRange),
    {
        if weight < -DEFAULT_WEIGHT || weight > DEFAULT_WEIGHT {
            return Err(Error::WeightOutOfRange);
        }
        Ok(Self { constant, weight })
    }
}

/// The entries of a list of weighted constants, in order.
pub open spec fn constant_entries(weights: Seq<ConstantWeight>) -> Seq<(int, int)> {
    Seq::new(weights.len(), |i: int| weights[i]@)
}

/// After completion over a range, the table covers the range exactly once:
/// it has one entry for each constant of the range, whatever the caller's
/// table holds.
pub proof fn lemma_range_covered(entries: Seq<(int, int)>, low: int, high: int, value: int)
    requires
        low <= value <= high,
    ensures
        occurrences(completed(entries, interval(low, high)), value) == 1,
        lists(completed(entries, interval(low, high)), value),
{
    lemma_interval(low, high);
    lemma_completed_covers(entries, interval(low, high), value);
}

/// A weight table that lists every constant of a range.
#[derive(Debug)]
pub struct ConstantWeights(Vec<ConstantWeight>);

impl View for ConstantWeights {
    type V = Seq<(int, int)>;

    closed spec fn view(&self) -> Seq<(int, int)> {
        constant_entries(self.0@)
    }
}

/// Tells whether one of the weights from the index `from` on is for the
/// constant.
fn lists_constant(weights: &Vec<ConstantWeight>, from: usize, constant: Constant) -> (r: bool)
    requires
        from <= weights@.len(),
    ensures
        r == lists(constant_entries(weights@).skip(from as int), constant@),
{
    let ghost entries = constant_entries(weights@).skip(from as int);
    let value: i32 = constant.into();
    proof {
        constant.lemma_view_range();
    }
    let mut i: usize = from;
    while i < weights.len()
        invariant
            from <= i <= weights@.len(),
            value == constant@,
            entries == constant_entries(weights@).skip(from as int),
            forall|j: int| 0 <= j < i - from ==> (#[trigger] entries[j]).0 != constant@,
        decreases weights@.len() - i,
    {
        let other: i32 = weights[i].constant.into();
        proof {
            weights[i as int].constant.lemma_view_range();
        }
        if other == value {
            assert(entries[i - from].0 == constant@);
            return true;
        }
        i += 1;
    }
    false
}

impl ConstantWeights {
    /// Completes the caller's table over the range of constants. Of the
    /// entries for one constant the last counts and the others are dropped;
    /// the entries that count stay in their order, those for constants
    /// outside the range too; each constant of the range without an entry
    /// gets one of weight 1.0 at the end, in ascending order.
    pub fn new(weights: Vec<ConstantWeight>, options: &ConstantOption) -> (r: Self)
        ensures
            r@ == completed(constant_entries(weights@), interval(options.min(), options.max())),
    {
        let ghost given = constant_entries(weights@);
        let mut table: Vec<ConstantWeight> = Vec::new();
        let mut i: usize = 0;
        assert(given.skip(0) =~= given);
        while i < weights.len()
            invariant
                i <= weights@.len(),
                given == constant_entries(weights@),
                last_wins(given) == constant_entries(table@) + last_wins(given.skip(i as int)),
            decreases weights@.len() - i,
        {
            let entry = &weights[i];
            let later = lists_constant(&weights, i + 1, entry.constant);
            proof {
                use_type_invariant(entry);
                assert(given.skip(i as int).skip(1) =~= given.skip(i + 1));
            }
            if !later {
                table.push(ConstantWeight { constant: entry.constant, weight: entry.weight });
            }
            i += 1;
        }
        let min = options.get_min();
        let max = options.get_max();
        let ghost domain = interval(min as int, max as int);
        let mut next: i64 = min as i64;
        assert(Seq::<int>::empty().filter(unlisted(given)) =~= Seq::<int>::empty()) by {
            reveal(Seq::filter);
        }
        assert(constant_entries(table@) =~= last_wins(given) + defaults(
            domain.take(0).filter(unlisted(given)),
        ));
        while next <= max as i64
            invariant
                min <= next <= max + 1,
                domain == interval(min as int, max as int),
                given == constant_entries(weights@),
                constant_entries(table@) == last_wins(given) + defaults(
                    domain.take(next - min).filter(unlisted(given)),
                ),
            decreases max - next + 1,
        {
            let constant = Constant::new(next as i32);
            let listed = lists_constant(&weights, 0, constant);
            let ghost before = constant_entries(table@);
            let ghost seen = domain.take(next - min);
            proof {
                assert(given.skip(0) =~= given);
                assert(domain.take(next - min + 1) =~= seen.push(next as int));
                seen.lemma_filter_push(next as int, unlisted(given));
            }
            if !listed {
                table.push(ConstantWeight { constant, weight: DEFAULT_WEIGHT });
                assert(constant_entries(table@) =~= before.push(
                    (next as int, DEFAULT_WEIGHT as int),
                ));
                assert(defaults(seen.filter(unlisted(given)).push(next as int)) =~= defaults(
                    seen.filter(unlisted(given)),
                ).push((next as int, DEFAULT_WEIGHT as int)));
                assert(constant_entries(table@) =~= last_wins(given) + defaults(
                    domain.take(next - min + 1).filter(unlisted(given)),
                ));
            }
            next += 1;
        }
        assert(domain.take(domain.len() as int) =~= domain);
        ConstantWeights(table)
    }

    /// Lists the weights of the entries, in the table's order: what a draw
    /// of a constant is made from. Each lies in the unit range.
    pub fn weights(&self) -> (r: Vec<i32>)
        ensures
            integers(r@) == weights_of(self@),
            forall|i: int| 0 <= i < r@.len() ==> in_unit_range(#[trigger] r@[i] as int),
    {
        let mut weights: Vec<i32> = Vec::new();
        let mut i: usize = 0;
        while i < self.0.len()
            invariant
                i <= self.0@.len(),
                weights@.len() == i,
                forall|j: int| 0 <= j < i ==> weights@[j] as int == (#[trigger] self@[j]).1,
                forall|j: int| 0 <= j < i ==> in_unit_range(#[trigger] weights@[j] as int),
            decreases self.0@.len() - i,
        {
            let entry = &self.0[i];
            proof {
                use_type_invariant(entry);
            }
            weights.push(entry.weight);
            i += 1;
        }
        weights
    }

    /// Turns the outcome of a draw among the entries into the constant
    /// drawn: that of the entry at the index drawn. A draw that could not be
    /// made, or an index past the entries, is a sampling failure.
    pub fn select(&self, drawn: Option<usize>) -> (r: Result<Constant, Error>)
        ensures
            match drawn {
                Some(index) if index < self@.len() => r is Ok && r->Ok_0@ == self@[index as int].0,
                _ => r == Err::<Constant, Error>(Error::SamplingFailure),
            },
    {
        match drawn {
            Some(index) => if index < self.0.len() {
                Ok(self.0[index].constant)
            } else {
                Err(Error::SamplingFailure)
            },
            None => Err(Error::SamplingFailure),
        }
    }

    /// Draws one of the listed constants with the generator, each with a
    /// chance in proportion to the weight of its entry. The draw fails
    /// exactly when the weights are not usable; a constant that comes back
    /// has an entry of positive weight.
    pub fn get_random_with(&self, generator: &mut StdRng) -> (r: Result<Constant, Error>)
        ensures
            r is Ok <==> usable(weights_of(self@)),
            r matches Ok(constant) ==> drawable(self@, constant@),
            r matches Err(error) ==> error == Error::SamplingFailure,
    {
        let weights = self.weights();
        let drawn = draw_index(generator, &weights);
        let r = self.select(drawn);
        proof {
            assert(weights@.len() == self@.len());
            if let Some(index) = drawn {
                assert(integers(weights@)[index as int] == weights_of(self@)[index as int]);
            }
        }
        r
    }

    /// Draws one of the listed constants as
    /// [`ConstantWeights::get_random_with`] does, with a generator seeded by
    /// the operating system.
    pub fn get_random(&self) -> (r: Result<Constant, Error>)
        ensures
            r is Ok <==> usable(weights_of(self@)),
            r matches Ok(constant) ==> drawable(self@, constant@),
            r matches Err(error) ==> error == Error::SamplingFailure,
    {
        let mut generator = entropy_generator();
        self.get_random_with(&mut generator)
    }
}

} // verus!
