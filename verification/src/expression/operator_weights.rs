//! Sampling weights of operators.
use super::operator::{lemma_all_operators_listed, Operator};
use super::options::AllowedOperators;
use super::sampler::{draw_index, entropy_generator};
use super::weight::{
    completed, defaults, drawable, in_unit_range, integers, last_wins, lemma_completed_covers,
    lemma_lists_occurrences, lists, names, occurrences, unlisted, usable, weights_of,
    DEFAULT_WEIGHT,
};
use crate::Error;
use rand::rngs::StdRng;
use vstd::prelude::*;

verus! {

/// An operator with its sampling weight, in millionths.
#[derive(Debug)]
pub struct OperatorWeight {
    operator: Operator,
    weight: i32,
}

impl View for OperatorWeight {
    type V = (Operator, int);

    closed spec fn view(&self) -> (Operator, int) {
        (self.operator, self.weight as int)
    }
}

impl OperatorWeight {
    #[verifier::type_invariant]
    spec fn within_unit_range(&self) -> bool {
        in_unit_range(self.weight as int)
    }

    /// Pairs the operator with the weight, or refuses a weight outside the
    /// unit range.
    pub fn new(operator: Operator, weight: i32) -> (r: Result<Self, Error>)
        ensures
            in_unit_range(weight as int) ==> r.is_ok() && r.unwrap()@ == (operator, weight as int),
            !in_unit_range(weight as int) ==> r == Err::<Self, Error>(Error::WeightOutOfRange),
    {
        if weight < -DEFAULT_WEIGHT || weight > DEFAULT_WEIGHT {
            return Err(Error::WeightOutOfRange);
        }
        Ok(Self { operator, weight })
    }
}

/// The entries of a list of weighted operators, in order.
pub open spec fn operator_entries(weights: Seq<OperatorWeight>) -> Seq<(Operator, int)> {
    Seq::new(weights.len(), |i: int| weights[i]@)
}

/// The predicate that holds of the entries of allowed operators.
pub open spec fn allowed_entry(allowed: Seq<Operator>) -> spec_fn((Operator, int)) -> bool {
    |entry: (Operator, int)| allowed.contains(entry.0)
}

/// The entries of the table that are for allowed operators, in the table's order.
pub open spec fn eligible(entries: Seq<(Operator, int)>, allowed: Seq<Operator>) -> Seq<
    (Operator, int),
> {
    entries.filter(allowed_entry(allowed))
}

/// The eligible entries keep every entry of an allowed operator and none of
/// another.
pub proof fn lemma_eligible_occurrences(
    entries: Seq<(Operator, int)>,
    allowed: Seq<Operator>,
    operator: Operator,
)
    ensures
        occurrences(eligible(entries, allowed), operator) == if allowed.contains(operator) {
            occurrences(entries, operator)
        } else {
            0
        },
    decreases entries.len(),
{
    reveal(Seq::filter);
    if entries.len() > 0 {
        let rest = entries.drop_last();
        let last = entries.last();
        lemma_eligible_occurrences(rest, allowed, operator);
        rest.lemma_filter_push(last, allowed_entry(allowed));
        rest.lemma_filter_push(last, names(operator));
        if allowed.contains(last.0) {
            eligible(rest, allowed).lemma_filter_push(last, names(operator));
        }
    }
}

/// After completion over the four operators, the eligible entries cover the
/// allowed operators exactly once: each allowed operator has one eligible
/// entry, whatever the caller's table holds, and no other operator has one.
pub proof fn lemma_allowed_operators_covered(
    entries: Seq<(Operator, int)>,
    allowed: Seq<Operator>,
    operator: Operator,
)
    ensures
        occurrences(eligible(completed(entries, Operator::all()), allowed), operator)
            == if allowed.contains(operator) {
            1nat
        } else {
            0nat
        },
        allowed.contains(operator) <==> lists(
            eligible(completed(entries, Operator::all()), allowed),
            operator,
        ),
{
    let table = completed(entries, Operator::all());
    lemma_all_operators_listed(operator);
    lemma_completed_covers(entries, Operator::all(), operator);
    lemma_eligible_occurrences(table, allowed, operator);
    lemma_lists_occurrences(eligible(table, allowed), operator);
}

/// A weight table that lists every operator.
#[derive(Debug)]
pub struct OperatorWeights(Vec<OperatorWeight>);

impl View for OperatorWeights {
    type V = Seq<(Operator, int)>;

    closed spec fn view(&self) -> Seq<(Operator, int)> {
        operator_entries(self.0@)
    }
}

/// Tells whether one of the weights from the index `from` on is for the
/// operator.
fn lists_operator(weights: &Vec<OperatorWeight>, from: usize, operator: Operator) -> (r: bool)
    requires
        from <= weights@.len(),
    ensures
        r == lists(operator_entries(weights@).skip(from as int), operator),
{
    let ghost entries = operator_entries(weights@).skip(from as int);
    let mut i: usize = from;
    while i < weights.len()
        invariant
            from <= i <= weights@.len(),
            entries == operator_entries(weights@).skip(from as int),
            forall|j: int| 0 <= j < i - from ==> (#[trigger] entries[j]).0 != operator,
        decreases weights@.len() - i,
    {
        if weights[i].operator == operator {
            assert(entries[i - from].0 == operator);
            return true;
        }
        i += 1;
    }
    false
}

impl OperatorWeights {
    /// Completes the caller's table over the four operators. Of the entries
    /// for one operator the last counts and the others are dropped; the
    /// entries that count stay in their order; each operator without an
    /// entry gets one of weight 1.0 at the end, in the operators' fixed
    /// order.
    pub fn new(weights: Vec<OperatorWeight>) -> (r: Self)
        ensures
            r@ == completed(operator_entries(weights@), Operator::all()),
    {
        let ghost given = operator_entries(weights@);
        let mut table: Vec<OperatorWeight> = Vec::new();
        let mut i: usize = 0;
        assert(given.skip(0) =~= given);
        while i < weights.len()
            invariant
                i <= weights@.len(),
                given == operator_entries(weights@),
                last_wins(given) == operator_entries(table@) + last_wins(given.skip(i as int)),
            decreases weights@.len() - i,
        {
            let entry = &weights[i];
            let later = lists_operator(&weights, i + 1, entry.operator);
            proof {
                use_type_invariant(entry);
                assert(given.skip(i as int).skip(1) =~= given.skip(i + 1));
            }
            if !later {
                table.push(OperatorWeight { operator: entry.operator, weight: entry.weight });
            }
            i += 1;
        }
        let all = Operator::list_options();
        let mut k: usize = 0;
        assert(Seq::<Operator>::empty().filter(unlisted(given)) =~= Seq::<Operator>::empty()) by {
            reveal(Seq::filter);
        }
        assert(operator_entries(table@) =~= last_wins(given) + defaults(
            all@.take(0).filter(unlisted(given)),
        ));
        while k < all.len()
            invariant
                k <= all@.len(),
                all@ == Operator::all(),
                given == operator_entries(weights@),
                operator_entries(table@) == last_wins(given) + defaults(
                    all@.take(k as int).filter(unlisted(given)),
                ),
            decreases all@.len() - k,
        {
            let operator = all[k];
            let listed = lists_operator(&weights, 0, operator);
            let ghost before = operator_entries(table@);
            let ghost seen = all@.take(k as int);
            proof {
                assert(given.skip(0) =~= given);
                assert(all@.take(k + 1) =~= seen.push(operator));
                seen.lemma_filter_push(operator, unlisted(given));
            }
            if !listed {
                table.push(OperatorWeight { operator, weight: DEFAULT_WEIGHT });
                assert(operator_entries(table@) =~= before.push((operator, DEFAULT_WEIGHT as int)));
                assert(defaults(seen.filter(unlisted(given)).push(operator)) =~= defaults(
                    seen.filter(unlisted(given)),
                ).push((operator, DEFAULT_WEIGHT as int)));
                assert(operator_entries(table@) =~= last_wins(given) + defaults(
                    all@.take(k + 1).filter(unlisted(given)),
                ));
            }
            k += 1;
        }
        assert(all@.take(all@.len() as int) =~= all@);
        OperatorWeights(table)
    }

    /// Lists the operators of the eligible entries and, beside them, their
    /// weights.
    fn eligible_entries(&self, allowed_operators: &AllowedOperators) -> (r: (
        Vec<Operator>,
        Vec<i32>,
    ))
        ensures
            r.0@.len() == r.1@.len() == eligible(self@, allowed_operators@).len(),
            forall|i: int|
                0 <= i < r.0@.len() ==> (r.0@[i], r.1@[i] as int) == #[trigger] eligible(
                    self@,
                    allowed_operators@,
                )[i],
            forall|i: int| 0 <= i < r.1@.len() ==> in_unit_range(#[trigger] r.1@[i] as int),
    {
        let mut operators: Vec<Operator> = Vec::new();
        let mut weights: Vec<i32> = Vec::new();
        let ghost keep = allowed_entry(allowed_operators@);
        let mut i: usize = 0;
        assert(self@.take(0).filter(keep) =~= Seq::<(Operator, int)>::empty()) by {
            reveal(Seq::filter);
        }
        while i < self.0.len()
            invariant
                i <= self.0@.len(),
                keep == allowed_entry(allowed_operators@),
                operators@.len() == weights@.len() == self@.take(i as int).filter(keep).len(),
                forall|j: int|
                    0 <= j < operators@.len() ==> (operators@[j], weights@[j] as int)
                        == #[trigger] self@.take(i as int).filter(keep)[j],
                forall|j: int|
                    0 <= j < weights@.len() ==> in_unit_range(#[trigger] weights@[j] as int),
            decreases self.0@.len() - i,
        {
            let entry = &self.0[i];
            proof {
                use_type_invariant(entry);
                assert(self@.take(i + 1) =~= self@.take(i as int).push(entry@));
                self@.take(i as int).lemma_filter_push(entry@, keep);
            }
            if allowed_operators.contains(&entry.operator) {
                operators.push(entry.operator);
                weights.push(entry.weight);
            }
            i += 1;
        }
        assert(self@.take(self.0@.len() as int) =~= self@);
        (operators, weights)
    }

    /// Lists the weights of the eligible entries, in the table's order: what
    /// a draw among the allowed operators is made from. Each lies in the unit
    /// range.
    pub fn eligible_weights(&self, allowed_operators: &AllowedOperators) -> (r: Vec<i32>)
        ensures
            integers(r@) == weights_of(eligible(self@, allowed_operators@)),
            forall|i: int| 0 <= i < r@.len() ==> in_unit_range(#[trigger] r@[i] as int),
    {
        let (_, weights) = self.eligible_entries(allowed_operators);
        weights
    }

    /// Turns the outcome of a draw among the eligible entries into the
    /// operator drawn: that of the eligible entry at the index drawn. A draw
    /// that could not be made, or an index past the eligible entries, is a
    /// sampling failure.
    pub fn select(&self, allowed_operators: &AllowedOperators, drawn: Option<usize>) -> (r: Result<
        Operator,
        Error,
    >)
        ensures
            match drawn {
                Some(index) if index < eligible(self@, allowed_operators@).len() => r == Ok::<
                    Operator,
                    Error,
                >(eligible(self@, allowed_operators@)[index as int].0),
                _ => r == Err::<Operator, Error>(Error::SamplingFailure),
            },
    {
        let (operators, _) = self.eligible_entries(allowed_operators);
        match drawn {
            Some(index) => if index < operators.len() {
                Ok(operators[index])
            } else {
                Err(Error::SamplingFailure)
            },
            None => Err(Error::SamplingFailure),
        }
    }

    /// Draws one of the allowed operators with the generator, each with a
    /// chance in proportion to the weight of its eligible entry. The draw
    /// fails exactly when the eligible weights are not usable; an operator
    /// that comes back is allowed and has an eligible entry of positive
    /// weight.
    pub fn get_random_operator_with(
        &self,
        allowed_operators: &AllowedOperators,
        generator: &mut StdRng,
    ) -> (r: Result<Operator, Error>)
        ensures
            r is Ok <==> usable(weights_of(eligible(self@, allowed_operators@))),
            r matches Ok(operator) ==> allowed_operators@.contains(operator) && drawable(
                eligible(self@, allowed_operators@),
                operator,
            ),
            r matches Err(error) ==> error == Error::SamplingFailure,
    {
        let weights = self.eligible_weights(allowed_operators);
        let drawn = draw_index(generator, &weights);
        let r = self.select(allowed_operators, drawn);
        proof {
            let entries = eligible(self@, allowed_operators@);
            assert(weights@.len() == entries.len());
            if let Some(index) = drawn {
                assert(integers(weights@)[index as int] == weights_of(entries)[index as int]);
                self@.lemma_filter_pred(allowed_entry(allowed_operators@), index as int);
            }
        }
        r
    }

    /// Draws one of the allowed operators as
    /// [`OperatorWeights::get_random_operator_with`] does, with a generator
    /// seeded by the operating system.
    pub fn get_random_operator(&self, allowed_operators: &AllowedOperators) -> (r: Result<
        Operator,
        Error,
    >)
        ensures
            r is Ok <==> usable(weights_of(eligible(self@, allowed_operators@))),
            r matches Ok(operator) ==> allowed_operators@.contains(operator) && drawable(
                eligible(self@, allowed_operators@),
                operator,
            ),
            r matches Err(error) ==> error == Error::SamplingFailure,
    {
        let mut generator = entropy_generator();
        self.get_random_operator_with(allowed_operators, &mut generator)
    }
}

} // verus!
