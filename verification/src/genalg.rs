//! The search: a population of scored candidates that is carried from one
//! generation to the next by selection, crossover and mutation.

use crate::individual::genetic::Genetic;
use crate::random::{random_below, sample_indices};
use vstd::prelude::*;
use vstd::seq_lib::{lemma_multiset_commutative, to_multiset_insert, to_multiset_remove};

verus! {

/// A share, as a fraction of two integers.
#[derive(Debug, Clone, Copy, PartialEq, Eq, Structural)]
pub struct Rate {
    pub numerator: u32,
    pub denominator: u32,
}

impl Rate {
    /// Whether the fraction is a number between zero and one.
    pub open spec fn in_unit_interval(self) -> bool {
        self.denominator > 0 && self.numerator <= self.denominator
    }

    /// The share of `size` that the rate stands for, rounded down.
    pub open spec fn share_of(self, size: int) -> int
        recommends
            self.denominator > 0,
    {
        size * self.numerator / (self.denominator as int)
    }

    /// The fraction `numerator / denominator`.
    pub fn new(numerator: u32, denominator: u32) -> (r: Self)
        ensures
            r == (Rate { numerator, denominator }),
    {
        Rate { numerator, denominator }
    }

    /// Tells whether the fraction is a number between zero and one.
    pub fn is_valid(&self) -> (b: bool)
        ensures
            b == self.in_unit_interval(),
    {
        self.denominator > 0 && self.numerator <= self.denominator
    }

    /// The share of `size` that the rate stands for, rounded down, for a rate
    /// between zero and one.
    pub fn of(&self, size: usize) -> (share: usize)
        requires
            self.in_unit_interval(),
        ensures
            share == self.share_of(size as int),
            share <= size,
    {
        assert(size * self.numerator <= 0xFFFF_FFFF_FFFF_FFFF * 0xFFFF_FFFF) by (nonlinear_arith)
            requires
                0 <= size <= 0xFFFF_FFFF_FFFF_FFFF,
                0 <= self.numerator <= 0xFFFF_FFFF,
        ;
        let product: u128 = size as u128 * self.numerator as u128;
        let share: u128 = product / self.denominator as u128;
        assert(0 <= size * self.numerator / (self.denominator as int) <= size)
            by (nonlinear_arith)
            requires
                0 <= self.numerator <= self.denominator,
                self.denominator > 0,
                size >= 0,
        ;
        share as usize
    }
}

/// Why a run was refused.
#[derive(Debug, Clone, Copy, PartialEq, Eq, Structural)]
pub enum ConfigError {
    /// More elite members were asked for than the population has.
    EliteCountTooLarge,
    /// The mutation rate is no number between zero and one.
    MutationRateOutOfRange,
    /// The selection rate is no number between zero and one.
    SelectionRateOutOfRange,
    /// The selection rate selects fewer than two members.
    SelectionTooSmall,
}

/// What is wrong with the parameters of a run on a population of `size`
/// members, if anything.
pub open spec fn config_error(
    size: int,
    selection_rate: Rate,
    mutation_rate: Rate,
    elite_count: int,
) -> Option<ConfigError> {
    if elite_count > size {
        Some(ConfigError::EliteCountTooLarge)
    } else if !mutation_rate.in_unit_interval() {
        Some(ConfigError::MutationRateOutOfRange)
    } else if !selection_rate.in_unit_interval() {
        Some(ConfigError::SelectionRateOutOfRange)
    } else if selection_rate.share_of(size) < 2 {
        Some(ConfigError::SelectionTooSmall)
    } else {
        None
    }
}

/// A candidate with the fitness that it had when it was last scored.
#[derive(Debug)]
pub struct FitnessIndiv<T: Genetic + Clone> {
    obj: T,
    fitness: i64,
}

impl<T: Genetic + Clone> FitnessIndiv<T> {
    /// The fitness that is kept with the candidate.
    pub closed spec fn spec_fitness(&self) -> i64 {
        self.fitness
    }

    /// The candidate.
    pub closed spec fn spec_obj(&self) -> T {
        self.obj
    }

    /// Returns the fitness that is kept with the candidate.
    pub fn fitness(&self) -> (f: i64)
        ensures
            f == self.spec_fitness(),
    {
        self.fitness
    }

    /// Returns the candidate.
    pub fn obj(&self) -> (obj: &T)
        ensures
            *obj == self.spec_obj(),
    {
        &self.obj
    }

    /// Scores `obj` and keeps the score with a copy of it.
    pub fn new(obj: &T) -> (scored: Self)
        ensures
            scored_copy(*obj, scored),
    {
        FitnessIndiv { obj: obj.clone(), fitness: obj.fitness() }
    }

    /// The fitness and a copy of the candidate.
    pub fn into_tuple(&self) -> (pair: (i64, T))
        ensures
            pair.0 == self.spec_fitness(),
            cloned(self.spec_obj(), pair.1),
    {
        (self.fitness, self.obj.clone())
    }
}

impl<T: Genetic + Clone> Clone for FitnessIndiv<T> {
    fn clone(&self) -> (copy: Self)
        ensures
            copy.spec_fitness() == self.spec_fitness(),
            cloned(self.spec_obj(), copy.spec_obj()),
    {
        FitnessIndiv { obj: self.obj.clone(), fitness: self.fitness }
    }
}

/// Whether `member` is a copy of `obj` with the fitness that the candidate's
/// own `fitness` returned for `obj`.
pub open spec fn scored_copy<T: Genetic + Clone>(obj: T, member: FitnessIndiv<T>) -> bool {
    &&& cloned(obj, member.spec_obj())
    &&& call_ensures(T::fitness, (&obj,), member.spec_fitness())
}

/// Whether `copy` is a copy of `member`: a copy of its candidate, with the
/// fitness that is kept with `member`.
pub open spec fn copy_of_member<T: Genetic + Clone>(
    member: FitnessIndiv<T>,
    copy: FitnessIndiv<T>,
) -> bool {
    &&& copy.spec_fitness() == member.spec_fitness()
    &&& cloned(member.spec_obj(), copy.spec_obj())
}

/// Whether `record` holds, place by place, copies of the members of
/// `population`.
pub open spec fn record_of<T: Genetic + Clone>(
    population: Seq<FitnessIndiv<T>>,
    record: Seq<FitnessIndiv<T>>,
) -> bool {
    &&& record.len() == population.len()
    &&& forall|i: int|
        0 <= i < population.len() ==> copy_of_member(population[i], #[trigger] record[i])
}

/// Whether `member` is the scored copy of a child that the candidates' own
/// `crossover` made of two different members of `parents`.
pub open spec fn crossed_child<T: Genetic + Clone>(
    parents: Seq<FitnessIndiv<T>>,
    member: FitnessIndiv<T>,
) -> bool {
    exists|a: int, b: int, child: T|
        0 <= a < parents.len() && 0 <= b < parents.len() && a != b && #[trigger] call_ensures(
            T::crossover,
            (&parents[a].spec_obj(), &parents[b].spec_obj()),
            child,
        ) && scored_copy(child, member)
}

/// Whether `member` is the scored copy of a candidate that the candidates' own
/// `generate` made.
pub open spec fn generated_member<T: Genetic + Clone>(member: FitnessIndiv<T>) -> bool {
    exists|fresh: T| #[trigger] call_ensures(T::generate, (), fresh) && scored_copy(fresh, member)
}

/// The fitness of each member of a population, in order.
pub open spec fn fitness_values<T: Genetic + Clone>(population: Seq<FitnessIndiv<T>>) -> Seq<i64> {
    Seq::new(population.len(), |i: int| population[i].spec_fitness())
}

/// Whether no value is followed by a higher one.
pub open spec fn sorted_descending(values: Seq<i64>) -> bool {
    forall|i: int, j: int| 0 <= i <= j < values.len() ==> values[i] >= values[j]
}

/// Sorts a population by fitness, the fittest first. Members of equal fitness
/// keep their order, so a population that is sorted stays as it is.
pub fn sort_by_fitness<T: Genetic + Clone>(population: &mut Vec<FitnessIndiv<T>>)
    ensures
        final(population)@.to_multiset() == old(population)@.to_multiset(),
        fitness_values(final(population)@).to_multiset() == fitness_values(
            old(population)@,
        ).to_multiset(),
        final(population)@.len() == old(population)@.len(),
        sorted_descending(fitness_values(final(population)@)),
        sorted_descending(fitness_values(old(population)@)) ==> final(population)@ == old(
            population,
        )@,
{
    let mut i: usize = 0;
    while i < population.len()
        invariant
            i <= population.len(),
            population@.to_multiset() == old(population)@.to_multiset(),
            fitness_values(population@).to_multiset() == fitness_values(
                old(population)@,
            ).to_multiset(),
            population@.len() == old(population)@.len(),
            sorted_descending(fitness_values(population@.take(i as int))),
            sorted_descending(fitness_values(old(population)@)) ==> population@ == old(
                population,
            )@,
        decreases population.len() - i,
    {
        let ghost before = population@;
        let fitness = population[i].fitness();
        let mut j: usize = i;
        while j > 0 && population[j - 1].fitness() < fitness
            invariant
                j <= i < population.len(),
                population@ == before,
                fitness == before[i as int].spec_fitness(),
                forall|k: int| j <= k < i ==> (#[trigger] before[k]).spec_fitness() < fitness,
            decreases j,
        {
            j -= 1;
        }
        if j < i {
            let member = population.remove(i);
            population.insert(j, member);
            proof {
                to_multiset_remove(before, i as int);
                to_multiset_insert(before.remove(i as int), j as int, member);
                assert(before.to_multiset().remove(member).insert(member) =~= before.to_multiset())
                    by {
                    before.to_multiset_ensures();
                    assert(before.contains(member));
                }
                let values = fitness_values(before);
                assert(fitness_values(before.remove(i as int)) =~= values.remove(i as int));
                assert(fitness_values(population@) =~= values.remove(i as int).insert(
                    j as int,
                    fitness,
                ));
                to_multiset_remove(values, i as int);
                to_multiset_insert(values.remove(i as int), j as int, fitness);
                assert(values.to_multiset().remove(fitness).insert(fitness)
                    =~= values.to_multiset()) by {
                    values.to_multiset_ensures();
                    assert(values[i as int] == fitness);
                    assert(values.contains(fitness));
                }
                let old_values = fitness_values(old(population)@);
                if sorted_descending(old_values) {
                    assert(old_values[j as int] >= old_values[i as int]);
                    assert(false);
                }
                let prefix = fitness_values(before.take(i as int));
                let now = fitness_values(population@.take(i + 1));
                assert forall|a: int, b: int| 0 <= a <= b < now.len() implies now[a] >= now[b] by {
                    if a < j && b < j {
                        assert(prefix[a] >= prefix[b]);
                    } else if a < j && b == j {
                        if j > 0 {
                            assert(prefix[a] >= prefix[j - 1]);
                        }
                    } else if a < j && b > j {
                        assert(prefix[a] >= prefix[b - 1]);
                    } else if a == j && b > j {
                        assert(before[b - 1].spec_fitness() < fitness);
                    } else if a > j {
                        assert(prefix[a - 1] >= prefix[b - 1]);
                    }
                }
            }
        } else {
            proof {
                let prefix = fitness_values(before.take(i as int));
                let now = fitness_values(population@.take(i + 1));
                assert forall|a: int, b: int| 0 <= a <= b < now.len() implies now[a] >= now[b] by {
                    if b < i {
                        assert(prefix[a] >= prefix[b]);
                    } else if a < i {
                        assert(prefix[a] >= prefix[i - 1]);
                    }
                }
            }
        }
        i += 1;
    }
    assert(population@.take(i as int) =~= population@);
}

impl<T: Genetic + Clone> FitnessIndiv<T> {
    /// Changes the candidate at random and scores it anew: the candidate is
    /// what its own `mutate` makes of it, and the fitness kept with it is what
    /// its own `fitness` then returns.
    pub fn mutate(&mut self)
        ensures
            exists|candidate: &mut T|
                *candidate == old(self).spec_obj() && *final(candidate) == final(self).spec_obj()
                    && #[trigger] call_ensures(T::mutate, (candidate,), ()),
            call_ensures(T::fitness, (&final(self).spec_obj(),), final(self).spec_fitness()),
    {
        self.obj.mutate();
        self.fitness = self.obj.fitness();
    }

    /// The member after `mutate`.
    pub fn mutated(self) -> (changed: Self)
        ensures
            exists|candidate: &mut T|
                *candidate == self.spec_obj() && *final(candidate) == changed.spec_obj()
                    && #[trigger] call_ensures(T::mutate, (candidate,), ()),
            call_ensures(T::fitness, (&changed.spec_obj(),), changed.spec_fitness()),
    {
        let mut changed = self;
        changed.mutate();
        changed
    }
}

/// Whether `after` is what `FitnessIndiv::mutated` may make of `before`: its
/// candidate is what the candidate's own `mutate` made of the one of `before`,
/// and its fitness is what the candidate's own `fitness` then returned.
pub open spec fn mutation_of<T: Genetic + Clone>(
    before: FitnessIndiv<T>,
    after: FitnessIndiv<T>,
) -> bool {
    call_ensures(FitnessIndiv::<T>::mutated, (before,), after)
}

/// A copy of a population, member by member.
pub fn snapshot<T: Genetic + Clone>(population: &Vec<FitnessIndiv<T>>) -> (copy: Vec<
    FitnessIndiv<T>,
>)
    ensures
        copy@.len() == population@.len(),
        fitness_values(copy@) == fitness_values(population@),
        record_of(population@, copy@),
{
    let mut copy: Vec<FitnessIndiv<T>> = Vec::new();
    let mut i: usize = 0;
    while i < population.len()
        invariant
            i <= population.len(),
            copy@.len() == i,
            forall|k: int| 0 <= k < i ==> copy_of_member(population@[k], #[trigger] copy@[k]),
        decreases population.len() - i,
    {
        copy.push(population[i].clone());
        i += 1;
    }
    assert(fitness_values(copy@) =~= fitness_values(population@));
    copy
}

/// Fills a population up to `size` members: each new member is the scored
/// child of two different members drawn among the first `selected`.
pub fn refill<T: Genetic + Clone>(
    population: &mut Vec<FitnessIndiv<T>>,
    selected: usize,
    size: usize,
)
    requires
        2 <= selected <= old(population)@.len() <= size,
    ensures
        final(population)@.len() == size,
        final(population)@.take(old(population)@.len() as int) == old(population)@,
        forall|k: int|
            old(population)@.len() <= k < size ==> crossed_child(
                old(population)@.take(selected as int),
                #[trigger] final(population)@[k],
            ),
{
    let ghost parents = old(population)@.take(selected as int);
    while population.len() < size
        invariant
            2 <= selected <= old(population)@.len() <= population@.len() <= size,
            population@.take(old(population)@.len() as int) == old(population)@,
            parents == old(population)@.take(selected as int),
            forall|k: int|
                old(population)@.len() <= k < population@.len() ==> crossed_child(
                    parents,
                    #[trigger] population@[k],
                ),
        decreases size - population.len(),
    {
        let ghost before = population@;
        let picked = sample_indices(selected, 2);
        let first = picked[0];
        let second = picked[1];
        assert(before[first as int] == parents[first as int] && before[second as int]
            == parents[second as int]) by {
            assert(before.take(old(population)@.len() as int)[first as int] == before[first as int]);
            assert(before.take(old(population)@.len() as int)[second as int]
                == before[second as int]);
        }
        let child = population[first].obj().crossover(population[second].obj());
        let member = FitnessIndiv::new(&child);
        assert(crossed_child(parents, member)) by {
            assert(call_ensures(
                T::crossover,
                (&parents[first as int].spec_obj(), &parents[second as int].spec_obj()),
                child,
            ));
        }
        population.push(member);
        assert(population@.take(old(population)@.len() as int) =~= old(population)@);
        assert forall|k: int| old(population)@.len() <= k < population@.len() implies crossed_child(
            parents,
            #[trigger] population@[k],
        ) by {
            if k < before.len() {
                assert(population@[k] == before[k]);
            }
        }
    }
    assert(population@.take(old(population)@.len() as int) =~= old(population)@);
}

/// A mutation is what the candidate's own `mutate` made of the candidate,
/// with the fitness that the candidate's own `fitness` then returned.
pub proof fn lemma_mutation_is_rescored<T: Genetic + Clone>(
    before: FitnessIndiv<T>,
    after: FitnessIndiv<T>,
)
    requires
        mutation_of(before, after),
    ensures
        exists|candidate: &mut T|
            *candidate == before.spec_obj() && *final(candidate) == after.spec_obj()
                && #[trigger] call_ensures(T::mutate, (candidate,), ()),
        call_ensures(T::fitness, (&after.spec_obj(),), after.spec_fitness()),
{
}

/// Changes each member at random with the chance `rate`, and scores the
/// changed ones anew. Each member stays in its place, and is either as it was
/// or a mutation of what it was; with a rate of zero every member is as it
/// was, and with a rate of one every member is a mutation of what it was.
pub fn mutate_members<T: Genetic + Clone>(population: &mut Vec<FitnessIndiv<T>>, rate: Rate)
    requires
        rate.in_unit_interval(),
    ensures
        final(population)@.len() == old(population)@.len(),
        rate.numerator == 0 ==> final(population)@ == old(population)@,
        forall|k: int|
            0 <= k < old(population)@.len() ==> final(population)@[k] == old(population)@[k]
                || #[trigger] mutation_of(old(population)@[k], final(population)@[k]),
        rate.numerator == rate.denominator ==> forall|k: int|
            0 <= k < old(population)@.len() ==> #[trigger] mutation_of(
                old(population)@[k],
                final(population)@[k],
            ),
        mutated_members(old(population)@, final(population)@, rate),
{
    let mut i: usize = 0;
    while i < population.len()
        invariant
            i <= population.len(),
            population@.len() == old(population)@.len(),
            rate.in_unit_interval(),
            rate.numerator == 0 ==> population@ == old(population)@,
            forall|k: int| i <= k < population@.len() ==> population@[k] == old(population)@[k],
            forall|k: int|
                0 <= k < i ==> population@[k] == old(population)@[k] || #[trigger] mutation_of(
                    old(population)@[k],
                    population@[k],
                ),
            rate.numerator == rate.denominator ==> forall|k: int|
                0 <= k < i ==> #[trigger] mutation_of(old(population)@[k], population@[k]),
        decreases population.len() - i,
    {
        let ghost before = population@;
        if random_below(rate.denominator as usize) < rate.numerator as usize {
            let member = population.remove(i);
            population.insert(i, member.mutated());
            assert(population@ =~= before.update(i as int, population@[i as int]));
        }
        i += 1;
    }
}

/// Whether `after` is what mutating the members of `before` with the chance
/// `rate` may give: each member is in its place, as it was or a mutation of
/// what it was; none is changed at the rate zero, and all are at the rate one.
pub open spec fn mutated_members<T: Genetic + Clone>(
    before: Seq<FitnessIndiv<T>>,
    after: Seq<FitnessIndiv<T>>,
    rate: Rate,
) -> bool {
    &&& after.len() == before.len()
    &&& rate.numerator == 0 ==> after == before
    &&& forall|k: int|
        0 <= k < before.len() ==> after[k] == before[k] || #[trigger] mutation_of(
            before[k],
            after[k],
        )
    &&& rate.numerator == rate.denominator ==> forall|k: int|
        0 <= k < before.len() ==> #[trigger] mutation_of(before[k], after[k])
}

/// Whether `filled` is `parents` filled up to `size` members with children of
/// two different members of `parents` each.
pub open spec fn refilled<T: Genetic + Clone>(
    parents: Seq<FitnessIndiv<T>>,
    filled: Seq<FitnessIndiv<T>>,
    size: int,
) -> bool {
    &&& filled.len() == size
    &&& parents.len() <= size
    &&& filled.take(parents.len() as int) == parents
    &&& forall|k: int| parents.len() <= k < size ==> crossed_child(parents, #[trigger] filled[k])
}

/// Whether `sorted` holds the members of `unsorted`, the fittest first; where
/// `unsorted` is in that order already, the two are the same.
pub open spec fn sorted_from<T: Genetic + Clone>(
    unsorted: Seq<FitnessIndiv<T>>,
    sorted: Seq<FitnessIndiv<T>>,
) -> bool {
    &&& sorted.len() == unsorted.len()
    &&& sorted.to_multiset() == unsorted.to_multiset()
    &&& fitness_values(sorted).to_multiset() == fitness_values(unsorted).to_multiset()
    &&& sorted_descending(fitness_values(sorted))
    &&& sorted_descending(fitness_values(unsorted)) ==> sorted == unsorted
}

/// Whether `next` is what one generation may make of `population`: the first
/// `selected` members are kept and the others are children of two different
/// ones of them each; then, unless the generation is the last of its run, the
/// members are mutated with the chance `rate`; then they are sorted.
pub open spec fn next_generation<T: Genetic + Clone>(
    population: Seq<FitnessIndiv<T>>,
    next: Seq<FitnessIndiv<T>>,
    selected: int,
    rate: Rate,
    last: bool,
) -> bool {
    exists|filled: Seq<FitnessIndiv<T>>, changed: Seq<FitnessIndiv<T>>|
        #![trigger refilled(population.take(selected), filled, population.len() as int), sorted_from(changed, next)]
        {
            &&& refilled(population.take(selected), filled, population.len() as int)
            &&& if last {
                changed == filled
            } else {
                mutated_members(filled, changed, rate)
            }
            &&& sorted_from(changed, next)
        }
}

/// Whether `populations` are the populations of a run, from the one it started
/// from, sorted, to the one it ended with: each but the last was recorded, and
/// each but the first is what a generation made of the one before.
pub open spec fn generations_of<T: Genetic + Clone>(
    start: Seq<FitnessIndiv<T>>,
    records: Seq<Vec<FitnessIndiv<T>>>,
    end: Seq<FitnessIndiv<T>>,
    populations: Seq<Seq<FitnessIndiv<T>>>,
    selected: int,
    rate: Rate,
) -> bool {
    &&& populations.len() == records.len() + 1
    &&& sorted_from(start, populations[0])
    &&& populations[records.len() as int] == end
    &&& forall|g: int|
        #![trigger populations[g]]
        0 <= g < records.len() ==> record_of(populations[g], records[g]@) && next_generation(
            populations[g],
            populations[g + 1],
            selected,
            rate,
            g == records.len() - 1,
        )
}

/// Whether `best` is the best member that a run through `populations` leaves:
/// the one before the run, or a copy of the first member of one of the
/// populations.
pub open spec fn best_among<T: Genetic + Clone>(
    populations: Seq<Seq<FitnessIndiv<T>>>,
    before: Option<FitnessIndiv<T>>,
    best: FitnessIndiv<T>,
) -> bool {
    ||| before == Some(best)
    ||| exists|g: int|
        0 <= g < populations.len() && copy_of_member((#[trigger] populations[g])[0], best)
}

/// Carries a population through one generation: the first `selected` members
/// are kept and the others are made anew as children of two different ones of
/// them each; then, unless the generation is the last of its run, every member
/// is mutated with the chance `rate`; then the population is sorted.
pub fn advance_generation<T: Genetic + Clone>(
    population: &mut Vec<FitnessIndiv<T>>,
    selected: usize,
    rate: Rate,
    last: bool,
)
    requires
        2 <= selected <= old(population)@.len(),
        rate.in_unit_interval(),
    ensures
        final(population)@.len() == old(population)@.len(),
        sorted_descending(fitness_values(final(population)@)),
        next_generation(old(population)@, final(population)@, selected as int, rate, last),
        last ==> fitness_values(old(population)@.take(selected as int)).to_multiset().subset_of(
            fitness_values(final(population)@).to_multiset(),
        ),
        last ==> top_fitness(old(population)@) <= top_fitness(final(population)@),
{
    let size = population.len();
    let ghost parents = population@.take(selected as int);
    population.truncate(selected);
    refill(population, selected, size);
    let ghost filled = population@;
    assert(parents.take(selected as int) =~= parents);
    assert(refilled(parents, filled, size as int));
    if !last {
        mutate_members(population, rate);
    }
    let ghost changed = population@;
    sort_by_fitness(population);
    assert(sorted_from(changed, population@));
    proof {
        if last {
            let kept = fitness_values(parents);
            let unsorted = fitness_values(changed);
            let sorted = fitness_values(population@);
            let rest = unsorted.skip(selected as int);
            assert(unsorted.take(selected as int) =~= kept) by {
                assert forall|k: int| 0 <= k < selected implies unsorted[k] == kept[k] by {
                    assert(filled.take(selected as int)[k] == filled[k]);
                }
            }
            assert(unsorted =~= kept + rest);
            lemma_multiset_commutative(kept, rest);
            assert(kept.to_multiset().subset_of(sorted.to_multiset()));
            let top = top_fitness(old(population)@);
            assert(kept[0] == top);
            kept.to_multiset_ensures();
            sorted.to_multiset_ensures();
            assert(kept.contains(top));
            assert(kept.to_multiset().count(top) > 0);
            assert(sorted.to_multiset().count(top) > 0);
            assert(sorted.contains(top));
            let at = choose|at: int| 0 <= at < sorted.len() && sorted[at] == top;
            assert(sorted[0] >= sorted[at]);
        }
    }
}

/// The fitness of the first member of a population.
pub open spec fn top_fitness<T: Genetic + Clone>(population: Seq<FitnessIndiv<T>>) -> i64 {
    population[0].spec_fitness()
}

/// The best member after a population was seen: a copy of the population's
/// first member where its fitness is at least that of the best so far, or
/// there is none so far; else the best so far.
pub fn try_update_best_individual<T: Genetic + Clone>(
    best: Option<FitnessIndiv<T>>,
    population: &Vec<FitnessIndiv<T>>,
) -> (now: FitnessIndiv<T>)
    requires
        population@.len() > 0,
    ensures
        now.spec_fitness() == match best {
            Some(b) => if b.spec_fitness() > top_fitness(population@) {
                b.spec_fitness()
            } else {
                top_fitness(population@)
            },
            None => top_fitness(population@),
        },
        best matches Some(b) ==> b.spec_fitness() > top_fitness(population@) ==> now == b,
        !(best matches Some(b) && b.spec_fitness() > top_fitness(population@)) ==> copy_of_member(
            population@[0],
            now,
        ),
{
    match best {
        Some(b) => if b.fitness() <= population[0].fitness() {
            population[0].clone()
        } else {
            b
        },
        None => population[0].clone(),
    }
}

/// What `generations` generations, each keeping the `selected` fittest members
/// and mutating with the chance `rate`, make of a history, a population and a
/// best member: their populations are recorded, place by place, the first of
/// them being the population before, sorted; each population is what a
/// generation made of the one before; the population keeps its size and is
/// sorted; the last generation, which is never mutated, keeps the fitness of
/// the `selected` fittest members that it started from; and the best member
/// is the fittest that stood on top of a population since, or the one before.
pub open spec fn progressed<T: Genetic + Clone>(
    history_before: Seq<Vec<FitnessIndiv<T>>>,
    population_before: Seq<FitnessIndiv<T>>,
    best_before: Option<FitnessIndiv<T>>,
    history: Seq<Vec<FitnessIndiv<T>>>,
    population: Seq<FitnessIndiv<T>>,
    best: FitnessIndiv<T>,
    generations: int,
    selected: int,
    rate: Rate,
) -> bool {
    let size = population_before.len() as int;
    let start = history_before.len() as int;
    let first = if generations > 0 {
        history[start]@
    } else {
        population
    };
    &&& history.len() == start + generations
    &&& history.take(start) == history_before
    &&& fitness_values(first).to_multiset() == fitness_values(population_before).to_multiset()
    &&& population.len() == size
    &&& sorted_descending(fitness_values(population))
    &&& exists|populations: Seq<Seq<FitnessIndiv<T>>>| #[trigger]
        generations_of(
            population_before,
            history.skip(start),
            population,
            populations,
            selected,
            rate,
        ) && best_among(populations, best_before, best)
    &&& generations > 0 ==> top_fitness(history.last()@) <= top_fitness(population)
    &&& generations > 0 ==> fitness_values(
        history.last()@.take(selected),
    ).to_multiset().subset_of(fitness_values(population).to_multiset())
    &&& top_fitness(population) <= best.spec_fitness()
    &&& snapshots_in_order(history, start, size, best.spec_fitness())
    &&& best_before matches Some(b) ==> b.spec_fitness() <= best.spec_fitness()
    &&& {
        ||| top_fitness(population) == best.spec_fitness()
        ||| seen_on_top(history, start, best.spec_fitness())
        ||| best_before matches Some(b) && b.spec_fitness() == best.spec_fitness()
    }
}

/// Runs `generations` generations on a population: sorts it, then, for each
/// generation, records it in `history` and carries it through the generation;
/// returns the best member that was seen, `previous_best` or a copy of the
/// first member of one of the populations.
pub fn run_generations<T: Genetic + Clone>(
    history: &mut Vec<Vec<FitnessIndiv<T>>>,
    population: &mut Vec<FitnessIndiv<T>>,
    previous_best: Option<FitnessIndiv<T>>,
    num_of_generations: usize,
    selected: usize,
    mutation_rate: Rate,
) -> (best: FitnessIndiv<T>)
    requires
        2 <= selected <= old(population)@.len(),
        mutation_rate.in_unit_interval(),
    ensures
        progressed(
            old(history)@,
            old(population)@,
            previous_best,
            final(history)@,
            final(population)@,
            best,
            num_of_generations as int,
            selected as int,
            mutation_rate,
        ),
{
    let ghost old_history = history@;
    let ghost old_best = previous_best;
    let ghost old_population = population@;
    let ghost old_fitness = fitness_values(population@).to_multiset();
    let ghost start = old_history.len() as int;
    let size = population.len();
    sort_by_fitness(population);
    let ghost mut populations: Seq<Seq<FitnessIndiv<T>>> = seq![population@];
    let mut best = try_update_best_individual(previous_best, population);
    proof {
        if !(old_best matches Some(b) && b.spec_fitness() > top_fitness(population@)) {
            assert(copy_of_member(populations[0][0], best));
        }
    }
    let mut done: usize = 0;
    while done < num_of_generations
        invariant
            done <= num_of_generations,
            2 <= selected <= size,
            mutation_rate.in_unit_interval(),
            start == old_history.len(),
            history@.len() == start + done,
            history@.take(start) == old_history,
            population@.len() == size,
            sorted_descending(fitness_values(population@)),
            top_fitness(population@) <= best.spec_fitness(),
            snapshots_in_order(history@, start, size as int, best.spec_fitness()),
            old_best matches Some(b) ==> b.spec_fitness() <= best.spec_fitness(),
            top_fitness(population@) == best.spec_fitness() || seen_on_top(
                history@,
                start,
                best.spec_fitness(),
            ) || (old_best matches Some(b) && b.spec_fitness() == best.spec_fitness()),
            fitness_values(
                if done > 0 {
                    history@[start]@
                } else {
                    population@
                },
            ).to_multiset() == old_fitness,
            done == num_of_generations && done > 0 ==> top_fitness(history@.last()@)
                <= top_fitness(population@),
            done == num_of_generations && done > 0 ==> fitness_values(
                history@.last()@.take(selected as int),
            ).to_multiset().subset_of(fitness_values(population@).to_multiset()),
            populations.len() == done + 1,
            best_among(populations, old_best, best),
            sorted_from(old_population, populations[0]),
            populations[done as int] == population@,
            forall|g: int|
                #![trigger populations[g]]
                0 <= g < done ==> record_of(populations[g], history@[start + g]@)
                    && next_generation(
                    populations[g],
                    populations[g + 1],
                    selected as int,
                    mutation_rate,
                    g == num_of_generations - 1,
                ),
        decreases num_of_generations - done,
    {
        let ghost history_before = history@;
        let ghost populations_then = populations;
        let ghost best_before = best.spec_fitness();
        let ghost top_before = top_fitness(population@);
        let recorded = snapshot(population);
        assert(top_fitness(recorded@) == top_before) by {
            assert(fitness_values(recorded@)[0] == fitness_values(population@)[0]);
        }
        let ghost kept = fitness_values(recorded@.take(selected as int));
        assert(kept =~= fitness_values(population@).take(selected as int)) by {
            assert forall|k: int| 0 <= k < selected implies kept[k] == fitness_values(
                population@,
            )[k] by {
                assert(fitness_values(recorded@)[k] == fitness_values(population@)[k]);
            }
        }
        history.push(recorded);
        let ghost started = population@;
        assert(fitness_values(started.take(selected as int)) =~= kept);
        advance_generation(
            population,
            selected,
            mutation_rate,
            done == num_of_generations - 1,
        );
        proof {
            let populations_before = populations;
            populations = populations.push(population@);
            assert forall|g: int| #![trigger populations[g]] 0 <= g < done + 1 implies record_of(
                populations[g],
                history@[start + g]@,
            ) && next_generation(
                populations[g],
                populations[g + 1],
                selected as int,
                mutation_rate,
                g == num_of_generations - 1,
            ) by {
                if g < done {
                    assert(populations[g] == populations_before[g]);
                    assert(populations[g + 1] == populations_before[g + 1]);
                    assert(history@[start + g] == history_before[start + g]);
                } else {
                    assert(populations[g] == started);
                    assert(populations[g + 1] == population@);
                    assert(history@[start + g] == recorded);
                }
            }
        }
        let ghost best_member = best;
        best = try_update_best_individual(Some(best), population);
        proof {
            if best_member.spec_fitness() > top_fitness(population@) {
                assert(best == best_member);
                if old_best != Some(best) {
                    let g = choose|g: int|
                        0 <= g < populations_then.len() && copy_of_member(
                            (#[trigger] populations_then[g])[0],
                            best,
                        );
                    assert(populations[g] == populations_then[g]);
                }
            } else {
                assert(populations[done + 1] == population@);
                assert(copy_of_member(populations[done + 1][0], best));
            }
        }
        done += 1;
        proof {
            assert(history@.take(start) =~= history_before.take(start));
            assert forall|k: int| start <= k < history@.len() implies {
                &&& (#[trigger] history@[k])@.len() == size
                &&& sorted_descending(fitness_values(history@[k]@))
                &&& top_fitness(history@[k]@) <= best.spec_fitness()
            } by {
                if k < history_before.len() {
                    assert(history@[k] == history_before[k]);
                }
            }
            if best.spec_fitness() == best_before && top_fitness(population@)
                != best.spec_fitness() {
                if top_before == best_before {
                    assert(top_fitness(history@[history@.len() - 1]@) == best.spec_fitness());
                } else if seen_on_top(history_before, start, best_before) {
                    let k = choose|k: int|
                        start <= k < history_before.len() && top_fitness(
                            (#[trigger] history_before[k])@,
                        ) == best_before;
                    assert(history@[k] == history_before[k]);
                }
            }
        }
    }
    proof {
        let records = history@.skip(start);
        assert forall|g: int| #![trigger populations[g]] 0 <= g < records.len() implies record_of(
            populations[g],
            records[g]@,
        ) && next_generation(
            populations[g],
            populations[g + 1],
            selected as int,
            mutation_rate,
            g == records.len() - 1,
        ) by {
            assert(records[g] == history@[start + g]);
        }
        assert(generations_of(
            old_population,
            records,
            population@,
            populations,
            selected as int,
            mutation_rate,
        ));
    }
    best
}

/// The search on a population of candidates.
pub struct GenAlg<T: Genetic + Clone> {
    population_history: Vec<Vec<FitnessIndiv<T>>>,
    current_population: Vec<FitnessIndiv<T>>,
    current_generation: usize,
    best_individual: Option<FitnessIndiv<T>>,
}

/// Whether every population from `from` on has `size` members, the fittest
/// first, none of them fitter than `best`.
pub open spec fn snapshots_in_order<T: Genetic + Clone>(
    history: Seq<Vec<FitnessIndiv<T>>>,
    from: int,
    size: int,
    best: i64,
) -> bool {
    forall|k: int|
        from <= k < history.len() ==> {
            &&& (#[trigger] history[k])@.len() == size
            &&& sorted_descending(fitness_values(history[k]@))
            &&& top_fitness(history[k]@) <= best
        }
}

/// Whether `best` is the fitness of the first member of a population that was
/// recorded from `from` on.
pub open spec fn seen_on_top<T: Genetic + Clone>(
    history: Seq<Vec<FitnessIndiv<T>>>,
    from: int,
    best: i64,
) -> bool {
    exists|k: int| from <= k < history.len() && top_fitness((#[trigger] history[k])@) == best
}

impl<T: Genetic + Clone> GenAlg<T> {
    #[verifier::type_invariant]
    spec fn counts_its_history(self) -> bool {
        self.current_generation == self.population_history@.len()
    }

    /// The number of generations that were run.
    pub closed spec fn generation(&self) -> nat {
        self.current_generation as nat
    }

    /// The populations that were recorded, one at the start of each generation.
    pub closed spec fn history(&self) -> Seq<Vec<FitnessIndiv<T>>> {
        self.population_history@
    }

    /// The current population.
    pub closed spec fn population(&self) -> Seq<FitnessIndiv<T>> {
        self.current_population@
    }

    /// The best member that was seen so far, if a run was made.
    pub closed spec fn best(&self) -> Option<FitnessIndiv<T>> {
        self.best_individual
    }

    /// What a run makes of the search `before`, on `generations` generations
    /// that each keep the `selected` fittest members and mutate with the chance
    /// `rate`: the generations are counted, and history, population and best
    /// member are what `progressed` says.
    pub open spec fn ran(
        before: Self,
        after: Self,
        generations: int,
        selected: int,
        rate: Rate,
    ) -> bool {
        &&& after.generation() == before.generation() + generations
        &&& after.best() is Some
        &&& progressed(
            before.history(),
            before.population(),
            before.best(),
            after.history(),
            after.population(),
            after.best()->0,
            generations,
            selected,
            rate,
        )
    }

    /// Returns the number of generations that were run.
    pub fn current_generation(&self) -> (n: usize)
        ensures
            n == self.generation(),
            n == self.history().len(),
    {
        proof {
            use_type_invariant(self);
        }
        self.current_generation
    }

    /// Returns the current population.
    pub fn current_population(&self) -> (population: &Vec<FitnessIndiv<T>>)
        ensures
            population@ == self.population(),
    {
        &self.current_population
    }

    /// Returns the populations that were recorded.
    pub fn population_history(&self) -> (history: &Vec<Vec<FitnessIndiv<T>>>)
        ensures
            history@ == self.history(),
    {
        &self.population_history
    }

    /// Returns the best member that was seen so far.
    pub fn best_individual(&self) -> (best: &Option<FitnessIndiv<T>>)
        ensures
            *best == self.best(),
    {
        &self.best_individual
    }

    /// A search on the scored copies of `initial_population`, or, without one,
    /// on the scored copies of `population_size` candidates that `generate`
    /// made.
    pub fn new(population_size: usize, initial_population: Option<&Vec<T>>) -> (search: Self)
        ensures
            search.generation() == 0,
            search.history().len() == 0,
            search.best() is None,
            search.population().len() == match initial_population {
                Some(given) => given@.len(),
                None => population_size as nat,
            },
            initial_population matches Some(given) ==> forall|i: int|
                0 <= i < given@.len() ==> scored_copy(
                    given@[i],
                    #[trigger] search.population()[i],
                ),
            initial_population is None ==> forall|i: int|
                0 <= i < population_size ==> generated_member(#[trigger] search.population()[i]),
    {
        let mut start_population: Vec<FitnessIndiv<T>> = Vec::new();
        match initial_population {
            Some(given) => {
                let mut i: usize = 0;
                while i < given.len()
                    invariant
                        i <= given.len(),
                        start_population@.len() == i,
                        forall|k: int|
                            0 <= k < i ==> scored_copy(given@[k], #[trigger] start_population@[k]),
                    decreases given.len() - i,
                {
                    start_population.push(FitnessIndiv::new(&given[i]));
                    i += 1;
                }
            },
            None => {
                while start_population.len() < population_size
                    invariant
                        start_population@.len() <= population_size,
                        forall|k: int|
                            0 <= k < start_population@.len() ==> generated_member(
                                #[trigger] start_population@[k],
                            ),
                    decreases population_size - start_population.len(),
                {
                    let ghost before = start_population@;
                    let candidate = T::generate();
                    let member = FitnessIndiv::new(&candidate);
                    assert(generated_member(member)) by {
                        assert(call_ensures(T::generate, (), candidate));
                    }
                    start_population.push(member);
                    assert forall|k: int|
                        0 <= k < start_population@.len() implies generated_member(
                        #[trigger] start_population@[k],
                    ) by {
                        if k < before.len() {
                            assert(start_population@[k] == before[k]);
                        }
                    }
                }
            },
        }
        GenAlg {
            population_history: Vec::new(),
            current_population: start_population,
            current_generation: 0,
            best_individual: None,
        }
    }

    /// Runs `num_of_generations` generations and returns a copy of the best
    /// member that was ever seen. Each generation records the population,
    /// keeps its fittest members, as many as `selection_rate` says, fills it up
    /// with children of those, mutates each member with the chance
    /// `mutation_rate`, unless the generation is the last, and sorts it. A run
    /// with parameters that `config_error` refuses changes nothing.
    pub fn run_genetic_algorithm(
        &mut self,
        num_of_generations: usize,
        selection_rate: Rate,
        mutation_rate: Rate,
        elite_count: usize,
    ) -> (r: Result<FitnessIndiv<T>, ConfigError>)
        ensures
            match config_error(
                old(self).population().len() as int,
                selection_rate,
                mutation_rate,
                elite_count as int,
            ) {
                Some(e) => r == Err::<FitnessIndiv<T>, ConfigError>(e) && *final(self) == *old(self),
                None => {
                    &&& r matches Ok(best)
                    &&& final(self).generation() == old(self).generation() + num_of_generations
                    &&& final(self).history().len() == old(self).history().len()
                        + num_of_generations
                    &&& GenAlg::ran(
                        *old(self),
                        *final(self),
                        num_of_generations as int,
                        selection_rate.share_of(old(self).population().len() as int),
                        mutation_rate,
                    )
                    &&& final(self).best() matches Some(b) && copy_of_member(b, best)
                },
            },
    {
        proof {
            use_type_invariant(&*self);
        }
        let size = self.current_population.len();
        if elite_count > size {
            return Err(ConfigError::EliteCountTooLarge);
        }
        if !mutation_rate.is_valid() {
            return Err(ConfigError::MutationRateOutOfRange);
        }
        if !selection_rate.is_valid() {
            return Err(ConfigError::SelectionRateOutOfRange);
        }
        let selected = selection_rate.of(size);
        if selected < 2 {
            return Err(ConfigError::SelectionTooSmall);
        }
        let mut state = GenAlg {
            population_history: Vec::new(),
            current_population: Vec::new(),
            current_generation: 0,
            best_individual: None,
        };
        core::mem::swap(self, &mut state);
        let GenAlg {
            population_history: mut history,
            current_population: mut population,
            current_generation: _,
            best_individual: previous_best,
        } = state;
        let best = run_generations(
            &mut history,
            &mut population,
            previous_best,
            num_of_generations,
            selected,
            mutation_rate,
        );
        let result = best.clone();
        let generation = history.len();
        *self = GenAlg {
            population_history: history,
            current_population: population,
            current_generation: generation,
            best_individual: Some(best),
        };
        Ok(result)
    }

    /// The sum of the fitness of the current population.
    pub fn get_total_fitness(&self) -> (total: i128)
        ensures
            total == total_fitness(fitness_values(self.population())),
    {
        GenAlg::calc_total_fitness(&self.current_population)
    }

    /// The sum of the fitness of a population.
    pub fn calc_total_fitness(population: &Vec<FitnessIndiv<T>>) -> (total: i128)
        ensures
            total == total_fitness(fitness_values(population@)),
    {
        let ghost values = fitness_values(population@);
        let mut total: i128 = 0;
        let mut i: usize = 0;
        while i < population.len()
            invariant
                i <= population.len(),
                values == fitness_values(population@),
                total == total_fitness(values.take(i as int)),
                -0x8000_0000_0000_0000 * i <= total <= 0x8000_0000_0000_0000 * i,
            decreases population.len() - i,
        {
            assert(values.take(i + 1).drop_last() =~= values.take(i as int));
            total = total + population[i].fitness() as i128;
            i += 1;
        }
        assert(values.take(i as int) =~= values);
        total
    }
}

/// The sum of `values`.
pub open spec fn total_fitness(values: Seq<i64>) -> int
    decreases values.len(),
{
    if values.len() == 0 {
        0
    } else {
        total_fitness(values.drop_last()) + values.last()
    }
}

/// Over two runs in a row the best member never gets less fit: the best after
/// the second run is at least as fit as the best after the first, and as the
/// best before it.
pub proof fn lemma_best_never_decreases<T: Genetic + Clone>(
    first: GenAlg<T>,
    second: GenAlg<T>,
    third: GenAlg<T>,
    generations: int,
    selected: int,
    rate: Rate,
    more_generations: int,
    more_selected: int,
    more_rate: Rate,
)
    requires
        GenAlg::ran(first, second, generations, selected, rate),
        GenAlg::ran(second, third, more_generations, more_selected, more_rate),
    ensures
        second.best() is Some,
        third.best() is Some,
        second.best()->0.spec_fitness() <= third.best()->0.spec_fitness(),
        first.best() matches Some(b) ==> b.spec_fitness() <= third.best()->0.spec_fitness(),
        third.generation() == first.generation() + generations + more_generations,
        third.history().len() == first.history().len() + generations + more_generations,
        third.population().len() == first.population().len(),
{
}

/// The best member after a run is at least as fit as every member of every
/// population that the run recorded.
pub proof fn lemma_best_tops_every_record<T: Genetic + Clone>(
    before: GenAlg<T>,
    after: GenAlg<T>,
    generations: int,
    selected: int,
    rate: Rate,
    k: int,
    i: int,
)
    requires
        GenAlg::ran(before, after, generations, selected, rate),
        before.history().len() <= k < after.history().len(),
        0 <= i < after.history()[k]@.len(),
    ensures
        after.best() matches Some(best) && after.history()[k]@[i].spec_fitness()
            <= best.spec_fitness(),
{
    let record = after.history()[k]@;
    assert(fitness_values(record)[0] >= fitness_values(record)[i]);
}

/// The best member after a run is at least as fit as every member of the
/// population that the run started from.
pub proof fn lemma_best_tops_the_start<T: Genetic + Clone>(
    before: GenAlg<T>,
    after: GenAlg<T>,
    generations: int,
    selected: int,
    rate: Rate,
    i: int,
)
    requires
        GenAlg::ran(before, after, generations, selected, rate),
        generations >= 0,
        0 <= i < before.population().len(),
    ensures
        after.best() matches Some(best) && before.population()[i].spec_fitness()
            <= best.spec_fitness(),
{
    let start = before.history().len() as int;
    let first = fitness_values(
        if generations > 0 {
            after.history()[start]@
        } else {
            after.population()
        },
    );
    let given = fitness_values(before.population());
    let fitness = before.population()[i].spec_fitness();
    given.to_multiset_ensures();
    first.to_multiset_ensures();
    assert(given[i] == fitness);
    assert(given.contains(fitness));
    assert(given.to_multiset().count(fitness) > 0);
    assert(first.to_multiset().count(fitness) > 0);
    assert(first.contains(fitness));
    let at = choose|at: int| 0 <= at < first.len() && first[at] == fitness;
    assert(first[0] >= first[at]);
}

/// A run of one generation records the population that it started from,
/// sorted, and ends with what one generation without mutation made of it.
pub proof fn lemma_one_generation<T: Genetic + Clone>(
    before: GenAlg<T>,
    after: GenAlg<T>,
    selected: int,
    rate: Rate,
)
    requires
        GenAlg::ran(before, after, 1, selected, rate),
    ensures
        exists|sorted: Seq<FitnessIndiv<T>>|
            {
                &&& #[trigger] sorted_from(before.population(), sorted)
                &&& record_of(sorted, after.history().last()@)
                &&& next_generation(sorted, after.population(), selected, rate, true)
            },
{
    let start = before.history().len() as int;
    let records = after.history().skip(start);
    let populations = choose|populations: Seq<Seq<FitnessIndiv<T>>>| #[trigger]
        generations_of(
            before.population(),
            records,
            after.population(),
            populations,
            selected,
            rate,
        );
    assert(records.len() == 1);
    assert(records[0] == after.history().last());
    let sorted = populations[0];
    assert(record_of(populations[0], records[0]@) && next_generation(
        populations[0],
        populations[1],
        selected,
        rate,
        true,
    ));
    assert(sorted_from(before.population(), sorted));
}

/// A run on a population that is sorted, as every run leaves it, records that
/// population first, place by place.
pub proof fn lemma_first_record_is_the_start<T: Genetic + Clone>(
    before: GenAlg<T>,
    after: GenAlg<T>,
    generations: int,
    selected: int,
    rate: Rate,
)
    requires
        GenAlg::ran(before, after, generations, selected, rate),
        generations > 0,
        sorted_descending(fitness_values(before.population())),
    ensures
        record_of(before.population(), after.history()[before.history().len() as int]@),
{
    let start = before.history().len() as int;
    let records = after.history().skip(start);
    let populations = choose|populations: Seq<Seq<FitnessIndiv<T>>>| #[trigger]
        generations_of(
            before.population(),
            records,
            after.population(),
            populations,
            selected,
            rate,
        );
    assert(records[0] == after.history()[start]);
    assert(record_of(populations[0], records[0]@));
}

} // verus!
