//! The pool: species of genomes and the turn of the generations.
use vstd::prelude::*;
use crate::breeder::Breeder;
use crate::quota::quotas;
use crate::species::{Species, SpeciesView, better, improves, mean_of};
use crate::steps::{cleared_views, generation_best, has_id, joined, means, newcomers, survivors, views};

pub use crate::ratios::Ratios;

verus! {

/// What a pool shows of itself: its species without their genomes, the
/// species ids of the candidates that wait to be pulled, the next free
/// species id, the target size, the ratios of the breeding methods, and the
/// running figures: the mean score and the best score of the last
/// generation, the number of generations, the champion's score and the
/// number of generations since the champion last changed.
pub struct PoolView {
    pub species: Seq<SpeciesView>,
    pub waiting: Seq<i32>,
    pub next_id: i32,
    pub size: usize,
    pub ratios: Ratios<i64>,
    pub mean_score: i64,
    pub generations: i32,
    pub last_mean: i64,
    pub last_best: i64,
    pub champion: Option<i64>,
    pub gens_without_improvement: i32,
}

impl PoolView {
    /// The pool's invariant, as far as it shows: there is a species; the
    /// species stand in the order of their ids, which are not negative and
    /// below the next free one; every candidate that waits belongs to a
    /// species that is there.
    pub open spec fn wf(self) -> bool {
        &&& self.species.len() > 0
        &&& forall|i: int| 0 <= i < self.species.len() ==> 0 <= (#[trigger] self.species[i]).id < self.next_id
        &&& forall|i: int, j: int|
            0 <= i < j < self.species.len() ==> (#[trigger] self.species[i]).id < (#[trigger] self.species[j]).id
        &&& forall|k: int| 0 <= k < self.waiting.len() ==> has_id(self.species, #[trigger] self.waiting[k])
    }

    /// The pool after the species `id` took in a score.
    pub open spec fn reported(self, id: i32, score: i64) -> PoolView {
        PoolView {
            species: Seq::new(
                self.species.len(),
                |i: int|
                    if self.species[i].id == id {
                        SpeciesView { scores: self.species[i].scores.push(score), ..self.species[i] }
                    } else {
                        self.species[i]
                    },
            ),
            ..self
        }
    }
}

/// A counter after one more step; it stops at the largest number.
pub open spec fn bumped(count: i32) -> i32 {
    if count < i32::MAX {
        (count + 1) as i32
    } else {
        count
    }
}

/// Whether the turn of a generation can lead from `before` to `after`.
///
/// The species that took in a report stay, settled and without reports, and
/// the others leave; behind them stand the species that were founded, in
/// the order of their new ids. The mean score is the mean of the survivors'
/// means, the best score is the best that was reported, and the champion
/// changes when that score is higher than the champion's. The candidates
/// that wait are as many as the quotas of the survivors make, but no more
/// than the target size.
pub open spec fn turned(before: PoolView, after: PoolView) -> bool {
    let kept = survivors(before.species);
    let best = generation_best(before.species);
    &&& best is Some
    &&& after.size == before.size
    &&& after.ratios == before.ratios
    &&& after.generations == bumped(before.generations)
    &&& after.mean_score == mean_of(means(kept))
    &&& after.last_mean == after.mean_score
    &&& after.last_best == best->0
    &&& after.champion == Some(better(before.champion, best->0))
    &&& after.gens_without_improvement == (if improves(before.champion, best->0) {
        0
    } else {
        bumped(before.gens_without_improvement)
    })
    &&& before.next_id <= after.next_id
    &&& after.species == kept + newcomers(before.next_id, after.next_id)
    &&& after.waiting.len() == (if quotas(kept, after.mean_score, before.size, kept.len() as int)
        < before.size {
        quotas(kept, after.mean_score, before.size, kept.len() as int)
    } else {
        before.size as int
    })
}

/// Where a species took in a report, there is a best score.
pub proof fn lemma_best_exists(species: Seq<SpeciesView>, i: int)
    requires
        0 <= i < species.len(),
        species[i].scores.len() > 0,
    ensures
        generation_best(species) is Some,
    decreases species.len(),
{
    if i > 0 {
        lemma_best_exists(species.drop_first(), i - 1);
    }
}

/// The species that outlive a turn are those that took in a report: each
/// of them is there with its id, settled and without reports, and no other
/// id is.
pub proof fn lemma_survivors(species: Seq<SpeciesView>)
    ensures
        forall|i: int|
            0 <= i < species.len() && (#[trigger] species[i]).scores.len() > 0 ==> survivors(
                species,
            ).contains(species[i].settled().cleared()),
        forall|k: int|
            0 <= k < survivors(species).len() ==> exists|i: int|
                0 <= i < species.len() && (#[trigger] species[i]).scores.len() > 0 && (
                #[trigger] survivors(species)[k]) == species[i].settled().cleared(),
    decreases species.len(),
{
    if species.len() > 0 {
        let tail = species.drop_first();
        lemma_survivors(tail);
        let kept = survivors(species);
        let rest = survivors(tail);
        assert forall|i: int|
            0 <= i < species.len() && (#[trigger] species[i]).scores.len() > 0 implies kept.contains(
            species[i].settled().cleared(),
        ) by {
            if i == 0 {
                assert(kept[0] == species[0].settled().cleared());
            } else {
                assert(tail[i - 1] == species[i]);
                let v = species[i].settled().cleared();
                assert(rest.contains(v));
                let k = choose|k: int| 0 <= k < rest.len() && rest[k] == v;
                if species[0].scores.len() > 0 {
                    assert(kept[k + 1] == v);
                } else {
                    assert(kept[k] == v);
                }
            }
        }
        assert forall|k: int| 0 <= k < kept.len() implies exists|i: int|
            0 <= i < species.len() && (#[trigger] species[i]).scores.len() > 0 && (
            #[trigger] kept[k]) == species[i].settled().cleared() by {
            if species[0].scores.len() > 0 && k == 0 {
                assert(kept[0] == species[0].settled().cleared());
            } else {
                let kk = if species[0].scores.len() > 0 {
                    k - 1
                } else {
                    k
                };
                assert(kept[k] == rest[kk]);
                let i = choose|i: int|
                    0 <= i < tail.len() && (#[trigger] tail[i]).scores.len() > 0 && rest[kk]
                        == tail[i].settled().cleared();
                assert(tail[i] == species[i + 1]);
            }
        }
    }
}

/// Where the species after a turn are the survivors followed by newcomers
/// with new ids, every species that took in a report is there with no empty
/// generation behind it, and every species that took in none is gone.
pub proof fn lemma_turn_species(
    species: Seq<SpeciesView>,
    first: i32,
    next: i32,
    after: Seq<SpeciesView>,
)
    requires
        forall|i: int| 0 <= i < species.len() ==> 0 <= (#[trigger] species[i]).id < first,
        forall|i: int, j: int|
            0 <= i < j < species.len() ==> (#[trigger] species[i]).id < (#[trigger] species[j]).id,
        first <= next,
        after == survivors(species) + newcomers(first, next),
    ensures
        forall|i: int|
            0 <= i < species.len() && (#[trigger] species[i]).scores.len() > 0 ==> exists|k: int|
                0 <= k < after.len() && (#[trigger] after[k]).id == species[i].id && after[k].gens_empty
                    == 0,
        forall|i: int|
            0 <= i < species.len() && (#[trigger] species[i]).scores.len() == 0
                ==> species[i].settled().gens_empty > 0 && !has_id(after, species[i].id),
        forall|k: int| 0 <= k < after.len() ==> (#[trigger] after[k]).gens_empty == 0,
{
    let kept = survivors(species);
    let fresh = newcomers(first, next);
    lemma_survivors(species);
    assert forall|i: int|
        0 <= i < species.len() && (#[trigger] species[i]).scores.len() > 0 implies exists|k: int|
        0 <= k < after.len() && (#[trigger] after[k]).id == species[i].id && after[k].gens_empty
            == 0 by {
        let v = species[i].settled().cleared();
        let k = choose|k: int| 0 <= k < kept.len() && kept[k] == v;
        assert(after[k] == v);
    }
    assert forall|k: int| 0 <= k < after.len() implies (#[trigger] after[k]).gens_empty == 0 && (k
        < kept.len() ==> exists|i: int|
        0 <= i < species.len() && (#[trigger] species[i]).scores.len() > 0 && after[k].id
            == species[i].id) && (k >= kept.len() ==> after[k].id >= first) by {
        if k < kept.len() {
            assert(after[k] == kept[k]);
            let i = choose|i: int|
                0 <= i < species.len() && (#[trigger] species[i]).scores.len() > 0 && kept[k]
                    == species[i].settled().cleared();
            assert(after[k].id == species[i].id);
        } else {
            assert(after[k] == fresh[k - kept.len()]);
        }
    }
    assert forall|i: int|
        0 <= i < species.len() && (#[trigger] species[i]).scores.len() == 0 implies species[i].settled().gens_empty
        > 0 && !has_id(after, species[i].id) by {
        if has_id(after, species[i].id) {
            let k = choose|k: int| 0 <= k < after.len() && (#[trigger] after[k]).id == species[i].id;
            if k < kept.len() {
                let j = choose|j: int|
                    0 <= j < species.len() && (#[trigger] species[j]).scores.len() > 0 && after[k].id
                        == species[j].id;
                if j < i {
                    assert(species[j].id < species[i].id);
                } else if i < j {
                    assert(species[i].id < species[j].id);
                }
                assert(false);
            } else {
                assert(after[k].id >= first);
                assert(species[i].id < first);
                assert(false);
            }
        }
    }
}

/// After the turn of a generation, every species that took in a report is
/// there with no empty generation behind it, and every species that took in
/// none is gone: one empty generation ends a species.
pub proof fn law_empty_species_leave(before: PoolView, after: PoolView)
    requires
        before.wf(),
        turned(before, after),
    ensures
        forall|i: int|
            0 <= i < before.species.len() && (#[trigger] before.species[i]).scores.len() > 0
                ==> exists|k: int|
                0 <= k < after.species.len() && (#[trigger] after.species[k]).id == before.species[i].id
                    && after.species[k].gens_empty == 0,
        forall|i: int|
            0 <= i < before.species.len() && (#[trigger] before.species[i]).scores.len() == 0
                ==> before.species[i].settled().gens_empty > 0 && !has_id(
                after.species,
                before.species[i].id,
            ),
        forall|k: int| 0 <= k < after.species.len() ==> (#[trigger] after.species[k]).gens_empty == 0,
{
    lemma_turn_species(before.species, before.next_id, after.next_id, after.species);
}

/// The species ids of a list of candidates.
pub open spec fn labels<G>(candidates: Seq<(i32, G)>) -> Seq<i32> {
    candidates.map_values(|c: (i32, G)| c.0)
}

/// Main Pool Struct
pub struct Pool<B> where B: Breeder {
    /// Breeder instance
    breeder: B,
    /// The live species, in the order of their ids
    species: Vec<Species<B::Genome>>,
    /// The candidates that wait to be pulled
    pool: Vec<(i32, B::Genome)>,
    /// The next free species id
    next_id: i32,
    /// Size of gene pool
    size: usize,
    /// Ratios of different methods
    ratios: Ratios<i64>,
    /// Stats
    mean_score: i64,
    generations: i32,
    last_mean: i64,
    last_best: i64,
    champion: Option<(i64, B::Genome)>,
    gens_without_improvement: i32,
}

impl<B> View for Pool<B> where B: Breeder {
    type V = PoolView;

    closed spec fn view(&self) -> PoolView {
        PoolView {
            species: views(self.species@),
            waiting: labels(self.pool@),
            next_id: self.next_id,
            size: self.size,
            ratios: self.ratios,
            mean_score: self.mean_score,
            generations: self.generations,
            last_mean: self.last_mean,
            last_best: self.last_best,
            champion: match self.champion {
                Some(pair) => Some(pair.0),
                None => None,
            },
            gens_without_improvement: self.gens_without_improvement,
        }
    }
}

impl<B> Pool<B> where B: Breeder {
    /// The breeder that the pool works with.
    pub closed spec fn the_breeder(&self) -> B {
        self.breeder
    }

    /// The live species with their genomes, in the order of their ids.
    pub closed spec fn living(&self) -> Seq<Species<B::Genome>> {
        self.species@
    }

    /// The best genome so far with its score, if a generation was closed.
    pub closed spec fn the_champion(&self) -> Option<(i64, B::Genome)> {
        self.champion
    }

    /// Whether `after` are the species `before` after the species `id` took
    /// in the score of a genome.
    pub open spec fn took(
        before: Seq<Species<B::Genome>>,
        after: Seq<Species<B::Genome>>,
        id: i32,
        score: i64,
        genome: B::Genome,
    ) -> bool {
        &&& after.len() == before.len()
        &&& forall|i: int|
            0 <= i < before.len() ==> (if before[i].id == id {
                before[i].took_in(#[trigger] after[i], score, genome)
            } else {
                after[i] == before[i]
            })
    }

    /// Whether `champion` is the pool's champion after a generation whose
    /// best score is `best`: a copy of a best report of the settled species
    /// where that score improves on the old champion's, and the old champion
    /// otherwise.
    pub open spec fn crowned(
        before: Option<(i64, B::Genome)>,
        best: Option<i64>,
        settled: Seq<Species<B::Genome>>,
        champion: Option<(i64, B::Genome)>,
    ) -> bool {
        &&& best is Some
        &&& if improves(
            match before {
                Some(pair) => Some(pair.0),
                None => None,
            },
            best->0,
        ) {
            &&& champion matches Some(pair)
            &&& pair.0 == best->0
            &&& exists|i: int|
                0 <= i < settled.len() && (#[trigger] settled[i]).reported@[0].0 == pair.0 && cloned(
                    settled[i].reported@[0].1,
                    pair.1,
                )
        } else {
            champion == before
        }
    }

    /// Whether the turn of a generation can lead from the species `before`
    /// to the species `after` and the candidates that wait, by way of the
    /// species `settled` and their offspring `lists`.
    ///
    /// The species that took in a report are settled; the champion is
    /// crowned; every settled species breeds its offspring from its sorted
    /// reports, by its quota; the candidates are those offspring, in the
    /// order of the species, as far as the target size allows; the settled
    /// species stay without their reports, and behind them stand the species
    /// that were founded, each around a copy of one of the offspring.
    pub open spec fn turns_into(
        breeder: &B,
        before: Seq<Species<B::Genome>>,
        champion_before: Option<(i64, B::Genome)>,
        size: usize,
        ratios: Ratios<i64>,
        settled: Seq<Species<B::Genome>>,
        lists: Seq<Seq<B::Genome>>,
        after: Seq<Species<B::Genome>>,
        candidates: Seq<(i32, B::Genome)>,
        champion: Option<(i64, B::Genome)>,
    ) -> bool {
        &&& Self::settled_from(before, settled)
        &&& Self::crowned(champion_before, generation_best(views(before)), settled, champion)
        &&& Self::raised(breeder, settled, mean_of(means(views(settled))), size, ratios, lists)
        &&& settled.len() <= after.len()
        &&& forall|i: int| 0 <= i < settled.len() ==> (#[trigger] settled[i]).emptied(after[i])
        &&& forall|i: int|
            settled.len() <= i < after.len() ==> Self::copied_from(
                joined(lists),
                (#[trigger] after[i]).model,
            )
        &&& candidates.len() <= joined(lists).len()
        &&& forall|k: int|
            0 <= k < candidates.len() ==> (#[trigger] candidates[k]).1 == joined(lists)[k]
    }

    /// The candidates that wait, each with the id of its species; the last
    /// one is pulled first.
    pub closed spec fn candidates(&self) -> Seq<(i32, B::Genome)> {
        self.pool@
    }

    /// The pool's invariant: the breeder is usable, what shows of the pool
    /// is in order, and every genome that the pool holds fits the breeder.
    pub closed spec fn wf(&self) -> bool {
        &&& self.breeder.wf()
        &&& self@.wf()
        &&& forall|i: int, g: B::Genome|
            0 <= i < self.species@.len() && (#[trigger] self.species@[i]).holds(g)
                ==> #[trigger] self.breeder.fits(&g)
        &&& forall|k: int|
            0 <= k < self.pool@.len() ==> self.breeder.fits(&(#[trigger] self.pool@[k]).1)
    }

    /// What shows of a pool that is in order is in order.
    pub proof fn lemma_wf_shows(&self)
        requires
            self.wf(),
        ensures
            self@.wf(),
            self.the_breeder().wf(),
            self@.waiting == labels(self.candidates()),
            self@.species == views(self.living()),
            self@.champion == (match self.the_champion() {
                Some(pair) => Some(pair.0),
                None => None,
            }),
            forall|k: int|
                0 <= k < self.candidates().len() ==> self.the_breeder().fits(
                    &(#[trigger] self.candidates()[k]).1,
                ),
    {
    }

    /// The ratios of the breeding methods.
    pub fn ratios(&self) -> (ratios: Ratios<i64>)
        ensures
            ratios == self@.ratios,
    {
        self.ratios
    }

    /// Sets the ratios of the breeding methods.
    pub fn set_ratios(&mut self, ratios: Ratios<i64>)
        requires
            old(self).wf(),
        ensures
            final(self).wf(),
            final(self).the_breeder() == old(self).the_breeder(),
            final(self)@ == (PoolView { ratios, ..old(self)@ }),
            final(self).living() == old(self).living(),
            final(self).candidates() == old(self).candidates(),
            final(self).the_champion() == old(self).the_champion(),
    {
        self.ratios = ratios;
    }

    /// The mean score of the last generation.
    pub fn mean_score(&self) -> (mean: i64)
        ensures
            mean == self@.mean_score,
    {
        self.mean_score
    }

    /// The number of generations that were closed.
    pub fn generations(&self) -> (count: i32)
        ensures
            count == self@.generations,
    {
        self.generations
    }

    /// The best score of the last generation.
    pub fn last_best(&self) -> (best: i64)
        ensures
            best == self@.last_best,
    {
        self.last_best
    }

    /// The number of generations since the champion last changed.
    pub fn gens_without_improvement(&self) -> (count: i32)
        ensures
            count == self@.gens_without_improvement,
    {
        self.gens_without_improvement
    }

    /// The best genome so far with its score.
    pub fn champion(&self) -> (champion: &Option<(i64, B::Genome)>)
        ensures
            *champion == self.the_champion(),
            match *champion {
                Some(pair) => self@.champion == Some(pair.0),
                None => self@.champion is None,
            },
    {
        &self.champion
    }

    /// The breeder that the pool works with.
    pub fn breeder(&self) -> (breeder: &B)
        ensures
            *breeder == self.the_breeder(),
    {
        &self.breeder
    }

    /// The target size.
    pub fn size(&self) -> (size: usize)
        ensures
            size == self@.size,
    {
        self.size
    }

    /// The number of live species.
    pub fn species_count(&self) -> (count: usize)
        ensures
            count == self@.species.len(),
    {
        self.species.len()
    }

    /// The number of candidates that wait to be pulled.
    pub fn waiting(&self) -> (count: usize)
        ensures
            count == self@.waiting.len(),
    {
        self.pool.len()
    }

    /// The place of the species with the id among the live species.
    pub fn find_species(&self, species_id: i32) -> (place: Option<usize>)
        ensures
            match place {
                Some(i) => i < self@.species.len() && self@.species[i as int].id == species_id,
                None => !has_id(self@.species, species_id),
            },
    {
        let n: usize = self.species.len();
        let mut i: usize = 0;
        while i < n
            invariant
                0 <= i <= n,
                n == self.species@.len(),
                forall|k: int| 0 <= k < i ==> (#[trigger] self.species@[k]).id != species_id,
            decreases n - i,
        {
            if self.species[i].id == species_id {
                return Some(i);
            }
            i += 1;
        }
        assert forall|k: int| 0 <= k < self@.species.len() implies (#[trigger] self@.species[k]).id
            != species_id by {
            assert(self.species@[k].id != species_id);
        }
        None
    }

    /// Whether the species with the id is live.
    pub fn has_species(&self, species_id: i32) -> (r: bool)
        ensures
            r == has_id(self@.species, species_id),
    {
        self.find_species(species_id).is_some()
    }

    /// New pool with size and breeder: one species, numbered zero, around a
    /// random genome, and `size` random candidates that wait under its id.
    pub fn new(size: usize, breeder: B) -> (pool: Self)
        requires
            breeder.wf(),
        ensures
            pool.wf(),
            pool.the_breeder() == breeder,
            forall|k: int|
                0 <= k < pool.candidates().len() ==> breeder.fresh(&(#[trigger] pool.candidates()[k]).1),
            pool.living().len() == 1,
            breeder.fresh(&pool.living()[0].model),
            pool.the_champion() is None,
            pool@ == (PoolView {
                species: seq![
                    SpeciesView {
                        id: 0,
                        scores: Seq::empty(),
                        gens_empty: 0,
                        last_mean: 0,
                        champion: None,
                    },
                ],
                waiting: Seq::new(size as nat, |k: int| 0i32),
                next_id: 1,
                size,
                ratios: Ratios { top: 50_000, random: 50_000, cross: 450_000, mutate: 450_000 },
                mean_score: 0,
                generations: 0,
                last_mean: -9_999_000_000i64,
                last_best: -9_999_000_000i64,
                champion: None,
                gens_without_improvement: 0,
            }),
    {
        let model = breeder.random();
        let first = Species::new(0, model);
        let mut species: Vec<Species<B::Genome>> = Vec::new();
        species.push(first);
        let mut candidates: Vec<(i32, B::Genome)> = Vec::new();
        let mut k: usize = 0;
        while k < size
            invariant
                0 <= k <= size,
                breeder.wf(),
                candidates@.len() == k,
                forall|j: int|
                    0 <= j < k ==> (#[trigger] candidates@[j]).0 == 0 && breeder.fits(&candidates@[j].1)
                        && breeder.fresh(&candidates@[j].1),
            decreases size - k,
        {
            candidates.push((0, breeder.random()));
            k += 1;
        }
        let pool = Pool {
            size,
            breeder,
            species,
            pool: candidates,
            next_id: 1,
            ratios: Ratios { top: 50_000, random: 50_000, cross: 450_000, mutate: 450_000 },
            mean_score: 0,
            generations: 0,
            last_mean: -9_999_000_000,
            last_best: -9_999_000_000,
            champion: None,
            gens_without_improvement: 0,
        };
        proof {
            assert(pool@.species =~= seq![
                SpeciesView {
                    id: 0,
                    scores: Seq::empty(),
                    gens_empty: 0,
                    last_mean: 0,
                    champion: None,
                },
            ]);
            assert(pool@.waiting =~= Seq::new(size as nat, |k: int| 0i32));
            assert forall|k: int| 0 <= k < pool@.waiting.len() implies has_id(
                pool@.species,
                #[trigger] pool@.waiting[k],
            ) by {
                assert(pool@.species[0].id == 0);
            }
        }
        pool
    }

    /// Pulls the next candidate with the id of its species. Where none
    /// waits, the candidate is a new random genome under the id of the
    /// first live species.
    pub fn next(&mut self) -> (candidate: (i32, B::Genome))
        requires
            old(self).wf(),
        ensures
            final(self).wf(),
            final(self).the_breeder() == old(self).the_breeder(),
            final(self).the_breeder().fits(&candidate.1),
            has_id(final(self)@.species, candidate.0),
            final(self).living() == old(self).living(),
            final(self).the_champion() == old(self).the_champion(),
            old(self)@.waiting.len() > 0 ==> candidate == old(self).candidates().last()
                && final(self).candidates() == old(self).candidates().drop_last()
                && candidate.0 == old(self)@.waiting.last() && final(self)@ == (PoolView {
                waiting: old(self)@.waiting.drop_last(),
                ..old(self)@
            }),
            old(self)@.waiting.len() == 0 ==> candidate.0 == old(self)@.species[0].id
                && final(self).the_breeder().fresh(&candidate.1) && final(self)@ == old(self)@
                && final(self).candidates() == old(self).candidates(),
    {
        match self.pool.pop() {
            Some(candidate) => {
                proof {
                    assert(labels(self.pool@) =~= labels(old(self).pool@).drop_last());
                    assert(old(self)@.waiting.last() == candidate.0);
                    assert(has_id(old(self)@.species, old(self)@.waiting[old(self)@.waiting.len() - 1]));
                    assert forall|k: int| 0 <= k < self@.waiting.len() implies has_id(
                        self@.species,
                        #[trigger] self@.waiting[k],
                    ) by {
                        assert(self@.waiting[k] == old(self)@.waiting[k]);
                    }
                }
                candidate
            },
            None => {
                let id: i32 = self.species[0].id;
                assert(self@.species[0].id == id);
                (id, self.breeder.random())
            },
        }
    }

    /// Closes a generation: settles the species and drops those without a
    /// report, brings the figures up to date, breeds every survivor's
    /// offspring by its quota, finds each child's species, and leaves the
    /// children, cut to the target size, as the candidates that wait.
    pub fn turn(&mut self)
        requires
            old(self).wf(),
            generation_best(old(self)@.species) is Some,
        ensures
            final(self).wf(),
            final(self).the_breeder() == old(self).the_breeder(),
            turned(old(self)@, final(self)@),
            exists|settled: Seq<Species<B::Genome>>, lists: Seq<Seq<B::Genome>>| #[trigger]
                Self::turns_into(
                    &final(self).the_breeder(),
                    old(self).living(),
                    old(self).the_champion(),
                    old(self)@.size,
                    old(self)@.ratios,
                    settled,
                    lists,
                    final(self).living(),
                    final(self).candidates(),
                    final(self).the_champion(),
                ),
            forall|k: int|
                0 <= k < final(self).candidates().len() ==> Self::placed(
                    &final(self).the_breeder(),
                    final(self).living(),
                    final(self)@.next_id,
                    #[trigger] final(self).candidates()[k],
                ),
    {
        let mut unsettled: Vec<Species<B::Genome>> = Vec::new();
        core::mem::swap(&mut self.species, &mut unsettled);
        proof {
            assert(unsettled@ == old(self).species@);
            assert forall|i: int, j: int| 0 <= i < j < unsettled@.len() implies (
            #[trigger] unsettled@[i]).id < (#[trigger] unsettled@[j]).id by {
                assert(old(self)@.species[i].id < old(self)@.species[j].id);
            }
        }
        let (kept, best) = Self::settle_all(&self.breeder, unsettled);
        let (best_score, place) = best.unwrap();
        let ghost settled = kept@;
        let ghost survived = survivors(old(self)@.species);
        proof {
            assert(means(views(kept@)) =~= means(cleared_views(kept@)));
        }
        let global_mean: i64 = Self::mean_of_means(&kept);
        let improved: bool = match &self.champion {
            Some(pair) => best_score > pair.0,
            None => true,
        };
        if improved {
            let genome = kept[place].reported[0].1.clone();
            self.champion = Some((best_score, genome));
            self.gens_without_improvement = 0;
        } else if self.gens_without_improvement < i32::MAX {
            self.gens_without_improvement += 1;
        }
        proof {
            assert(Self::crowned(
                old(self).champion,
                generation_best(views(old(self).species@)),
                settled,
                self.champion,
            )) by {
                if improved {
                    assert(settled[place as int].reported@[0].0 == best_score);
                }
            }
        }
        let pooled = Self::breed_all(&self.breeder, &kept, global_mean, self.size, &self.ratios);
        let ghost lists = choose|lists: Seq<Seq<B::Genome>>| #[trigger]
            Self::raised(&self.breeder, settled, global_mean, self.size, self.ratios, lists)
                && pooled@ == joined(lists);
        let mut cleared = Self::clear_all(&self.breeder, kept);
        let ghost emptied = cleared@;
        let mut next_id: i32 = self.next_id;
        let mut candidates = Self::classify_all(&self.breeder, &mut cleared, &mut next_id, pooled);
        let ghost labelled = candidates@;
        candidates.truncate(self.size);
        self.species = cleared;
        self.pool = candidates;
        self.next_id = next_id;
        self.mean_score = global_mean;
        self.last_mean = global_mean;
        self.last_best = best_score;
        if self.generations < i32::MAX {
            self.generations += 1;
        }
        proof {
            let before = old(self)@;
            let after = self@;
            let fresh = newcomers(before.next_id, after.next_id);
            assert(views(emptied) == survived);
            assert(after.species == survived + fresh);
            assert(turned(before, after));
            Self::lemma_turn_in_order(old(self).species@, settled, emptied, self.species@, before, after);
            assert forall|k: int| 0 <= k < after.waiting.len() implies has_id(
                after.species,
                #[trigger] after.waiting[k],
            ) by {
                assert(after.waiting[k] == self.pool@[k].0);
                assert(self.pool@[k] == labelled[k]);
            }
            assert forall|i: int| 0 <= i < settled.len() implies (#[trigger] settled[i]).emptied(
                self.species@[i],
            ) by {
                assert(self.species@.take(emptied.len() as int)[i] == emptied[i]);
            }
            assert forall|k: int| 0 <= k < self.pool@.len() implies (#[trigger] self.pool@[k]).1
                == joined(lists)[k] by {
                assert(self.pool@[k] == labelled[k]);
            }
            assert(Self::turns_into(
                &self.breeder,
                old(self).species@,
                old(self).champion,
                before.size,
                before.ratios,
                settled,
                lists,
                self.species@,
                self.pool@,
                self.champion,
            ));
            assert(Self::turns_into(
                &self.the_breeder(),
                old(self).living(),
                old(self).the_champion(),
                old(self)@.size,
                old(self)@.ratios,
                settled,
                lists,
                self.living(),
                self.candidates(),
                self.the_champion(),
            ));
        }
    }

    /// After a turn the species stand in the order of their ids, which are
    /// below the next free one: the survivors keep their ids, and the
    /// newcomers have the ids that were free.
    pub proof fn lemma_turn_in_order(
        unsettled: Seq<Species<B::Genome>>,
        settled: Seq<Species<B::Genome>>,
        emptied: Seq<Species<B::Genome>>,
        living: Seq<Species<B::Genome>>,
        before: PoolView,
        after: PoolView,
    )
        requires
            before.wf(),
            before.species == views(unsettled),
            after.species == views(living),
            Self::settled_from(unsettled, settled),
            emptied.len() == settled.len(),
            forall|i: int| 0 <= i < settled.len() ==> (#[trigger] settled[i]).emptied(emptied[i]),
            forall|i: int, j: int|
                0 <= i < j < settled.len() ==> (#[trigger] settled[i]).id < (#[trigger] settled[j]).id,
            before.next_id <= after.next_id,
            after.species == views(emptied) + newcomers(before.next_id, after.next_id),
        ensures
            after.species.len() > 0 || settled.len() == 0,
            forall|i: int|
                0 <= i < after.species.len() ==> 0 <= (#[trigger] after.species[i]).id < after.next_id,
            forall|i: int, j: int|
                0 <= i < j < after.species.len() ==> (#[trigger] after.species[i]).id < (
                #[trigger] after.species[j]).id,
    {
        let fresh = newcomers(before.next_id, after.next_id);
        let n = settled.len() as int;
        assert(views(emptied).len() == n);
        assert(0 <= before.species[0].id < before.next_id);
        assert forall|k: int| 0 <= k < after.species.len() implies 0 <= (#[trigger] after.species[k]).id
            < after.next_id && (k < n ==> after.species[k].id == settled[k].id && after.species[k].id
            < before.next_id) && (k >= n ==> after.species[k].id == before.next_id + k - n) by {
            if k < n {
                assert(after.species[k] == views(emptied)[k]);
                assert(views(emptied)[k] == emptied[k]@);
                assert(settled[k].emptied(emptied[k]));
                let j = choose|j: int| 0 <= j < unsettled.len() && (#[trigger] unsettled[j]).settles(settled[k]);
                assert(unsettled[j].settles(settled[k]));
                assert(before.species[j] == unsettled[j]@);
                assert(0 <= before.species[j].id < before.next_id);
            } else {
                assert(after.species[k] == fresh[k - n]);
            }
        }
        assert forall|a: int, b: int| 0 <= a < b < after.species.len() implies (
        #[trigger] after.species[a]).id < (#[trigger] after.species[b]).id by {
            if b < n {
                assert(settled[a].id < settled[b].id);
            }
        }
    }

    /// Takes in the score of a genome without closing the generation.
    fn take_in(&mut self, species_id: i32, genome: B::Genome, score: i64) -> (place: usize)
        requires
            old(self).wf(),
            has_id(old(self)@.species, species_id),
            old(self).the_breeder().fits(&genome),
        ensures
            final(self).wf(),
            final(self).the_breeder() == old(self).the_breeder(),
            final(self)@ == old(self)@.reported(species_id, score),
            final(self).candidates() == old(self).candidates(),
            final(self).the_champion() == old(self).the_champion(),
            Self::took(old(self).living(), final(self).living(), species_id, score, genome),
            place < final(self)@.species.len(),
            final(self)@.species[place as int].scores.len() > 0,
    {
        let place: usize = self.find_species(species_id).unwrap();
        let ghost before = self.species@;
        let mut target = self.species.remove(place);
        target.report(score, genome);
        let ghost taken = target;
        self.species.insert(place, target);
        proof {
            assert(self.species@ =~= before.update(place as int, taken));
            assert forall|i: int| 0 <= i < before.len() && i != place implies before[i].id
                != species_id by {
                assert(old(self)@.species[i].id == before[i].id);
                if i < place {
                    assert(old(self)@.species[i].id < old(self)@.species[place as int].id);
                } else {
                    assert(old(self)@.species[place as int].id < old(self)@.species[i].id);
                }
            }
            assert(views(self.species@) =~= old(self)@.reported(species_id, score).species);
            assert(self@ == old(self)@.reported(species_id, score));
            assert forall|i: int, g: B::Genome|
                0 <= i < self.species@.len() && (#[trigger] self.species@[i]).holds(g) implies #[trigger] self.breeder.fits(
                &g,
            ) by {
                if i != place {
                    assert(self.species@[i] == before[i]);
                } else {
                    if !(before[i].holds(g)) {
                        assert(g == genome);
                    }
                }
            }
            assert forall|k: int| 0 <= k < self@.waiting.len() implies has_id(
                self@.species,
                #[trigger] self@.waiting[k],
            ) by {
                let i = choose|i: int|
                    0 <= i < old(self)@.species.len() && (#[trigger] old(self)@.species[i]).id
                        == old(self)@.waiting[k];
                assert(self@.species[i].id == old(self)@.species[i].id);
            }
        }
        place
    }

    /// Takes in the score of a genome that was pulled under the id of its
    /// species: the genome is kept with its score as a report of that
    /// species. When no candidate waits any more, the generation is closed
    /// before the call returns. Returns whether it was.
    ///
    /// The id must be that of a live species. The id zero is the id of the
    /// first species, under which the first candidates wait; that species
    /// leaves like any other when a generation brings it no report.
    pub fn report(&mut self, species_id: i32, genome: B::Genome, score: i64) -> (closed: bool)
        requires
            old(self).wf(),
            has_id(old(self)@.species, species_id),
            old(self).the_breeder().fits(&genome),
        ensures
            final(self).wf(),
            final(self).the_breeder() == old(self).the_breeder(),
            closed == (old(self)@.waiting.len() == 0),
            !closed ==> final(self)@ == old(self)@.reported(species_id, score) && final(self).candidates()
                == old(self).candidates() && final(self).the_champion() == old(self).the_champion()
                && Self::took(old(self).living(), final(self).living(), species_id, score, genome),
            closed ==> turned(old(self)@.reported(species_id, score), final(self)@),
            closed ==> exists|
                reported: Seq<Species<B::Genome>>,
                settled: Seq<Species<B::Genome>>,
                lists: Seq<Seq<B::Genome>>,
            |
                Self::took(old(self).living(), reported, species_id, score, genome)
                    && #[trigger] Self::turns_into(
                    &final(self).the_breeder(),
                    reported,
                    old(self).the_champion(),
                    old(self)@.size,
                    old(self)@.ratios,
                    settled,
                    lists,
                    final(self).living(),
                    final(self).candidates(),
                    final(self).the_champion(),
                ),
            closed ==> forall|k: int|
                0 <= k < final(self).candidates().len() ==> Self::placed(
                    &final(self).the_breeder(),
                    final(self).living(),
                    final(self)@.next_id,
                    #[trigger] final(self).candidates()[k],
                ),
    {
        let place: usize = self.take_in(species_id, genome, score);
        if self.pool.len() == 0 {
            proof {
                lemma_best_exists(self@.species, place as int);
            }
            self.turn();
            true
        } else {
            false
        }
    }
}

} // verus!
