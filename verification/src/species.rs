//! A species: genomes that the breeder takes for alike, with their scores.
use vstd::prelude::*;
use crate::fixed::{quotient, sat, tquot};
use crate::utils::random_between;

verus! {

broadcast use {
    vstd::multiset::group_multiset_axioms,
    vstd::seq_lib::group_to_multiset_ensures,
};

/// The sum of the scores.
pub open spec fn total(scores: Seq<i64>) -> int
    decreases scores.len(),
{
    if scores.len() == 0 {
        0
    } else {
        total(scores.drop_last()) + scores.last()
    }
}

/// The mean of the scores, rounded towards zero.
pub open spec fn mean_of(scores: Seq<i64>) -> i64
    recommends
        scores.len() > 0,
{
    sat(tquot(total(scores), scores.len() as int))
}

/// The highest of the scores.
pub open spec fn best_of(scores: Seq<i64>) -> i64
    recommends
        scores.len() > 0,
    decreases scores.len(),
{
    if scores.len() <= 1 {
        scores[0]
    } else {
        let rest = best_of(scores.drop_last());
        if scores.last() > rest {
            scores.last()
        } else {
            rest
        }
    }
}

/// Whether no score is followed by a higher one.
pub open spec fn descending(scores: Seq<i64>) -> bool {
    forall|i: int, j: int| 0 <= i < j < scores.len() ==> scores[i] >= scores[j]
}

/// The scores of a list of reports.
pub open spec fn scores_of<G>(reports: Seq<(i64, G)>) -> Seq<i64> {
    reports.map_values(|report: (i64, G)| report.0)
}

/// The better of a champion's score and a new best score: the champion's,
/// unless the new one is higher.
pub open spec fn better(champion: Option<i64>, best: i64) -> i64 {
    match champion {
        Some(score) => if best > score {
            best
        } else {
            score
        },
        None => best,
    }
}

/// Whether a score improves on a champion's: it is higher, or there is no
/// champion yet.
pub open spec fn improves(champion: Option<i64>, best: i64) -> bool {
    match champion {
        Some(score) => best > score,
        None => true,
    }
}

/// What a species shows of itself: everything but the genomes.
pub struct SpeciesView {
    pub id: i32,
    pub scores: Seq<i64>,
    pub gens_empty: nat,
    pub last_mean: i64,
    pub champion: Option<i64>,
}

impl SpeciesView {
    /// The species after the scores of a generation were taken in: with
    /// reports, it has their mean, the better champion and no empty
    /// generation behind it; without, one more empty generation.
    pub open spec fn settled(self) -> SpeciesView {
        if self.scores.len() == 0 {
            SpeciesView {
                gens_empty: if self.gens_empty < u32::MAX {
                    self.gens_empty + 1
                } else {
                    self.gens_empty
                },
                ..self
            }
        } else {
            SpeciesView {
                id: self.id,
                scores: self.scores,
                gens_empty: 0,
                last_mean: mean_of(self.scores),
                champion: Some(better(self.champion, best_of(self.scores))),
            }
        }
    }

    /// The species with no reports.
    pub open spec fn cleared(self) -> SpeciesView {
        SpeciesView { scores: Seq::empty(), ..self }
    }
}

/// A cluster of compatible genomes: its representative `model`, its
/// `champion`, the reports of the running generation, the number of
/// generations in a row that brought no report, and the mean score of the
/// last generation that brought one.
pub struct Species<G> {
    pub id: i32,
    pub model: G,
    pub champion: Option<(i64, G)>,
    pub reported: Vec<(i64, G)>,
    pub gens_empty: u32,
    pub last_mean: i64,
}

impl<G> View for Species<G> {
    type V = SpeciesView;

    open spec fn view(&self) -> SpeciesView {
        SpeciesView {
            id: self.id,
            scores: scores_of(self.reported@),
            gens_empty: self.gens_empty as nat,
            last_mean: self.last_mean,
            champion: match self.champion {
                Some(pair) => Some(pair.0),
                None => None,
            },
        }
    }
}

/// Sorts the reports by score, the highest first.
pub fn sort_descending<G>(reports: &mut Vec<(i64, G)>)
    ensures
        descending(scores_of(final(reports)@)),
        final(reports)@.to_multiset() == old(reports)@.to_multiset(),
        scores_of(final(reports)@).to_multiset() == scores_of(old(reports)@).to_multiset(),
{
    let mut rest: Vec<(i64, G)> = Vec::new();
    core::mem::swap(reports, &mut rest);
    assert(reports@ =~= Seq::<(i64, G)>::empty());
    assert(scores_of(reports@) =~= Seq::<i64>::empty());
    while rest.len() > 0
        invariant
            descending(scores_of(reports@)),
            reports@.to_multiset().add(rest@.to_multiset()) == old(reports)@.to_multiset(),
            scores_of(reports@).to_multiset().add(scores_of(rest@).to_multiset()) == scores_of(
                old(reports)@,
            ).to_multiset(),
        decreases rest.len(),
    {
        let ghost before = rest@;
        let ghost sorted = reports@;
        let item = rest.pop().unwrap();
        let n: usize = reports.len();
        let mut p: usize = 0;
        while p < n && reports[p].0 > item.0
            invariant
                0 <= p <= n,
                n == reports@.len(),
                reports@ == sorted,
                forall|k: int| 0 <= k < p ==> scores_of(reports@)[k] > item.0,
            decreases n - p,
        {
            p += 1;
        }
        let ghost key = item.0;
        reports.insert(p, item);
        proof {
            assert(before =~= rest@.push(item));
            assert(scores_of(before) =~= scores_of(rest@).push(key));
            assert(scores_of(reports@) =~= scores_of(sorted).insert(p as int, key));
            let s = scores_of(sorted);
            let t = scores_of(reports@);
            assert forall|i: int, j: int| 0 <= i < j < t.len() implies t[i] >= t[j] by {
                if j < p {
                    assert(s[i] >= s[j]);
                } else if j == p {
                    assert(s[i] > key);
                } else if i < p {
                    assert(s[i] >= s[j - 1]);
                } else if i == p {
                    assert(s[p as int] <= key);
                    if j - 1 > p {
                        assert(s[p as int] >= s[j - 1]);
                    }
                } else {
                    assert(s[i - 1] >= s[j - 1]);
                }
            }
            assert(reports@.to_multiset().add(rest@.to_multiset()) =~= sorted.to_multiset().add(
                before.to_multiset(),
            ));
            assert(t.to_multiset().add(scores_of(rest@).to_multiset()) =~= s.to_multiset().add(
                scores_of(before).to_multiset(),
            ));
        }
    }
    proof {
        assert(rest@ =~= Seq::<(i64, G)>::empty());
        assert(scores_of(rest@) =~= Seq::<i64>::empty());
        assert(reports@.to_multiset().add(rest@.to_multiset()) =~= reports@.to_multiset());
        assert(scores_of(reports@).to_multiset().add(scores_of(rest@).to_multiset()) =~= scores_of(
            reports@,
        ).to_multiset());
    }
}

/// The mean of the reports' scores.
pub fn mean_score<G>(reports: &Vec<(i64, G)>) -> (mean: i64)
    requires
        reports@.len() > 0,
    ensures
        mean == mean_of(scores_of(reports@)),
{
    let n: usize = reports.len();
    let mut sum: i128 = 0;
    let mut i: usize = 0;
    while i < n
        invariant
            0 <= i <= n,
            n == reports@.len(),
            sum == total(scores_of(reports@).take(i as int)),
            -0x8000_0000_0000_0000 * i <= sum <= 0x8000_0000_0000_0000 * i,
        decreases n - i,
    {
        proof {
            let s = scores_of(reports@);
            assert(s.take(i + 1).drop_last() =~= s.take(i as int));
        }
        sum = sum + reports[i].0 as i128;
        i += 1;
    }
    proof {
        let s = scores_of(reports@);
        assert(s.take(n as int) =~= s);
    }
    quotient(sum, n as i128)
}

/// The place of the first report with the highest score.
pub fn best_index<G>(reports: &Vec<(i64, G)>) -> (best: usize)
    requires
        reports@.len() > 0,
    ensures
        best < reports@.len(),
        reports@[best as int].0 == best_of(scores_of(reports@)),
{
    let n: usize = reports.len();
    let mut best: usize = 0;
    let mut i: usize = 1;
    proof {
        let s = scores_of(reports@);
        assert(s.take(1).len() == 1);
    }
    while i < n
        invariant
            1 <= i <= n,
            n == reports@.len(),
            best < i,
            reports@[best as int].0 == best_of(scores_of(reports@).take(i as int)),
        decreases n - i,
    {
        proof {
            let s = scores_of(reports@);
            assert(s.take(i + 1).drop_last() =~= s.take(i as int));
        }
        if reports[i].0 > reports[best].0 {
            best = i;
        }
        i += 1;
    }
    proof {
        let s = scores_of(reports@);
        assert(s.take(n as int) =~= s);
    }
    best
}

impl<G: Clone> Species<G> {
    /// Whether the species holds `genome`: as its model, as its champion or
    /// in a report.
    pub open spec fn holds(&self, genome: G) -> bool {
        ||| self.model == genome
        ||| (self.champion matches Some(pair) && pair.1 == genome)
        ||| exists|i: int| 0 <= i < self.reported@.len() && (#[trigger] self.reported@[i]).1 == genome
    }

    /// Whether `after` is this species after it took in the score of a
    /// genome: the report stands behind the others, and nothing else changed.
    pub open spec fn took_in(self, after: Species<G>, score: i64, genome: G) -> bool {
        &&& after.id == self.id
        &&& after.model == self.model
        &&& after.champion == self.champion
        &&& after.gens_empty == self.gens_empty
        &&& after.last_mean == self.last_mean
        &&& after.reported@ == self.reported@.push((score, genome))
    }

    /// Whether `after` is this species, which took in reports, after it
    /// settled them: it holds the same reports, the best first; its mean is
    /// theirs; its model is a copy of one of the reported genomes; and its
    /// champion is a copy of the best report where that improves on the old
    /// champion, and the old champion otherwise.
    pub open spec fn settles(self, after: Species<G>) -> bool {
        let best = best_of(scores_of(self.reported@));
        &&& self.reported@.len() > 0
        &&& after.id == self.id
        &&& after.gens_empty == 0
        &&& after.last_mean == mean_of(scores_of(self.reported@))
        &&& after.reported@.to_multiset() == self.reported@.to_multiset()
        &&& after.reported@.len() == self.reported@.len()
        &&& descending(scores_of(after.reported@))
        &&& after.reported@[0].0 == best
        &&& exists|i: int|
            0 <= i < after.reported@.len() && cloned((#[trigger] after.reported@[i]).1, after.model)
        &&& if improves(self@.champion, best) {
            after.champion matches Some(pair) && pair.0 == best && cloned(
                after.reported@[0].1,
                pair.1,
            )
        } else {
            after.champion == self.champion
        }
    }

    /// Whether `after` is this species without its reports.
    pub open spec fn emptied(self, after: Species<G>) -> bool {
        &&& after.id == self.id
        &&& after.model == self.model
        &&& after.champion == self.champion
        &&& after.gens_empty == self.gens_empty
        &&& after.last_mean == self.last_mean
        &&& after.reported@.len() == 0
    }

    /// A species around its first genome.
    pub fn new(id: i32, model: G) -> (species: Self)
        ensures
            species@ == (SpeciesView {
                id,
                scores: Seq::empty(),
                gens_empty: 0,
                last_mean: 0,
                champion: None,
            }),
            species.model == model,
            species.champion is None,
            species.reported@.len() == 0,
    {
        let species = Species {
            id,
            model,
            champion: None,
            reported: Vec::new(),
            gens_empty: 0,
            last_mean: 0,
        };
        assert(species@.scores =~= Seq::<i64>::empty());
        species
    }

    /// Takes in the score of one genome.
    pub fn report(&mut self, score: i64, genome: G)
        ensures
            final(self)@ == (SpeciesView { scores: old(self)@.scores.push(score), ..old(self)@ }),
            old(self).took_in(*final(self), score, genome),
    {
        self.reported.push((score, genome));
        assert(scores_of(self.reported@) =~= scores_of(old(self).reported@).push(score));
    }

    /// Closes a generation. A species with reports sorts them, the best
    /// first, takes their mean, keeps the better of its champion and the
    /// best report, and takes a random one of the reported genomes for its
    /// new model. A species without reports counts one more empty generation.
    pub fn settle(&mut self)
        ensures
            final(self)@.id == old(self)@.settled().id,
            final(self)@.gens_empty == old(self)@.settled().gens_empty,
            final(self)@.last_mean == old(self)@.settled().last_mean,
            final(self)@.champion == old(self)@.settled().champion,
            descending(final(self)@.scores),
            final(self)@.scores.to_multiset() == old(self)@.scores.to_multiset(),
            final(self).reported@.to_multiset() == old(self).reported@.to_multiset(),
            final(self)@.scores.len() == old(self)@.scores.len(),
            old(self)@.scores.len() > 0 ==> old(self).settles(*final(self)),
            old(self)@.scores.len() == 0 ==> final(self).model == old(self).model
                && final(self).champion == old(self).champion && final(self).reported@ == old(self).reported@,
            forall|g: G|
                final(self).holds(g) ==> old(self).holds(g) || exists|h: G| #[trigger]
                    old(self).holds(h) && cloned(h, g),
    {
        if self.reported.len() == 0 {
            if self.gens_empty < u32::MAX {
                self.gens_empty += 1;
            }
            return ;
        }
        let mean: i64 = mean_score(&self.reported);
        sort_descending(&mut self.reported);
        proof {
            lemma_top_is_best(scores_of(old(self).reported@), scores_of(self.reported@));
            assert(self.reported@.len() == self.reported@.to_multiset().len());
            assert(old(self).reported@.len() == old(self).reported@.to_multiset().len());
        }
        let top_score: i64 = self.reported[0].0;
        let improved: bool = match &self.champion {
            Some(pair) => top_score > pair.0,
            None => true,
        };
        if improved {
            let genome = self.reported[0].1.clone();
            self.champion = Some((top_score, genome));
        }
        let pick: usize = random_between(0, self.reported.len() - 1);
        self.model = self.reported[pick].1.clone();
        self.gens_empty = 0;
        self.last_mean = mean;
        proof {
            assert(cloned(self.reported@[pick as int].1, self.model));
            assert forall|g: G| self.holds(g) implies old(self).holds(g) || exists|h: G| #[trigger]
                old(self).holds(h) && cloned(h, g) by {
                lemma_same_reports(old(self).reported@, self.reported@);
                if self.model == g {
                    let h = self.reported@[pick as int].1;
                    assert(old(self).reported@.contains(self.reported@[pick as int]));
                    assert(old(self).holds(h) && cloned(h, g));
                } else if self.champion matches Some(pair) && pair.1 == g {
                    if improved {
                        let h = self.reported@[0].1;
                        assert(old(self).reported@.contains(self.reported@[0]));
                        assert(old(self).holds(h) && cloned(h, g));
                    }
                } else {
                    let i = choose|i: int|
                        0 <= i < self.reported@.len() && (#[trigger] self.reported@[i]).1 == g;
                    assert(old(self).reported@.contains(self.reported@[i]));
                }
            }
        }
    }

    /// Forgets the reports of the generation that was closed.
    pub fn clear(&mut self)
        ensures
            final(self)@ == old(self)@.cleared(),
            old(self).emptied(*final(self)),
    {
        self.reported.clear();
        assert(scores_of(self.reported@) =~= Seq::<i64>::empty());
    }
}

/// Lists with the same reports hold the same genomes.
pub proof fn lemma_same_reports<G>(a: Seq<(i64, G)>, b: Seq<(i64, G)>)
    requires
        a.to_multiset() == b.to_multiset(),
    ensures
        forall|i: int| 0 <= i < b.len() ==> a.contains(#[trigger] b[i]),
{
    assert forall|i: int| 0 <= i < b.len() implies a.contains(#[trigger] b[i]) by {
        assert(b.to_multiset().count(b[i]) > 0);
        assert(a.to_multiset().count(b[i]) > 0);
    }
}

/// The first of the scores in descending order is the best of them in any
/// order.
pub proof fn lemma_top_is_best(scores: Seq<i64>, sorted: Seq<i64>)
    requires
        scores.len() > 0,
        descending(sorted),
        sorted.to_multiset() == scores.to_multiset(),
    ensures
        sorted.len() == scores.len(),
        sorted[0] == best_of(scores),
{
    assert(sorted.len() == sorted.to_multiset().len());
    assert(scores.len() == scores.to_multiset().len());
    lemma_best_is_bound(scores);
    let b = best_of(scores);
    assert(scores.to_multiset().count(b) > 0);
    assert(sorted.contains(b));
    let k = choose|k: int| 0 <= k < sorted.len() && sorted[k] == b;
    assert(sorted[0] >= sorted[k]);
    assert(sorted.to_multiset().count(sorted[0]) > 0);
    assert(scores.contains(sorted[0]));
}

/// The best score occurs among the scores, and none is higher.
pub proof fn lemma_best_is_bound(scores: Seq<i64>)
    requires
        scores.len() > 0,
    ensures
        scores.contains(best_of(scores)),
        forall|i: int| 0 <= i < scores.len() ==> scores[i] <= best_of(scores),
    decreases scores.len(),
{
    if scores.len() > 1 {
        let rest = scores.drop_last();
        lemma_best_is_bound(rest);
        let k = choose|k: int| 0 <= k < rest.len() && rest[k] == best_of(rest);
        assert(scores[k] == best_of(rest));
        assert(scores[scores.len() - 1] == scores.last());
        assert forall|i: int| 0 <= i < scores.len() implies scores[i] <= best_of(scores) by {
            if i < scores.len() - 1 {
                assert(rest[i] == scores[i]);
            }
        }
    } else {
        assert(scores[0] == best_of(scores));
    }
}

} // verus!
