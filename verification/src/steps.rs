//! The steps of the turn of a generation.
use vstd::prelude::*;
use crate::breeder::Breeder;
use crate::fixed::quotient;
use crate::pool::Pool;
use crate::quota::{quota, quota_of, quotas};
use crate::ratios::{Ratios, shares};
use crate::species::{Species, SpeciesView, best_of, mean_of, total};
use crate::utils::{random, random_between};

verus! {

/// Whether one of the species has the id.
pub open spec fn has_id(species: Seq<SpeciesView>, id: i32) -> bool {
    exists|i: int| 0 <= i < species.len() && (#[trigger] species[i]).id == id
}

/// The views of a list of species.
pub open spec fn views<G>(species: Seq<Species<G>>) -> Seq<SpeciesView> {
    species.map_values(|s: Species<G>| s@)
}

/// The views of a list of species, each without its reports.
pub open spec fn cleared_views<G>(species: Seq<Species<G>>) -> Seq<SpeciesView> {
    species.map_values(|s: Species<G>| s@.cleared())
}

/// The species that outlive the turn of a generation, as they stand after
/// it: those with at least one report, each settled and without reports.
pub open spec fn survivors(species: Seq<SpeciesView>) -> Seq<SpeciesView>
    decreases species.len(),
{
    if species.len() == 0 {
        Seq::empty()
    } else {
        let rest = survivors(species.drop_first());
        if species[0].scores.len() > 0 {
            seq![species[0].settled().cleared()] + rest
        } else {
            rest
        }
    }
}

/// The higher of two scores, either of which may be missing.
pub open spec fn higher(a: Option<i64>, b: Option<i64>) -> Option<i64> {
    match (a, b) {
        (Some(x), Some(y)) => Some(if x >= y {
            x
        } else {
            y
        }),
        (Some(x), None) => Some(x),
        (None, y) => y,
    }
}

/// The best score that any species took in, if there is one.
pub open spec fn generation_best(species: Seq<SpeciesView>) -> Option<i64>
    decreases species.len(),
{
    if species.len() == 0 {
        None
    } else {
        higher(
            if species[0].scores.len() > 0 {
                Some(best_of(species[0].scores))
            } else {
                None
            },
            generation_best(species.drop_first()),
        )
    }
}

/// The mean scores of a list of species.
pub open spec fn means(species: Seq<SpeciesView>) -> Seq<i64> {
    species.map_values(|s: SpeciesView| s.last_mean)
}

/// A species that was just founded.
pub open spec fn newcomer(id: i32) -> SpeciesView {
    SpeciesView { id, scores: Seq::empty(), gens_empty: 0, last_mean: 0, champion: None }
}

/// The newly founded species with the ids from `first` up to, not
/// including, `next`.
pub open spec fn newcomers(first: i32, next: i32) -> Seq<SpeciesView> {
    Seq::new((next - first) as nat, |j: int| newcomer((first + j) as i32))
}

/// The newcomers of two stretches of ids that follow each other are those of
/// the whole stretch.
pub proof fn lemma_newcomers_join(a: i32, b: i32, c: i32)
    requires
        a <= b <= c,
    ensures
        newcomers(a, b) + newcomers(b, c) == newcomers(a, c),
{
    assert(newcomers(a, b) + newcomers(b, c) =~= newcomers(a, c));
}

/// The chance that a crossing takes its second parent from another species.
pub const MIGRATION_CHANCE: i64 = 10_000;

/// The number of reports that the species from `from` on hold.
pub open spec fn reports_from<G>(species: Seq<Species<G>>, from: int) -> int
    decreases species.len() - from,
{
    if from < 0 || from >= species.len() {
        0
    } else {
        species[from].reported@.len() + reports_from(species, from + 1)
    }
}

/// The number of its best reports that a species breeds from: as many as
/// it copies, but at least one and no more than there are.
pub open spec fn elite_of(top: usize, reports: nat) -> nat {
    if top < 1 {
        1
    } else if top > reports {
        reports
    } else {
        top as nat
    }
}

/// The list in the opposite order.
pub fn reversed<T>(list: Vec<T>) -> (r: Vec<T>)
    ensures
        r@ == list@.reverse(),
{
    let mut rest = list;
    let mut r: Vec<T> = Vec::new();
    while rest.len() > 0
        invariant
            rest@.len() + r@.len() == list@.len(),
            rest@ == list@.take(rest@.len() as int),
            forall|k: int| 0 <= k < r@.len() ==> r@[k] == list@[list@.len() - 1 - k],
        decreases rest.len(),
    {
        let item = rest.pop().unwrap();
        r.push(item);
        proof {
            assert(rest@ =~= list@.take(rest@.len() as int));
        }
    }
    proof {
        assert(r@ =~= list@.reverse());
    }
    r
}

impl<B> Pool<B> where B: Breeder {
    /// Whether every genome that the species hold fits the breeder.
    pub open spec fn all_fit(breeder: &B, species: Seq<Species<B::Genome>>) -> bool {
        forall|i: int, g: B::Genome|
            0 <= i < species.len() && (#[trigger] species[i]).holds(g) ==> #[trigger] breeder.fits(
                &g,
            )
    }

    /// Whether every species of `settled` is a species of `before` that took
    /// in reports, after it settled them.
    pub open spec fn settled_from(
        before: Seq<Species<B::Genome>>,
        settled: Seq<Species<B::Genome>>,
    ) -> bool {
        forall|i: int|
            #![trigger settled[i]]
            0 <= i < settled.len() ==> exists|j: int|
                0 <= j < before.len() && (#[trigger] before[j]).settles(settled[i])
    }

    /// Settles every species and keeps those that took in a report. Returns
    /// them, in their order and with their reports sorted, and the best score
    /// that was reported with the place of the species that holds it.
    pub fn settle_all(breeder: &B, species: Vec<Species<B::Genome>>) -> (r: (
        Vec<Species<B::Genome>>,
        Option<(i64, usize)>,
    ))
        requires
            Self::all_fit(breeder, species@),
            forall|i: int, j: int|
                0 <= i < j < species@.len() ==> (#[trigger] species@[i]).id < (#[trigger] species@[j]).id,
        ensures
            cleared_views(r.0@) == survivors(views(species@)),
            Self::all_fit(breeder, r.0@),
            forall|i: int| 0 <= i < r.0@.len() ==> (#[trigger] r.0@[i]).reported@.len() > 0,
            forall|i: int|
                0 <= i < r.0@.len() ==> exists|j: int|
                    0 <= j < species@.len() && (#[trigger] species@[j]).id == (#[trigger] r.0@[i]).id,
            Self::settled_from(species@, r.0@),
            forall|i: int, j: int|
                0 <= i < j < r.0@.len() ==> (#[trigger] r.0@[i]).id < (#[trigger] r.0@[j]).id,
            match r.1 {
                Some((best, place)) => generation_best(views(species@)) == Some(best) && place
                    < r.0@.len() && r.0@[place as int].reported@[0].0 == best,
                None => generation_best(views(species@)) is None && r.0@.len() == 0,
            },
    {
        let mut rest = species;
        let mut kept: Vec<Species<B::Genome>> = Vec::new();
        let mut best: Option<(i64, usize)> = None;
        proof {
            assert(cleared_views(kept@) =~= Seq::<SpeciesView>::empty());
        }
        while rest.len() > 0
            invariant
                Self::all_fit(breeder, rest@),
                Self::all_fit(breeder, kept@),
                cleared_views(kept@) + survivors(views(rest@)) == survivors(views(species@)),
                forall|i: int| 0 <= i < kept@.len() ==> (#[trigger] kept@[i]).reported@.len() > 0,
                forall|i: int|
                    0 <= i < kept@.len() ==> exists|j: int|
                        0 <= j < species@.len() && (#[trigger] species@[j]).id == (#[trigger] kept@[i]).id,
                forall|i: int|
                    0 <= i < rest@.len() ==> exists|j: int|
                        0 <= j < species@.len() && (#[trigger] species@[j]).id == (#[trigger] rest@[i]).id,
                forall|i: int|
                    #![trigger kept@[i]]
                    0 <= i < kept@.len() ==> exists|j: int|
                        0 <= j < species@.len() && (#[trigger] species@[j]).settles(kept@[i]),
                rest@.len() <= species@.len(),
                forall|k: int|
                    0 <= k < rest@.len() ==> (#[trigger] rest@[k]) == species@[species@.len() - rest@.len()
                        + k],
                forall|i: int, j: int|
                    0 <= i < j < kept@.len() ==> (#[trigger] kept@[i]).id < (#[trigger] kept@[j]).id,
                forall|i: int, j: int|
                    0 <= i < j < rest@.len() ==> (#[trigger] rest@[i]).id < (#[trigger] rest@[j]).id,
                forall|i: int, j: int|
                    0 <= i < kept@.len() && 0 <= j < rest@.len() ==> (#[trigger] kept@[i]).id < (
                    #[trigger] rest@[j]).id,
                higher(
                    match best {
                        Some(pair) => Some(pair.0),
                        None => None,
                    },
                    generation_best(views(rest@)),
                ) == generation_best(views(species@)),
                match best {
                    Some((score, place)) => place < kept@.len() && kept@[place as int].reported@[0].0
                        == score,
                    None => kept@.len() == 0,
                },
            decreases rest.len(),
        {
            let ghost before = rest@;
            let ghost held = kept@;
            let mut s = rest.remove(0);
            let ghost unsettled = s;
            proof {
                assert(unsettled == before[0]);
                assert(rest@ =~= before.drop_first());
                assert(views(rest@) =~= views(before).drop_first());
                assert(views(before)[0] == unsettled@);
            }
            s.settle();
            proof {
                assert forall|g: B::Genome| s.holds(g) implies breeder.fits(&g) by {
                    assert(before[0].holds(g) ==> breeder.fits(&g));
                    if !unsettled.holds(g) {
                        let h = choose|h: B::Genome| #[trigger] unsettled.holds(h) && cloned(h, g);
                        assert(before[0].holds(h));
                        breeder.fits_cloned(h, g);
                    }
                }
            }
            if s.gens_empty == 0 && s.reported.len() > 0 {
                let top: i64 = s.reported[0].0;
                let place: usize = kept.len();
                let replace: bool = match best {
                    Some(pair) => top > pair.0,
                    None => true,
                };
                if replace {
                    best = Some((top, place));
                }
                let ghost settled = s;
                kept.push(s);
                proof {
                    let place = species@.len() - before.len();
                    assert(species@[place] == before[0]);
                    assert(species@[place].settles(settled));
                    assert forall|i: int| #![trigger kept@[i]] 0 <= i < kept@.len() implies exists|j: int|
                        0 <= j < species@.len() && (#[trigger] species@[j]).settles(kept@[i]) by {
                        if i < held.len() {
                            assert(kept@[i] == held[i]);
                        } else {
                            assert(kept@[i] == settled);
                        }
                    }
                    assert(cleared_views(kept@) =~= cleared_views(held) + seq![settled@.cleared()]);
                    assert(settled@.cleared() == unsettled@.settled().cleared());
                    assert(cleared_views(kept@) + survivors(views(rest@)) =~= cleared_views(held) + (
                    seq![settled@.cleared()] + survivors(views(rest@))));
                    assert forall|i: int, g: B::Genome|
                        0 <= i < kept@.len() && (#[trigger] kept@[i]).holds(g) implies #[trigger] breeder.fits(
                        &g,
                    ) by {
                        if i < held.len() {
                            assert(kept@[i] == held[i]);
                        }
                    }
                    assert forall|i: int| 0 <= i < kept@.len() implies exists|j: int|
                        0 <= j < species@.len() && (#[trigger] species@[j]).id == (#[trigger] kept@[i]).id by {
                        if i < held.len() {
                            assert(kept@[i] == held[i]);
                        } else {
                            assert(kept@[i].id == before[0].id);
                        }
                    }
                    assert forall|i: int, j: int|
                        0 <= i < kept@.len() && 0 <= j < rest@.len() implies (#[trigger] kept@[i]).id < (
                    #[trigger] rest@[j]).id by {
                        assert(rest@[j] == before[j + 1]);
                        if i < held.len() {
                            assert(kept@[i] == held[i]);
                        } else {
                            assert(before[0].id < before[j + 1].id);
                        }
                    }
                    assert forall|i: int, j: int| 0 <= i < j < kept@.len() implies (#[trigger] kept@[i]).id < (
                    #[trigger] kept@[j]).id by {
                        if j < held.len() {
                            assert(kept@[i] == held[i] && kept@[j] == held[j]);
                        } else {
                            assert(kept@[i] == held[i]);
                            assert(held[i].id < before[0].id);
                        }
                    }
                }
            } else {
                proof {
                    assert(unsettled@.scores.len() == 0);
                    assert forall|i: int, j: int|
                        0 <= i < kept@.len() && 0 <= j < rest@.len() implies (#[trigger] kept@[i]).id < (
                    #[trigger] rest@[j]).id by {
                        assert(rest@[j] == before[j + 1]);
                    }
                }
            }
            proof {
                assert forall|i: int| 0 <= i < rest@.len() implies exists|j: int|
                    0 <= j < species@.len() && (#[trigger] species@[j]).id == (#[trigger] rest@[i]).id by {
                    assert(rest@[i] == before[i + 1]);
                }
                assert forall|i: int, j: int| 0 <= i < j < rest@.len() implies (#[trigger] rest@[i]).id < (
                #[trigger] rest@[j]).id by {
                    assert(rest@[i] == before[i + 1] && rest@[j] == before[j + 1]);
                }
                assert forall|i: int, g: B::Genome|
                    0 <= i < rest@.len() && (#[trigger] rest@[i]).holds(g) implies #[trigger] breeder.fits(
                    &g,
                ) by {
                    assert(rest@[i] == before[i + 1]);
                }
            }
        }
        proof {
            assert(views(rest@) =~= Seq::<SpeciesView>::empty());
            assert(cleared_views(kept@) + survivors(views(rest@)) =~= cleared_views(kept@));
        }
        (kept, best)
    }

    /// Picks one report among all that the species hold, each with the same
    /// chance: the place of its species and its place among that species'
    /// reports.
    pub fn any_report(species: &Vec<Species<B::Genome>>) -> (place: (usize, usize))
        requires
            species@.len() > 0,
            forall|i: int| 0 <= i < species@.len() ==> (#[trigger] species@[i]).reported@.len() > 0,
        ensures
            place.0 < species@.len(),
            place.1 < species@[place.0 as int].reported@.len(),
            exists|k: int|
                0 <= k < reports_from(species@, 0) && (place.0 as int, place.1 as int)
                    == #[trigger] report_place(species@, 0, k),
    {
        let n: usize = species.len();
        let mut count: usize = 0;
        let mut i: usize = n;
        while i > 0
            invariant
                0 <= i <= n,
                n == species@.len(),
                count <= reports_from(species@, i as int),
                i < n ==> count > 0,
                forall|k: int| 0 <= k < species@.len() ==> (#[trigger] species@[k]).reported@.len() > 0,
            decreases i,
        {
            i -= 1;
            let more: usize = species[i].reported.len();
            count = if more > usize::MAX - count {
                usize::MAX
            } else {
                count + more
            };
        }
        let k: usize = random_between(0, count - 1);
        Self::report_at(species, k)
    }

    /// The place of the report that is the `k`-th when the reports of all
    /// species are counted through, species by species, from zero.
    pub fn report_at(species: &Vec<Species<B::Genome>>, index: usize) -> (place: (usize, usize))
        requires
            species@.len() > 0,
            index < reports_from(species@, 0),
        ensures
            (place.0 as int, place.1 as int) == report_place(species@, 0, index as int),
            place.0 < species@.len(),
            place.1 < species@[place.0 as int].reported@.len(),
    {
        let n: usize = species.len();
        let mut k: usize = index;
        let mut at: usize = 0;
        while at < n - 1 && k >= species[at].reported.len()
            invariant
                0 <= at < n,
                n == species@.len(),
                k < reports_from(species@, at as int),
                report_place(species@, at as int, k as int) == report_place(
                    species@,
                    0,
                    index as int,
                ),
            decreases n - at,
        {
            k -= species[at].reported.len();
            at += 1;
        }
        proof {
            if at == n - 1 {
                assert(reports_from(species@, at + 1) == 0);
            }
        }
        (at, k)
    }

    /// Whether `child` can come of breeding two reported genomes: the one
    /// with the higher score comes first.
    pub open spec fn bred(
        breeder: &B,
        first: (i64, B::Genome),
        second: (i64, B::Genome),
        child: B::Genome,
    ) -> bool {
        if first.0 > second.0 {
            breeder.crossing(&first.1, &second.1, &child)
        } else {
            breeder.crossing(&second.1, &first.1, &child)
        }
    }

    /// Whether `child` can come of mutating one of the `elite` best reports.
    pub open spec fn mutated_from(
        breeder: &B,
        reports: Seq<(i64, B::Genome)>,
        elite: nat,
        child: B::Genome,
    ) -> bool {
        exists|p: int| 0 <= p < elite && #[trigger] breeder.mutation(&reports[p].1, &child)
    }

    /// Whether `child` can come of breeding one of the `elite` best reports
    /// of the species at `which` with a report of any species.
    pub open spec fn crossed_from(
        breeder: &B,
        species: Seq<Species<B::Genome>>,
        which: int,
        elite: nat,
        child: B::Genome,
    ) -> bool {
        exists|a: int, i: int, b: int|
            0 <= a < elite && 0 <= i < species.len() && 0 <= b < species[i].reported@.len()
                && #[trigger] Self::bred(
                breeder,
                species[which].reported@[a],
                species[i].reported@[b],
                child,
            )
    }

    /// Whether `out` can be the offspring of the species at `which`: `quota`
    /// genomes, in the numbers that the ratios make of the quota. First
    /// stand the copies of the best reports, in their order and over again
    /// where there are fewer reports than copies; then the genomes that came
    /// of mutating one of the best reports; then those that came of breeding
    /// one of the best reports with a report of any species; last the new
    /// genomes.
    pub open spec fn offspring(
        breeder: &B,
        species: Seq<Species<B::Genome>>,
        which: int,
        quota: usize,
        ratios: Ratios<i64>,
        out: Seq<B::Genome>,
    ) -> bool {
        let counts = shares(ratios, quota);
        let reports = species[which].reported@;
        let elite = elite_of(counts.top, reports.len());
        &&& out.len() == quota
        &&& forall|k: int|
            0 <= k < counts.top ==> cloned(reports[k % (reports.len() as int)].1, #[trigger] out[k])
        &&& forall|k: int|
            counts.top <= k < counts.top + counts.mutate ==> Self::mutated_from(
                breeder,
                reports,
                elite,
                #[trigger] out[k],
            )
        &&& forall|k: int|
            counts.top + counts.mutate <= k < quota - counts.random ==> Self::crossed_from(
                breeder,
                species,
                which,
                elite,
                #[trigger] out[k],
            )
        &&& forall|k: int| quota - counts.random <= k < quota ==> breeder.fresh(&#[trigger] out[k])
    }

    /// The offspring of the species at `which`, `quota` genomes: copies of
    /// its best reports, mutated and crossed genomes of its best reports,
    /// and new random genomes, in the numbers that the ratios make of the
    /// quota. A crossing now and then takes its second parent from any
    /// species; the parent with the higher score comes first.
    pub fn offspring_of(
        breeder: &B,
        species: &Vec<Species<B::Genome>>,
        which: usize,
        quota: usize,
        ratios: &Ratios<i64>,
    ) -> (out: Vec<B::Genome>)
        requires
            breeder.wf(),
            Self::all_fit(breeder, species@),
            which < species@.len(),
            forall|i: int| 0 <= i < species@.len() ==> (#[trigger] species@[i]).reported@.len() > 0,
        ensures
            forall|k: int| 0 <= k < out@.len() ==> breeder.fits(&#[trigger] out@[k]),
            Self::offspring(breeder, species@, which as int, quota, *ratios, out@),
    {
        let me = &species[which];
        let n: usize = me.reported.len();
        let counts = ratios.to_int(quota);
        let elite: usize = if counts.top < 1 {
            1
        } else if counts.top > n {
            n
        } else {
            counts.top
        };
        proof {
            assert forall|p: int| 0 <= p < n implies breeder.fits(&(#[trigger] me.reported@[p]).1) by {
                assert(species@[which as int].holds(me.reported@[p].1));
            }
        }
        let mut out: Vec<B::Genome> = Vec::new();
        let mut k: usize = 0;
        while k < counts.top
            invariant
                0 <= k <= counts.top,
                n == me.reported@.len(),
                n > 0,
                out@.len() == k,
                forall|p: int| 0 <= p < n ==> breeder.fits(&(#[trigger] me.reported@[p]).1),
                forall|j: int| 0 <= j < out@.len() ==> breeder.fits(&#[trigger] out@[j]),
                forall|j: int|
                    0 <= j < k ==> cloned(me.reported@[j % (n as int)].1, #[trigger] out@[j]),
            decreases counts.top - k,
        {
            let copy = me.reported[k % n].1.clone();
            proof {
                breeder.fits_cloned(me.reported@[(k % n) as int].1, copy);
            }
            out.push(copy);
            k += 1;
        }
        k = 0;
        while k < counts.mutate
            invariant
                0 <= k <= counts.mutate,
                breeder.wf(),
                n == me.reported@.len(),
                *me == species@[which as int],
                1 <= elite <= n,
                out@.len() == counts.top + k,
                forall|j: int|
                    counts.top <= j < out@.len() ==> Self::mutated_from(
                        breeder,
                        me.reported@,
                        elite as nat,
                        #[trigger] out@[j],
                    ),
                forall|p: int| 0 <= p < n ==> breeder.fits(&(#[trigger] me.reported@[p]).1),
                forall|j: int| 0 <= j < out@.len() ==> breeder.fits(&#[trigger] out@[j]),
                forall|j: int|
                    0 <= j < counts.top ==> cloned(me.reported@[j % (n as int)].1, #[trigger] out@[j]),
            decreases counts.mutate - k,
        {
            let p: usize = random_between(0, elite - 1);
            let child = breeder.mutate(&me.reported[p].1);
            assert(Self::mutated_from(breeder, me.reported@, elite as nat, child));
            out.push(child);
            k += 1;
        }
        k = 0;
        while k < counts.cross
            invariant
                0 <= k <= counts.cross,
                breeder.wf(),
                n == me.reported@.len(),
                1 <= elite <= n,
                which < species@.len(),
                *me == species@[which as int],
                Self::all_fit(breeder, species@),
                forall|i: int| 0 <= i < species@.len() ==> (#[trigger] species@[i]).reported@.len() > 0,
                out@.len() == counts.top + counts.mutate + k,
                forall|j: int|
                    counts.top <= j < counts.top + counts.mutate ==> Self::mutated_from(
                        breeder,
                        me.reported@,
                        elite as nat,
                        #[trigger] out@[j],
                    ),
                forall|j: int|
                    counts.top + counts.mutate <= j < out@.len() ==> Self::crossed_from(
                        breeder,
                        species@,
                        which as int,
                        elite as nat,
                        #[trigger] out@[j],
                    ),
                forall|p: int| 0 <= p < n ==> breeder.fits(&(#[trigger] me.reported@[p]).1),
                forall|j: int| 0 <= j < out@.len() ==> breeder.fits(&#[trigger] out@[j]),
                forall|j: int|
                    0 <= j < counts.top ==> cloned(me.reported@[j % (n as int)].1, #[trigger] out@[j]),
            decreases counts.cross - k,
        {
            let a: usize = random_between(0, elite - 1);
            let first = &me.reported[a];
            let mut from: usize = which;
            let mut b: usize = random_between(0, elite - 1);
            if random() < MIGRATION_CHANCE {
                let place = Self::any_report(species);
                from = place.0;
                b = place.1;
            }
            let second = &species[from].reported[b];
            proof {
                assert(species@[from as int].holds(second.1));
            }
            let child = if first.0 > second.0 {
                breeder.breed(&first.1, &second.1)
            } else {
                breeder.breed(&second.1, &first.1)
            };
            proof {
                assert(Self::bred(
                    breeder,
                    species@[which as int].reported@[a as int],
                    species@[from as int].reported@[b as int],
                    child,
                ));
            }
            out.push(child);
            k += 1;
        }
        k = 0;
        while k < counts.random
            invariant
                0 <= k <= counts.random,
                breeder.wf(),
                n == me.reported@.len(),
                *me == species@[which as int],
                out@.len() == counts.top + counts.mutate + counts.cross + k,
                elite == elite_of(counts.top, n as nat),
                forall|j: int|
                    counts.top <= j < counts.top + counts.mutate ==> Self::mutated_from(
                        breeder,
                        me.reported@,
                        elite as nat,
                        #[trigger] out@[j],
                    ),
                forall|j: int|
                    counts.top + counts.mutate <= j < counts.top + counts.mutate + counts.cross
                        ==> Self::crossed_from(
                        breeder,
                        species@,
                        which as int,
                        elite as nat,
                        #[trigger] out@[j],
                    ),
                forall|j: int|
                    counts.top + counts.mutate + counts.cross <= j < out@.len() ==> breeder.fresh(
                        &#[trigger] out@[j],
                    ),
                forall|j: int| 0 <= j < out@.len() ==> breeder.fits(&#[trigger] out@[j]),
                forall|j: int|
                    0 <= j < counts.top ==> cloned(me.reported@[j % (n as int)].1, #[trigger] out@[j]),
            decreases counts.random - k,
        {
            out.push(breeder.random());
            k += 1;
        }
        out
    }

    /// Whether `model` is a copy of one of the genomes.
    pub open spec fn copied_from(genomes: Seq<B::Genome>, model: B::Genome) -> bool {
        exists|k: int| 0 <= k < genomes.len() && cloned(#[trigger] genomes[k], model)
    }

    /// Whether the candidate stands under the id of its species: the first
    /// species whose model the breeder takes for the same as the candidate's
    /// genome, or else the species that the genome founded, whose model is
    /// its copy. Only when the ids are used up may it stand with a species
    /// that is neither.
    pub open spec fn placed(
        breeder: &B,
        species: Seq<Species<B::Genome>>,
        next_id: i32,
        candidate: (i32, B::Genome),
    ) -> bool {
        exists|j: int|
            {
                &&& 0 <= j < species.len()
                &&& (#[trigger] species[j]).id == candidate.0
                &&& forall|i: int|
                    0 <= i < j ==> !breeder.same(&(#[trigger] species[i]).model, &candidate.1)
                &&& (breeder.same(&species[j].model, &candidate.1) || cloned(
                    candidate.1,
                    species[j].model,
                ) || next_id == i32::MAX)
            }
    }

    /// A candidate that stands under the right id still does when species
    /// are founded behind those that are there.
    pub proof fn lemma_placed_stays(
        breeder: &B,
        species: Seq<Species<B::Genome>>,
        next_id: i32,
        grown: Seq<Species<B::Genome>>,
        later_id: i32,
        candidate: (i32, B::Genome),
    )
        requires
            Self::placed(breeder, species, next_id, candidate),
            species.len() <= grown.len(),
            grown.take(species.len() as int) == species,
            next_id <= later_id,
        ensures
            Self::placed(breeder, grown, later_id, candidate),
    {
        let j = choose|j: int|
            {
                &&& 0 <= j < species.len()
                &&& (#[trigger] species[j]).id == candidate.0
                &&& forall|i: int|
                    0 <= i < j ==> !breeder.same(&(#[trigger] species[i]).model, &candidate.1)
                &&& (breeder.same(&species[j].model, &candidate.1) || cloned(
                    candidate.1,
                    species[j].model,
                ) || next_id == i32::MAX)
            };
        assert(grown[j] == species[j]);
        assert forall|i: int| 0 <= i < j implies !breeder.same(
            &(#[trigger] grown[i]).model,
            &candidate.1,
        ) by {
            assert(grown[i] == species[i]);
        }
    }

    /// Finds the species of a genome: the first, in the order of the ids,
    /// whose model the breeder takes for the same; a nearer model further
    /// down the list does not count. Where there is none, the genome founds a
    /// new species under the next free id; where the ids are used up, it
    /// joins the last species.
    pub fn classify(
        breeder: &B,
        species: &mut Vec<Species<B::Genome>>,
        next_id: &mut i32,
        genome: &B::Genome,
    ) -> (id: i32)
        requires
            breeder.wf(),
            breeder.fits(genome),
            Self::all_fit(breeder, old(species)@),
            old(species)@.len() > 0,
        ensures
            Self::all_fit(breeder, final(species)@),
            final(species)@.len() >= old(species)@.len(),
            final(species)@.take(old(species)@.len() as int) == old(species)@,
            *old(next_id) <= *final(next_id),
            views(final(species)@) == views(old(species)@) + newcomers(*old(next_id), *final(next_id)),
            *final(next_id) <= *old(next_id) + 1,
            has_id(views(final(species)@), id),
            Self::placed(breeder, final(species)@, *final(next_id), (id, *genome)),
            final(species)@.len() <= old(species)@.len() + 1,
            final(species)@.len() > old(species)@.len() ==> cloned(
                *genome,
                final(species)@.last().model,
            ),
            forall|i: int|
                0 <= i < old(species)@.len() && breeder.same(&(#[trigger] old(species)@[i]).model, genome)
                    ==> exists|j: int|
                    0 <= j <= i && old(species)@[j].id == id && breeder.same(&old(species)@[j].model, genome),
            (forall|i: int|
                0 <= i < old(species)@.len() ==> !breeder.same(&(#[trigger] old(species)@[i]).model, genome))
                ==> (if *old(next_id) < i32::MAX {
                id == *old(next_id) && *final(next_id) == *old(next_id) + 1
            } else {
                id == old(species)@.last().id && *final(next_id) == *old(next_id)
            }),
    {
        let n: usize = species.len();
        let mut i: usize = 0;
        while i < n
            invariant
                0 <= i <= n,
                n == species@.len(),
                species@ == old(species)@,
                *next_id == *old(next_id),
                breeder.wf(),
                breeder.fits(genome),
                Self::all_fit(breeder, species@),
                forall|k: int| 0 <= k < i ==> !breeder.same(&(#[trigger] species@[k]).model, genome),
            decreases n - i,
        {
            proof {
                assert(species@[i as int].holds(species@[i as int].model));
            }
            if breeder.is_same(&species[i].model, genome) {
                proof {
                    assert(newcomers(*old(next_id), *next_id) =~= Seq::<SpeciesView>::empty());
                    assert(views(species@) + newcomers(*old(next_id), *next_id) =~= views(species@));
                    assert(species@.take(n as int) =~= species@);
                    assert(views(species@)[i as int].id == species@[i as int].id);
                    assert(Self::placed(breeder, species@, *next_id, (species@[i as int].id, *genome)));
                }
                return species[i].id;
            }
            i += 1;
        }
        if *next_id < i32::MAX {
            let id: i32 = *next_id;
            let model = genome.clone();
            proof {
                breeder.fits_cloned(*genome, model);
            }
            let founded = Species::new(id, model);
            species.push(founded);
            *next_id = id + 1;
            proof {
                assert(newcomers(*old(next_id), *next_id) =~= seq![newcomer(id)]);
                assert(views(species@) =~= views(old(species)@) + seq![newcomer(id)]);
                assert(species@.take(n as int) =~= old(species)@);
                assert(views(species@)[n as int].id == id);
                assert(species@[n as int].id == id);
                assert forall|k: int| 0 <= k < n implies !breeder.same(
                    &(#[trigger] species@[k]).model,
                    genome,
                ) by {
                    assert(species@[k] == old(species)@[k]);
                }
                assert(Self::placed(breeder, species@, *next_id, (id, *genome)));
                assert forall|k: int, g: B::Genome|
                    0 <= k < species@.len() && (#[trigger] species@[k]).holds(g) implies #[trigger] breeder.fits(
                    &g,
                ) by {
                    if k < n {
                        assert(species@[k] == old(species)@[k]);
                    } else {
                        assert(g == model);
                    }
                }
            }
            id
        } else {
            proof {
                assert(newcomers(*old(next_id), *next_id) =~= Seq::<SpeciesView>::empty());
                assert(views(species@) + newcomers(*old(next_id), *next_id) =~= views(species@));
                assert(species@.take(n as int) =~= species@);
                assert(views(species@)[n - 1].id == species@[n - 1].id);
                assert(Self::placed(breeder, species@, *next_id, (species@[n - 1].id, *genome)));
            }
            species[n - 1].id
        }
    }

    /// Finds the species of every genome, in the order of the list, founding
    /// species on the way. Returns the genomes with the ids of their
    /// species.
    #[verifier::rlimit(60)]
    pub fn classify_all(
        breeder: &B,
        species: &mut Vec<Species<B::Genome>>,
        next_id: &mut i32,
        offspring: Vec<B::Genome>,
    ) -> (candidates: Vec<(i32, B::Genome)>)
        requires
            breeder.wf(),
            Self::all_fit(breeder, old(species)@),
            old(species)@.len() > 0,
            forall|k: int| 0 <= k < offspring@.len() ==> breeder.fits(&#[trigger] offspring@[k]),
        ensures
            Self::all_fit(breeder, final(species)@),
            *old(next_id) <= *final(next_id),
            views(final(species)@) == views(old(species)@) + newcomers(*old(next_id), *final(next_id)),
            final(species)@.len() >= old(species)@.len(),
            final(species)@.take(old(species)@.len() as int) == old(species)@,
            forall|i: int|
                old(species)@.len() <= i < final(species)@.len() ==> Self::copied_from(
                    offspring@,
                    (#[trigger] final(species)@[i]).model,
                ),
            candidates@.len() == offspring@.len(),
            forall|k: int|
                0 <= k < candidates@.len() ==> (#[trigger] candidates@[k]).1 == offspring@[k]
                    && breeder.fits(&candidates@[k].1) && has_id(
                    views(final(species)@),
                    candidates@[k].0,
                ) && Self::placed(breeder, final(species)@, *final(next_id), candidates@[k]),
    {
        let total: usize = offspring.len();
        let mut rest = reversed(offspring);
        let mut candidates: Vec<(i32, B::Genome)> = Vec::new();
        proof {
            assert(newcomers(*old(next_id), *next_id) =~= Seq::<SpeciesView>::empty());
            assert(views(species@) + newcomers(*old(next_id), *next_id) =~= views(species@));
        }
        while rest.len() > 0
            invariant
                breeder.wf(),
                Self::all_fit(breeder, species@),
                species@.len() > 0,
                rest@.len() + candidates@.len() == total,
                forall|k: int| 0 <= k < rest@.len() ==> breeder.fits(&#[trigger] rest@[k]),
                *old(next_id) <= *next_id,
                views(species@) == views(old(species)@) + newcomers(*old(next_id), *next_id),
                species@.len() >= old(species)@.len(),
                species@.take(old(species)@.len() as int) == old(species)@,
                forall|i: int|
                    old(species)@.len() <= i < species@.len() ==> Self::copied_from(
                        offspring@,
                        (#[trigger] species@[i]).model,
                    ),
                total == offspring@.len(),
                forall|k: int| 0 <= k < rest@.len() ==> rest@[k] == offspring@[total - 1 - k],
                forall|k: int|
                    0 <= k < candidates@.len() ==> (#[trigger] candidates@[k]).1 == offspring@[k]
                        && breeder.fits(&candidates@[k].1) && has_id(
                        views(species@),
                        candidates@[k].0,
                    ) && Self::placed(breeder, species@, *next_id, candidates@[k]),
            decreases rest.len(),
        {
            let ghost shown = views(species@);
            let ghost held = species@;
            let ghost mid = *next_id;
            let ghost labelled = candidates@;
            let genome = rest.pop().unwrap();
            let id: i32 = Self::classify(breeder, species, next_id, &genome);
            candidates.push((id, genome));
            proof {
                lemma_newcomers_join(*old(next_id), mid, *next_id);
                assert(views(species@) =~= views(old(species)@) + newcomers(*old(next_id), *next_id));
                assert(species@.take(old(species)@.len() as int) =~= old(species)@) by {
                    assert forall|k: int| 0 <= k < old(species)@.len() implies species@[k] == old(species)@[k] by {
                        assert(species@.take(held.len() as int)[k] == held[k]);
                        assert(held.take(old(species)@.len() as int)[k] == old(species)@[k]);
                    }
                }
                assert forall|i: int| old(species)@.len() <= i < species@.len() implies Self::copied_from(
                    offspring@,
                    (#[trigger] species@[i]).model,
                ) by {
                    if i < held.len() {
                        assert(species@[i] == species@.take(held.len() as int)[i]);
                        assert(species@[i] == held[i]);
                    } else {
                        let at = labelled.len() as int;
                        assert(candidates@[at].1 == offspring@[at]);
                        assert(cloned(offspring@[at], species@[i].model));
                    }
                }
                assert forall|k: int| 0 <= k < candidates@.len() implies (#[trigger] candidates@[k]).1
                    == offspring@[k] && breeder.fits(&candidates@[k].1) && has_id(
                    views(species@),
                    candidates@[k].0,
                ) && Self::placed(breeder, species@, *next_id, candidates@[k]) by {
                    if k < labelled.len() {
                        assert(candidates@[k] == labelled[k]);
                        let i = choose|i: int|
                            0 <= i < shown.len() && (#[trigger] shown[i]).id == labelled[k].0;
                        assert(views(species@)[i] == shown[i]);
                        Self::lemma_placed_stays(breeder, held, mid, species@, *next_id, labelled[k]);
                    }
                }
            }
        }
        candidates
    }

    /// Whether the lists can be the offspring of the species, one list for
    /// each: every species breeds as many genomes as its quota says.
    pub open spec fn raised(
        breeder: &B,
        species: Seq<Species<B::Genome>>,
        mean: i64,
        size: usize,
        ratios: Ratios<i64>,
        lists: Seq<Seq<B::Genome>>,
    ) -> bool {
        &&& lists.len() == species.len()
        &&& forall|i: int|
            0 <= i < species.len() ==> Self::offspring(
                breeder,
                species,
                i,
                quota(species[i].last_mean, mean, size, species.len() as usize),
                ratios,
                #[trigger] lists[i],
            )
    }

    /// Breeds the offspring of every species by its quota and puts them one
    /// behind the other, in the order of the species.
    pub fn breed_all(
        breeder: &B,
        species: &Vec<Species<B::Genome>>,
        mean: i64,
        size: usize,
        ratios: &Ratios<i64>,
    ) -> (pooled: Vec<B::Genome>)
        requires
            breeder.wf(),
            Self::all_fit(breeder, species@),
            forall|i: int| 0 <= i < species@.len() ==> (#[trigger] species@[i]).reported@.len() > 0,
        ensures
            forall|k: int| 0 <= k < pooled@.len() ==> breeder.fits(&#[trigger] pooled@[k]),
            pooled@.len() == quotas(cleared_views(species@), mean, size, species@.len() as int),
            exists|lists: Seq<Seq<B::Genome>>| #[trigger]
                Self::raised(breeder, species@, mean, size, *ratios, lists) && pooled@ == joined(
                    lists,
                ),
    {
        let count: usize = species.len();
        let mut pooled: Vec<B::Genome> = Vec::new();
        let ghost mut lists: Seq<Seq<B::Genome>> = Seq::empty();
        let mut i: usize = 0;
        while i < count
            invariant
                0 <= i <= count,
                count == species@.len(),
                breeder.wf(),
                Self::all_fit(breeder, species@),
                forall|k: int| 0 <= k < species@.len() ==> (#[trigger] species@[k]).reported@.len() > 0,
                forall|k: int| 0 <= k < pooled@.len() ==> breeder.fits(&#[trigger] pooled@[k]),
                pooled@.len() == quotas(cleared_views(species@), mean, size, i as int),
                lists.len() == i,
                pooled@ == joined(lists),
                forall|t: int|
                    0 <= t < i ==> Self::offspring(
                        breeder,
                        species@,
                        t,
                        quota(species@[t].last_mean, mean, size, count),
                        *ratios,
                        #[trigger] lists[t],
                    ),
            decreases count - i,
        {
            let share: usize = quota_of(species[i].last_mean, mean, size, count);
            let mut children = Self::offspring_of(breeder, species, i, share, ratios);
            let ghost before = pooled@;
            let ghost added = children@;
            let ghost bred = lists;
            pooled.append(&mut children);
            proof {
                lists = bred.push(added);
                assert(lists.drop_last() =~= bred);
                assert forall|k: int| 0 <= k < pooled@.len() implies breeder.fits(
                    &#[trigger] pooled@[k],
                ) by {
                    if k < before.len() {
                        assert(pooled@[k] == before[k]);
                    } else {
                        assert(pooled@[k] == added[k - before.len()]);
                    }
                }
                assert forall|t: int| 0 <= t < i + 1 implies Self::offspring(
                    breeder,
                    species@,
                    t,
                    quota(species@[t].last_mean, mean, size, count),
                    *ratios,
                    #[trigger] lists[t],
                ) by {
                    if t < i {
                        assert(lists[t] == bred[t]);
                    }
                }
            }
            i += 1;
        }
        proof {
            assert(Self::raised(breeder, species@, mean, size, *ratios, lists));
        }
        pooled
    }

    /// Takes the reports from every species.
    pub fn clear_all(breeder: &B, species: Vec<Species<B::Genome>>) -> (cleared: Vec<
        Species<B::Genome>,
    >)
        requires
            Self::all_fit(breeder, species@),
        ensures
            Self::all_fit(breeder, cleared@),
            cleared@.len() == species@.len(),
            views(cleared@) == cleared_views(species@),
            forall|i: int| 0 <= i < species@.len() ==> (#[trigger] species@[i]).emptied(cleared@[i]),
    {
        let ghost full = species@;
        let mut rest = species;
        let mut cleared: Vec<Species<B::Genome>> = Vec::new();
        while rest.len() > 0
            invariant
                Self::all_fit(breeder, rest@),
                Self::all_fit(breeder, cleared@),
                cleared@.len() + rest@.len() == full.len(),
                forall|k: int| 0 <= k < rest@.len() ==> (#[trigger] rest@[k]) == full[cleared@.len() + k],
                forall|k: int| 0 <= k < cleared@.len() ==> (#[trigger] full[k]).emptied(cleared@[k]),
                forall|k: int| 0 <= k < cleared@.len() ==> (#[trigger] cleared@[k])@ == full[k]@.cleared(),
            decreases rest.len(),
        {
            let ghost before = rest@;
            let ghost done = cleared@;
            let mut s = rest.remove(0);
            s.clear();
            cleared.push(s);
            proof {
                assert forall|k: int, g: B::Genome|
                    0 <= k < cleared@.len() && (#[trigger] cleared@[k]).holds(g) implies #[trigger] breeder.fits(
                    &g,
                ) by {
                    if k < done.len() {
                        assert(cleared@[k] == done[k]);
                    } else {
                        assert(before[0].holds(g));
                    }
                }
                assert forall|k: int, g: B::Genome|
                    0 <= k < rest@.len() && (#[trigger] rest@[k]).holds(g) implies #[trigger] breeder.fits(
                    &g,
                ) by {
                    assert(rest@[k] == before[k + 1]);
                }
                assert forall|k: int| 0 <= k < rest@.len() implies (#[trigger] rest@[k]) == full[cleared@.len()
                    + k] by {
                    assert(rest@[k] == before[k + 1]);
                }
                assert forall|k: int| 0 <= k < cleared@.len() implies (#[trigger] full[k]).emptied(
                    cleared@[k],
                ) by {
                    if k < done.len() {
                        assert(cleared@[k] == done[k]);
                    } else {
                        assert(before[0] == full[done.len() as int]);
                    }
                }
                assert forall|k: int| 0 <= k < cleared@.len() implies (#[trigger] cleared@[k])@
                    == full[k]@.cleared() by {
                    if k < done.len() {
                        assert(cleared@[k] == done[k]);
                    } else {
                        assert(before[0] == full[done.len() as int]);
                    }
                }
            }
        }
        proof {
            assert(views(cleared@) =~= cleared_views(full));
        }
        cleared
    }

    /// The mean of the species' mean scores.
    pub fn mean_of_means(species: &Vec<Species<B::Genome>>) -> (mean: i64)
        requires
            species@.len() > 0,
        ensures
            mean == mean_of(means(views(species@))),
    {
        let n: usize = species.len();
        let mut sum: i128 = 0;
        let mut i: usize = 0;
        while i < n
            invariant
                0 <= i <= n,
                n == species@.len(),
                sum == total(means(views(species@)).take(i as int)),
                -0x8000_0000_0000_0000 * i <= sum <= 0x8000_0000_0000_0000 * i,
            decreases n - i,
        {
            proof {
                let s = means(views(species@));
                assert(s.take(i + 1).drop_last() =~= s.take(i as int));
            }
            sum = sum + species[i].last_mean as i128;
            i += 1;
        }
        proof {
            let s = means(views(species@));
            assert(s.take(n as int) =~= s);
        }
        quotient(sum, n as i128)
    }
}

/// The lists put one behind the other.
pub open spec fn joined<T>(lists: Seq<Seq<T>>) -> Seq<T>
    decreases lists.len(),
{
    if lists.len() == 0 {
        Seq::empty()
    } else {
        joined(lists.drop_last()) + lists.last()
    }
}

/// The place of the `k`-th of the reports that the species from `from` on
/// hold: the place of its species, and its place among that species'
/// reports.
pub open spec fn report_place<G>(species: Seq<Species<G>>, from: int, k: int) -> (int, int)
    decreases species.len() - from,
{
    if from < 0 || from + 1 >= species.len() || k < species[from].reported@.len() {
        (from, k)
    } else {
        report_place(species, from + 1, k - species[from].reported@.len())
    }
}

} // verus!
