//! A breeder for genomes that are nested: numbers, lists of numbers and
//! networks, in lists and under names.
use vstd::prelude::*;
use vstd::std_specs::convert::FromSpecImpl;
use crate::breeder::{Breeder, FloatBreeder, VecBreeder};
use crate::neat::breeder::NeatBreeder;
use crate::neat::genome::NeatGenome;

verus! {

/// A breeder of one of five kinds: three plain ones, a list of breeders and
/// breeders under names.
pub enum NestedBreeder {
    Vec(VecBreeder),
    Float(FloatBreeder),
    Network(NeatBreeder),
    List(Vec<NestedBreeder>),
    Named(Vec<(String, NestedBreeder)>),
}

/// The genome of a nested breeder, of the same five kinds.
#[derive(Debug)]
pub enum NestedBreederGenome {
    Vec(Vec<i64>),
    Float(i64),
    Network(NeatGenome),
    List(Vec<NestedBreederGenome>),
    Named(Vec<(String, NestedBreederGenome)>),
}

impl From<FloatBreeder> for NestedBreeder {
    fn from(b: FloatBreeder) -> (nested: Self) {
        NestedBreeder::Float(b)
    }
}

impl FromSpecImpl<FloatBreeder> for NestedBreeder {
    open spec fn obeys_from_spec() -> bool {
        true
    }

    open spec fn from_spec(b: FloatBreeder) -> Self {
        NestedBreeder::Float(b)
    }
}

impl From<VecBreeder> for NestedBreeder {
    fn from(b: VecBreeder) -> (nested: Self) {
        NestedBreeder::Vec(b)
    }
}

impl FromSpecImpl<VecBreeder> for NestedBreeder {
    open spec fn obeys_from_spec() -> bool {
        true
    }

    open spec fn from_spec(b: VecBreeder) -> Self {
        NestedBreeder::Vec(b)
    }
}

impl From<NeatBreeder> for NestedBreeder {
    fn from(b: NeatBreeder) -> (nested: Self) {
        NestedBreeder::Network(b)
    }
}

impl FromSpecImpl<NeatBreeder> for NestedBreeder {
    open spec fn obeys_from_spec() -> bool {
        true
    }

    open spec fn from_spec(b: NeatBreeder) -> Self {
        NestedBreeder::Network(b)
    }
}

impl From<Vec<NestedBreeder>> for NestedBreeder {
    fn from(b: Vec<NestedBreeder>) -> (nested: Self) {
        NestedBreeder::List(b)
    }
}

impl FromSpecImpl<Vec<NestedBreeder>> for NestedBreeder {
    open spec fn obeys_from_spec() -> bool {
        true
    }

    open spec fn from_spec(b: Vec<NestedBreeder>) -> Self {
        NestedBreeder::List(b)
    }
}

impl From<Vec<(String, NestedBreeder)>> for NestedBreeder {
    fn from(b: Vec<(String, NestedBreeder)>) -> (nested: Self) {
        NestedBreeder::Named(b)
    }
}

impl FromSpecImpl<Vec<(String, NestedBreeder)>> for NestedBreeder {
    open spec fn obeys_from_spec() -> bool {
        true
    }

    open spec fn from_spec(b: Vec<(String, NestedBreeder)>) -> Self {
        NestedBreeder::Named(b)
    }
}

/// The place of the first entry under the name `key`, if there is one.
pub open spec fn place_of(entries: Seq<(String, NestedBreederGenome)>, key: Seq<char>) -> Option<int>
    decreases entries.len(),
{
    if entries.len() == 0 {
        None
    } else {
        match place_of(entries.drop_last(), key) {
            Some(i) => Some(i),
            None => if entries.last().0@ == key {
                Some(entries.len() - 1)
            } else {
                None
            },
        }
    }
}

/// The smaller of two lengths.
pub open spec fn shorter(a: nat, b: nat) -> nat {
    if a <= b {
        a
    } else {
        b
    }
}

/// What `place_of` finds is the first entry under the name.
pub proof fn lemma_place_of(entries: Seq<(String, NestedBreederGenome)>, key: Seq<char>)
    ensures
        match place_of(entries, key) {
            Some(i) => 0 <= i < entries.len() && entries[i].0@ == key && forall|j: int|
                0 <= j < i ==> (#[trigger] entries[j]).0@ != key,
            None => forall|j: int| 0 <= j < entries.len() ==> (#[trigger] entries[j]).0@ != key,
        },
    decreases entries.len(),
{
    if entries.len() > 0 {
        let rest = entries.drop_last();
        lemma_place_of(rest, key);
        match place_of(rest, key) {
            Some(i) => {
                assert(entries[i] == rest[i]);
                assert forall|j: int| 0 <= j < i implies (#[trigger] entries[j]).0@ != key by {
                    assert(entries[j] == rest[j]);
                }
            },
            None => {
                assert forall|j: int| 0 <= j < entries.len() - 1 implies (#[trigger] entries[j]).0@ != key by {
                    assert(entries[j] == rest[j]);
                }
            },
        }
    }
}

/// Where no name occurs twice, every entry is the first under its name.
pub proof fn lemma_place_of_own(entries: Seq<(String, NestedBreederGenome)>, i: int)
    requires
        0 <= i < entries.len(),
        forall|a: int, b: int|
            0 <= a < b < entries.len() ==> (#[trigger] entries[a]).0@ != (#[trigger] entries[b]).0@,
    ensures
        place_of(entries, entries[i].0@) == Some(i),
{
    lemma_place_of(entries, entries[i].0@);
}

impl NestedBreederGenome {
    /// The list of numbers that the genome is. Any other kind of genome is
    /// the caller's mistake.
    pub fn unwrap_vec(&self) -> (inner: &Vec<i64>)
        requires
            self is Vec,
        ensures
            *self == NestedBreederGenome::Vec(*inner),
    {
        match self {
            NestedBreederGenome::Vec(x) => x,
            _ => vstd::pervasive::unreached(),
        }
    }

    /// The number that the genome is.
    pub fn unwrap_float(&self) -> (inner: &i64)
        requires
            self is Float,
        ensures
            *self == NestedBreederGenome::Float(*inner),
    {
        match self {
            NestedBreederGenome::Float(x) => x,
            _ => vstd::pervasive::unreached(),
        }
    }

    /// The network genome that the genome is.
    pub fn unwrap_network(&self) -> (inner: &NeatGenome)
        requires
            self is Network,
        ensures
            *self == NestedBreederGenome::Network(*inner),
    {
        match self {
            NestedBreederGenome::Network(x) => x,
            _ => vstd::pervasive::unreached(),
        }
    }

    /// The list of genomes that the genome is.
    pub fn unwrap_list(&self) -> (inner: &Vec<NestedBreederGenome>)
        requires
            self is List,
        ensures
            *self == NestedBreederGenome::List(*inner),
    {
        match self {
            NestedBreederGenome::List(x) => x,
            _ => vstd::pervasive::unreached(),
        }
    }

    /// The named genomes that the genome is.
    pub fn unwrap_map(&self) -> (inner: &Vec<(String, NestedBreederGenome)>)
        requires
            self is Named,
        ensures
            *self == NestedBreederGenome::Named(*inner),
    {
        match self {
            NestedBreederGenome::Named(x) => x,
            _ => vstd::pervasive::unreached(),
        }
    }

    /// Whether the copy equals the source in all that the breeders read.
    pub open spec fn alike(self, copy: NestedBreederGenome) -> bool
        decreases self,
    {
        match (self, copy) {
            (NestedBreederGenome::Vec(a), NestedBreederGenome::Vec(b)) => a@ == b@,
            (NestedBreederGenome::Float(a), NestedBreederGenome::Float(b)) => a == b,
            (NestedBreederGenome::Network(a), NestedBreederGenome::Network(b)) => a@ == b@
                && a.last() == b.last(),
            (NestedBreederGenome::List(a), NestedBreederGenome::List(b)) => a@.len() == b@.len()
                && forall|i: int| 0 <= i < a@.len() ==> (#[trigger] a@[i]).alike(b@[i]),
            (NestedBreederGenome::Named(a), NestedBreederGenome::Named(b)) => a@.len() == b@.len()
                && forall|i: int|
                0 <= i < a@.len() ==> (#[trigger] a@[i]).0@ == b@[i].0@ && a@[i].1.alike(b@[i].1),
            _ => false,
        }
    }

    /// A copy of the genome.
    pub fn copy(&self) -> (copy: NestedBreederGenome)
        ensures
            self.alike(copy),
        decreases self,
    {
        match self {
            NestedBreederGenome::Vec(x) => {
                let mut out: Vec<i64> = Vec::with_capacity(x.len());
                let mut i: usize = 0;
                while i < x.len()
                    invariant
                        0 <= i <= x@.len(),
                        out@ == x@.take(i as int),
                    decreases x@.len() - i,
                {
                    out.push(x[i]);
                    proof {
                        assert(x@.take(i + 1) =~= x@.take(i as int).push(x@[i as int]));
                    }
                    i += 1;
                }
                proof {
                    assert(x@.take(x@.len() as int) =~= x@);
                }
                NestedBreederGenome::Vec(out)
            },
            NestedBreederGenome::Float(x) => NestedBreederGenome::Float(*x),
            NestedBreederGenome::Network(x) => NestedBreederGenome::Network(x.clone()),
            NestedBreederGenome::List(x) => {
                let mut out: Vec<NestedBreederGenome> = Vec::with_capacity(x.len());
                let mut i: usize = 0;
                while i < x.len()
                    invariant
                        0 <= i <= x@.len(),
                        out@.len() == i,
                        decreases_to!(*self => x@),
                        forall|k: int| 0 <= k < i ==> (#[trigger] x@[k]).alike(out@[k]),
                    decreases x@.len() - i,
                {
                    proof {
                        assert(decreases_to!(x@ => x@[i as int]));
                    }
                    out.push(x[i].copy());
                    i += 1;
                }
                NestedBreederGenome::List(out)
            },
            NestedBreederGenome::Named(x) => {
                let mut out: Vec<(String, NestedBreederGenome)> = Vec::with_capacity(x.len());
                let mut i: usize = 0;
                while i < x.len()
                    invariant
                        0 <= i <= x@.len(),
                        out@.len() == i,
                        decreases_to!(*self => x@),
                        forall|k: int|
                            0 <= k < i ==> (#[trigger] x@[k]).0@ == out@[k].0@ && x@[k].1.alike(
                                out@[k].1,
                            ),
                    decreases x@.len() - i,
                {
                    proof {
                        assert(decreases_to!(x@ => x@[i as int]));
                        assert(decreases_to!(x@[i as int] => x@[i as int].1));
                    }
                    out.push((x[i].0.clone(), x[i].1.copy()));
                    i += 1;
                }
                NestedBreederGenome::Named(out)
            },
        }
    }
}

impl Clone for NestedBreederGenome {
    fn clone(&self) -> (copy: NestedBreederGenome)
        ensures
            self.alike(copy),
    {
        self.copy()
    }
}

/// Looks for the first entry under the name `key`.
pub fn find_entry(entries: &Vec<(String, NestedBreederGenome)>, key: &String) -> (place: Option<usize>)
    ensures
        match place {
            Some(i) => place_of(entries@, key@) == Some(i as int),
            None => place_of(entries@, key@) is None,
        },
{
    let n: usize = entries.len();
    let mut i: usize = 0;
    while i < n
        invariant
            0 <= i <= n,
            n == entries@.len(),
            forall|j: int| 0 <= j < i ==> (#[trigger] entries@[j]).0@ != key@,
        decreases n - i,
    {
        if entries[i].0 == *key {
            proof {
                lemma_place_of(entries@, key@);
            }
            return Some(i);
        }
        i += 1;
    }
    proof {
        lemma_place_of(entries@, key@);
    }
    None
}

impl NestedBreeder {
    /// Whether the breeder and all breeders in it are usable, and no name
    /// occurs twice among breeders under names.
    pub open spec fn usable(self) -> bool
        decreases self,
    {
        match self {
            NestedBreeder::Vec(b) => b.wf(),
            NestedBreeder::Float(b) => b.wf(),
            NestedBreeder::Network(b) => b.wf(),
            NestedBreeder::List(l) => forall|i: int| 0 <= i < l@.len() ==> (#[trigger] l@[i]).usable(),
            NestedBreeder::Named(m) => {
                &&& forall|i: int| 0 <= i < m@.len() ==> (#[trigger] m@[i]).1.usable()
                &&& forall|a: int, b: int|
                    0 <= a < b < m@.len() ==> (#[trigger] m@[a]).0@ != (#[trigger] m@[b]).0@
            },
        }
    }

    /// Whether the genome has the breeder's shape: the same kind, a genome
    /// that fits for every breeder of a list that has a partner, and a
    /// genome that fits under the name of every named breeder.
    pub open spec fn takes(self, genome: NestedBreederGenome) -> bool
        decreases self,
    {
        match (self, genome) {
            (NestedBreeder::Vec(b), NestedBreederGenome::Vec(g)) => b.fits(&g),
            (NestedBreeder::Float(b), NestedBreederGenome::Float(g)) => b.fits(&g),
            (NestedBreeder::Network(b), NestedBreederGenome::Network(g)) => b.fits(&g),
            (NestedBreeder::List(l), NestedBreederGenome::List(g)) => forall|i: int|
                0 <= i < shorter(l@.len(), g@.len()) ==> (#[trigger] l@[i]).takes(g@[i]),
            (NestedBreeder::Named(m), NestedBreederGenome::Named(g)) => forall|i: int|
                0 <= i < m@.len() ==> (place_of(g@, (#[trigger] m@[i]).0@) matches Some(j)
                    && m@[i].1.takes(g@[j].1)),
            _ => false,
        }
    }

    /// Whether the breeder takes the two genomes for the same: the plain
    /// breeders decide for their kind, and a list or a set of names is the
    /// same when every part is.
    pub open spec fn alike(self, gene1: NestedBreederGenome, gene2: NestedBreederGenome) -> bool
        decreases self,
    {
        match (self, gene1, gene2) {
            (
                NestedBreeder::Vec(b),
                NestedBreederGenome::Vec(g1),
                NestedBreederGenome::Vec(g2),
            ) => b.same(&g1, &g2),
            (
                NestedBreeder::Float(b),
                NestedBreederGenome::Float(g1),
                NestedBreederGenome::Float(g2),
            ) => b.same(&g1, &g2),
            (
                NestedBreeder::Network(b),
                NestedBreederGenome::Network(g1),
                NestedBreederGenome::Network(g2),
            ) => b.same(&g1, &g2),
            (
                NestedBreeder::List(l),
                NestedBreederGenome::List(g1),
                NestedBreederGenome::List(g2),
            ) => forall|i: int|
                0 <= i < shorter(l@.len(), shorter(g1@.len(), g2@.len())) ==> (#[trigger] l@[i]).alike(
                    g1@[i],
                    g2@[i],
                ),
            (
                NestedBreeder::Named(m),
                NestedBreederGenome::Named(g1),
                NestedBreederGenome::Named(g2),
            ) => forall|i: int|
                0 <= i < m@.len() ==> (#[trigger] m@[i]).1.alike(
                    g1@[place_of(g1@, m@[i].0@)->0].1,
                    g2@[place_of(g2@, m@[i].0@)->0].1,
                ),
            _ => false,
        }
    }

    /// Whether a mutation of `gene` can give `child`: the plain breeders
    /// mutate their kind, a list mutates every part that has a partner, and
    /// named breeders mutate the genomes under their names.
    pub open spec fn can_mutate(self, gene: NestedBreederGenome, child: NestedBreederGenome) -> bool
        decreases self,
    {
        match (self, gene, child) {
            (NestedBreeder::Vec(b), NestedBreederGenome::Vec(g), NestedBreederGenome::Vec(c)) => b.mutation(
                &g,
                &c,
            ),
            (
                NestedBreeder::Float(b),
                NestedBreederGenome::Float(g),
                NestedBreederGenome::Float(c),
            ) => b.mutation(&g, &c),
            (
                NestedBreeder::Network(b),
                NestedBreederGenome::Network(g),
                NestedBreederGenome::Network(c),
            ) => b.mutation(&g, &c),
            (NestedBreeder::List(l), NestedBreederGenome::List(g), NestedBreederGenome::List(c)) => {
                &&& c@.len() == shorter(l@.len(), g@.len())
                &&& forall|i: int|
                    0 <= i < c@.len() ==> (#[trigger] l@[i]).can_mutate(g@[i], c@[i])
            },
            (NestedBreeder::Named(m), NestedBreederGenome::Named(g), NestedBreederGenome::Named(c)) => {
                &&& c@.len() == m@.len()
                &&& forall|i: int|
                    0 <= i < m@.len() ==> c@[i].0@ == (#[trigger] m@[i]).0@ && m@[i].1.can_mutate(
                        g@[place_of(g@, m@[i].0@)->0].1,
                        c@[i].1,
                    )
            },
            _ => false,
        }
    }

    /// Whether breeding `gene1` with `gene2` can give `child`, part by part
    /// as in a mutation.
    pub open spec fn can_breed(
        self,
        gene1: NestedBreederGenome,
        gene2: NestedBreederGenome,
        child: NestedBreederGenome,
    ) -> bool
        decreases self,
    {
        match (self, gene1, gene2, child) {
            (
                NestedBreeder::Vec(b),
                NestedBreederGenome::Vec(g1),
                NestedBreederGenome::Vec(g2),
                NestedBreederGenome::Vec(c),
            ) => b.crossing(&g1, &g2, &c),
            (
                NestedBreeder::Float(b),
                NestedBreederGenome::Float(g1),
                NestedBreederGenome::Float(g2),
                NestedBreederGenome::Float(c),
            ) => b.crossing(&g1, &g2, &c),
            (
                NestedBreeder::Network(b),
                NestedBreederGenome::Network(g1),
                NestedBreederGenome::Network(g2),
                NestedBreederGenome::Network(c),
            ) => b.crossing(&g1, &g2, &c),
            (
                NestedBreeder::List(l),
                NestedBreederGenome::List(g1),
                NestedBreederGenome::List(g2),
                NestedBreederGenome::List(c),
            ) => {
                &&& c@.len() == shorter(l@.len(), shorter(g1@.len(), g2@.len()))
                &&& forall|i: int|
                    0 <= i < c@.len() ==> (#[trigger] l@[i]).can_breed(g1@[i], g2@[i], c@[i])
            },
            (
                NestedBreeder::Named(m),
                NestedBreederGenome::Named(g1),
                NestedBreederGenome::Named(g2),
                NestedBreederGenome::Named(c),
            ) => {
                &&& c@.len() == m@.len()
                &&& forall|i: int|
                    0 <= i < m@.len() ==> c@[i].0@ == (#[trigger] m@[i]).0@ && m@[i].1.can_breed(
                        g1@[place_of(g1@, m@[i].0@)->0].1,
                        g2@[place_of(g2@, m@[i].0@)->0].1,
                        c@[i].1,
                    )
            },
            _ => false,
        }
    }

    /// Whether `genome` can be made from nothing: every part by its
    /// breeder, in the breeder's order and under its names.
    pub open spec fn can_make(self, genome: NestedBreederGenome) -> bool
        decreases self,
    {
        match (self, genome) {
            (NestedBreeder::Vec(b), NestedBreederGenome::Vec(g)) => b.fresh(&g),
            (NestedBreeder::Float(b), NestedBreederGenome::Float(g)) => b.fresh(&g),
            (NestedBreeder::Network(b), NestedBreederGenome::Network(g)) => b.fresh(&g),
            (NestedBreeder::List(l), NestedBreederGenome::List(g)) => {
                &&& g@.len() == l@.len()
                &&& forall|i: int| 0 <= i < l@.len() ==> (#[trigger] l@[i]).can_make(g@[i])
            },
            (NestedBreeder::Named(m), NestedBreederGenome::Named(g)) => {
                &&& g@.len() == m@.len()
                &&& forall|i: int|
                    0 <= i < m@.len() ==> g@[i].0@ == (#[trigger] m@[i]).0@ && m@[i].1.can_make(
                        g@[i].1,
                    )
            },
            _ => false,
        }
    }

    /// A genome that equals one with the breeder's shape in all that the
    /// breeders read has that shape too.
    pub proof fn lemma_takes_alike(self, source: NestedBreederGenome, copy: NestedBreederGenome)
        requires
            self.takes(source),
            source.alike(copy),
        ensures
            self.takes(copy),
        decreases self,
    {
        match (self, source, copy) {
            (NestedBreeder::List(l), NestedBreederGenome::List(g), NestedBreederGenome::List(c)) => {
                assert forall|i: int| 0 <= i < shorter(l@.len(), c@.len()) implies (
                #[trigger] l@[i]).takes(c@[i]) by {
                    assert(g@[i].alike(c@[i]));
                    l@[i].lemma_takes_alike(g@[i], c@[i]);
                }
            },
            (NestedBreeder::Named(m), NestedBreederGenome::Named(g), NestedBreederGenome::Named(c)) => {
                assert forall|i: int| 0 <= i < m@.len() implies (place_of(
                    c@,
                    (#[trigger] m@[i]).0@,
                ) matches Some(j) && m@[i].1.takes(c@[j].1)) by {
                    let key = m@[i].0@;
                    lemma_place_of(g@, key);
                    lemma_place_of(c@, key);
                    let j = place_of(g@, key)->0;
                    assert(g@[j].0@ == c@[j].0@ && g@[j].1.alike(c@[j].1));
                    assert forall|k: int| 0 <= k < j implies (#[trigger] c@[k]).0@ != key by {
                        assert(g@[k].0@ == c@[k].0@);
                    }
                    assert(place_of(c@, key) == Some(j));
                    m@[i].1.lemma_takes_alike(g@[j].1, c@[j].1);
                }
            },
            _ => {},
        }
    }

    /// A changed copy of the genome, part by part.
    pub fn mutate_nested(&self, gene: &NestedBreederGenome) -> (child: NestedBreederGenome)
        requires
            self.usable(),
            self.takes(*gene),
        ensures
            self.takes(child),
            self.can_mutate(*gene, child),
        decreases self,
    {
        match self {
            NestedBreeder::Vec(b) => NestedBreederGenome::Vec(b.mutate(gene.unwrap_vec())),
            NestedBreeder::Float(b) => NestedBreederGenome::Float(b.mutate(gene.unwrap_float())),
            NestedBreeder::Network(b) => NestedBreederGenome::Network(b.mutate(gene.unwrap_network())),
            NestedBreeder::List(l) => {
                let g = gene.unwrap_list();
                let n: usize = if l.len() <= g.len() {
                    l.len()
                } else {
                    g.len()
                };
                let mut out: Vec<NestedBreederGenome> = Vec::with_capacity(n);
                let mut i: usize = 0;
                while i < n
                    invariant
                        0 <= i <= n,
                        n == shorter(l@.len(), g@.len()),
                        out@.len() == i,
                        decreases_to!(*self => l@),
                        forall|k: int| 0 <= k < l@.len() ==> (#[trigger] l@[k]).usable(),
                        forall|k: int| 0 <= k < n ==> (#[trigger] l@[k]).takes(g@[k]),
                        forall|k: int|
                            0 <= k < i ==> (#[trigger] l@[k]).takes(out@[k]) && l@[k].can_mutate(
                                g@[k],
                                out@[k],
                            ),
                    decreases n - i,
                {
                    proof {
                        assert(decreases_to!(l@ => l@[i as int]));
                    }
                    out.push(l[i].mutate_nested(&g[i]));
                    i += 1;
                }
                NestedBreederGenome::List(out)
            },
            NestedBreeder::Named(m) => {
                let g = gene.unwrap_map();
                let n: usize = m.len();
                let mut out: Vec<(String, NestedBreederGenome)> = Vec::with_capacity(n);
                let mut i: usize = 0;
                while i < n
                    invariant
                        0 <= i <= n,
                        n == m@.len(),
                        out@.len() == i,
                        decreases_to!(*self => m@),
                        forall|k: int| 0 <= k < m@.len() ==> (#[trigger] m@[k]).1.usable(),
                        forall|k: int|
                            0 <= k < m@.len() ==> (place_of(g@, (#[trigger] m@[k]).0@) matches Some(j)
                                && m@[k].1.takes(g@[j].1)),
                        forall|k: int|
                            0 <= k < i ==> out@[k].0@ == (#[trigger] m@[k]).0@ && m@[k].1.takes(
                                out@[k].1,
                            ) && m@[k].1.can_mutate(g@[place_of(g@, m@[k].0@)->0].1, out@[k].1),
                    decreases n - i,
                {
                    proof {
                        assert(decreases_to!(m@ => m@[i as int]));
                        assert(decreases_to!(m@[i as int] => m@[i as int].1));
                        lemma_place_of(g@, m@[i as int].0@);
                    }
                    let j: usize = find_entry(g, &m[i].0).unwrap();
                    out.push((m[i].0.clone(), m[i].1.mutate_nested(&g[j].1)));
                    i += 1;
                }
                proof {
                    assert forall|k: int| 0 <= k < m@.len() implies (place_of(
                        out@,
                        (#[trigger] m@[k]).0@,
                    ) matches Some(j) && m@[k].1.takes(out@[j].1)) by {
                        assert forall|a: int, b: int| 0 <= a < b < out@.len() implies (
                        #[trigger] out@[a]).0@ != (#[trigger] out@[b]).0@ by {
                            assert(out@[a].0@ == m@[a].0@ && out@[b].0@ == m@[b].0@);
                        }
                        assert(out@[k].0@ == m@[k].0@);
                        lemma_place_of_own(out@, k);
                    }
                }
                NestedBreederGenome::Named(out)
            },
        }
    }

    /// A child of two genomes, part by part.
    pub fn breed_nested(&self, gene1: &NestedBreederGenome, gene2: &NestedBreederGenome) -> (child:
        NestedBreederGenome)
        requires
            self.usable(),
            self.takes(*gene1),
            self.takes(*gene2),
        ensures
            self.takes(child),
            self.can_breed(*gene1, *gene2, child),
        decreases self,
    {
        match self {
            NestedBreeder::Vec(b) => {
                let g1 = gene1.unwrap_vec();
                let g2 = gene2.unwrap_vec();
                NestedBreederGenome::Vec(b.breed(g1, g2))
            },
            NestedBreeder::Float(b) => {
                let g1 = gene1.unwrap_float();
                let g2 = gene2.unwrap_float();
                NestedBreederGenome::Float(b.breed(g1, g2))
            },
            NestedBreeder::Network(b) => {
                let g1 = gene1.unwrap_network();
                let g2 = gene2.unwrap_network();
                NestedBreederGenome::Network(b.breed(g1, g2))
            },
            NestedBreeder::List(l) => {
                let g1 = gene1.unwrap_list();
                let g2 = gene2.unwrap_list();
                let m: usize = if g1.len() <= g2.len() {
                    g1.len()
                } else {
                    g2.len()
                };
                let n: usize = if l.len() <= m {
                    l.len()
                } else {
                    m
                };
                let mut out: Vec<NestedBreederGenome> = Vec::with_capacity(n);
                let mut i: usize = 0;
                while i < n
                    invariant
                        0 <= i <= n,
                        n == shorter(l@.len(), shorter(g1@.len(), g2@.len())),
                        out@.len() == i,
                        decreases_to!(*self => l@),
                        forall|k: int| 0 <= k < l@.len() ==> (#[trigger] l@[k]).usable(),
                        forall|k: int| 0 <= k < n ==> (#[trigger] l@[k]).takes(g1@[k]),
                        forall|k: int| 0 <= k < n ==> (#[trigger] l@[k]).takes(g2@[k]),
                        forall|k: int|
                            0 <= k < i ==> (#[trigger] l@[k]).takes(out@[k]) && l@[k].can_breed(
                                g1@[k],
                                g2@[k],
                                out@[k],
                            ),
                    decreases n - i,
                {
                    proof {
                        assert(decreases_to!(l@ => l@[i as int]));
                    }
                    out.push(l[i].breed_nested(&g1[i], &g2[i]));
                    i += 1;
                }
                NestedBreederGenome::List(out)
            },
            NestedBreeder::Named(m) => {
                let g1 = gene1.unwrap_map();
                let g2 = gene2.unwrap_map();
                let n: usize = m.len();
                let mut out: Vec<(String, NestedBreederGenome)> = Vec::with_capacity(n);
                let mut i: usize = 0;
                while i < n
                    invariant
                        0 <= i <= n,
                        n == m@.len(),
                        out@.len() == i,
                        decreases_to!(*self => m@),
                        forall|k: int| 0 <= k < m@.len() ==> (#[trigger] m@[k]).1.usable(),
                        forall|k: int|
                            0 <= k < m@.len() ==> (place_of(g1@, (#[trigger] m@[k]).0@) matches Some(j)
                                && m@[k].1.takes(g1@[j].1)),
                        forall|k: int|
                            0 <= k < m@.len() ==> (place_of(g2@, (#[trigger] m@[k]).0@) matches Some(j)
                                && m@[k].1.takes(g2@[j].1)),
                        forall|k: int|
                            0 <= k < i ==> out@[k].0@ == (#[trigger] m@[k]).0@ && m@[k].1.takes(
                                out@[k].1,
                            ) && m@[k].1.can_breed(
                                g1@[place_of(g1@, m@[k].0@)->0].1,
                                g2@[place_of(g2@, m@[k].0@)->0].1,
                                out@[k].1,
                            ),
                    decreases n - i,
                {
                    proof {
                        assert(decreases_to!(m@ => m@[i as int]));
                        assert(decreases_to!(m@[i as int] => m@[i as int].1));
                        lemma_place_of(g1@, m@[i as int].0@);
                        lemma_place_of(g2@, m@[i as int].0@);
                    }
                    let j1: usize = find_entry(g1, &m[i].0).unwrap();
                    let j2: usize = find_entry(g2, &m[i].0).unwrap();
                    out.push((m[i].0.clone(), m[i].1.breed_nested(&g1[j1].1, &g2[j2].1)));
                    i += 1;
                }
                proof {
                    assert forall|k: int| 0 <= k < m@.len() implies (place_of(
                        out@,
                        (#[trigger] m@[k]).0@,
                    ) matches Some(j) && m@[k].1.takes(out@[j].1)) by {
                        assert forall|a: int, b: int| 0 <= a < b < out@.len() implies (
                        #[trigger] out@[a]).0@ != (#[trigger] out@[b]).0@ by {
                            assert(out@[a].0@ == m@[a].0@ && out@[b].0@ == m@[b].0@);
                        }
                        assert(out@[k].0@ == m@[k].0@);
                        lemma_place_of_own(out@, k);
                    }
                }
                NestedBreederGenome::Named(out)
            },
        }
    }

    /// A genome made from nothing, part by part.
    pub fn random_nested(&self) -> (genome: NestedBreederGenome)
        requires
            self.usable(),
        ensures
            self.takes(genome),
            self.can_make(genome),
        decreases self,
    {
        match self {
            NestedBreeder::Vec(b) => NestedBreederGenome::Vec(b.random()),
            NestedBreeder::Float(b) => NestedBreederGenome::Float(b.random()),
            NestedBreeder::Network(b) => NestedBreederGenome::Network(b.random()),
            NestedBreeder::List(l) => {
                let n: usize = l.len();
                let mut out: Vec<NestedBreederGenome> = Vec::with_capacity(n);
                let mut i: usize = 0;
                while i < n
                    invariant
                        0 <= i <= n,
                        n == l@.len(),
                        out@.len() == i,
                        decreases_to!(*self => l@),
                        forall|k: int| 0 <= k < l@.len() ==> (#[trigger] l@[k]).usable(),
                        forall|k: int|
                            0 <= k < i ==> (#[trigger] l@[k]).takes(out@[k]) && l@[k].can_make(
                                out@[k],
                            ),
                    decreases n - i,
                {
                    proof {
                        assert(decreases_to!(l@ => l@[i as int]));
                    }
                    out.push(l[i].random_nested());
                    i += 1;
                }
                NestedBreederGenome::List(out)
            },
            NestedBreeder::Named(m) => {
                let n: usize = m.len();
                let mut out: Vec<(String, NestedBreederGenome)> = Vec::with_capacity(n);
                let mut i: usize = 0;
                while i < n
                    invariant
                        0 <= i <= n,
                        n == m@.len(),
                        out@.len() == i,
                        decreases_to!(*self => m@),
                        forall|k: int| 0 <= k < m@.len() ==> (#[trigger] m@[k]).1.usable(),
                        forall|k: int|
                            0 <= k < i ==> out@[k].0@ == (#[trigger] m@[k]).0@ && m@[k].1.takes(
                                out@[k].1,
                            ) && m@[k].1.can_make(out@[k].1),
                    decreases n - i,
                {
                    proof {
                        assert(decreases_to!(m@ => m@[i as int]));
                        assert(decreases_to!(m@[i as int] => m@[i as int].1));
                    }
                    out.push((m[i].0.clone(), m[i].1.random_nested()));
                    i += 1;
                }
                proof {
                    assert forall|k: int| 0 <= k < m@.len() implies (place_of(
                        out@,
                        (#[trigger] m@[k]).0@,
                    ) matches Some(j) && m@[k].1.takes(out@[j].1)) by {
                        assert forall|a: int, b: int| 0 <= a < b < out@.len() implies (
                        #[trigger] out@[a]).0@ != (#[trigger] out@[b]).0@ by {
                            assert(out@[a].0@ == m@[a].0@ && out@[b].0@ == m@[b].0@);
                        }
                        assert(out@[k].0@ == m@[k].0@);
                        lemma_place_of_own(out@, k);
                    }
                }
                NestedBreederGenome::Named(out)
            },
        }
    }

    /// Whether the two genomes are the same in every part.
    pub fn is_same_nested(&self, gene1: &NestedBreederGenome, gene2: &NestedBreederGenome) -> (r:
        bool)
        requires
            self.usable(),
            self.takes(*gene1),
            self.takes(*gene2),
        ensures
            r == self.alike(*gene1, *gene2),
        decreases self,
    {
        match self {
            NestedBreeder::Vec(b) => b.is_same(gene1.unwrap_vec(), gene2.unwrap_vec()),
            NestedBreeder::Float(b) => b.is_same(gene1.unwrap_float(), gene2.unwrap_float()),
            NestedBreeder::Network(b) => b.is_same(gene1.unwrap_network(), gene2.unwrap_network()),
            NestedBreeder::List(l) => {
                let g1 = gene1.unwrap_list();
                let g2 = gene2.unwrap_list();
                let m: usize = if g1.len() <= g2.len() {
                    g1.len()
                } else {
                    g2.len()
                };
                let n: usize = if l.len() <= m {
                    l.len()
                } else {
                    m
                };
                let mut all: bool = true;
                let mut i: usize = 0;
                while i < n
                    invariant
                        0 <= i <= n,
                        n == shorter(l@.len(), shorter(g1@.len(), g2@.len())),
                        decreases_to!(*self => l@),
                        forall|k: int| 0 <= k < l@.len() ==> (#[trigger] l@[k]).usable(),
                        forall|k: int| 0 <= k < n ==> (#[trigger] l@[k]).takes(g1@[k]),
                        forall|k: int| 0 <= k < n ==> (#[trigger] l@[k]).takes(g2@[k]),
                        all == (forall|k: int|
                            0 <= k < i ==> (#[trigger] l@[k]).alike(g1@[k], g2@[k])),
                    decreases n - i,
                {
                    proof {
                        assert(decreases_to!(l@ => l@[i as int]));
                    }
                    let here: bool = l[i].is_same_nested(&g1[i], &g2[i]);
                    all = all && here;
                    i += 1;
                }
                all
            },
            NestedBreeder::Named(m) => {
                let g1 = gene1.unwrap_map();
                let g2 = gene2.unwrap_map();
                let n: usize = m.len();
                let mut all: bool = true;
                let mut i: usize = 0;
                while i < n
                    invariant
                        0 <= i <= n,
                        n == m@.len(),
                        decreases_to!(*self => m@),
                        forall|k: int| 0 <= k < m@.len() ==> (#[trigger] m@[k]).1.usable(),
                        forall|k: int|
                            0 <= k < m@.len() ==> (place_of(g1@, (#[trigger] m@[k]).0@) matches Some(j)
                                && m@[k].1.takes(g1@[j].1)),
                        forall|k: int|
                            0 <= k < m@.len() ==> (place_of(g2@, (#[trigger] m@[k]).0@) matches Some(j)
                                && m@[k].1.takes(g2@[j].1)),
                        all == (forall|k: int|
                            0 <= k < i ==> (#[trigger] m@[k]).1.alike(
                                g1@[place_of(g1@, m@[k].0@)->0].1,
                                g2@[place_of(g2@, m@[k].0@)->0].1,
                            )),
                    decreases n - i,
                {
                    proof {
                        assert(decreases_to!(m@ => m@[i as int]));
                        assert(decreases_to!(m@[i as int] => m@[i as int].1));
                        lemma_place_of(g1@, m@[i as int].0@);
                        lemma_place_of(g2@, m@[i as int].0@);
                    }
                    let j1: usize = find_entry(g1, &m[i].0).unwrap();
                    let j2: usize = find_entry(g2, &m[i].0).unwrap();
                    let here: bool = m[i].1.is_same_nested(&g1[j1].1, &g2[j2].1);
                    all = all && here;
                    i += 1;
                }
                all
            },
        }
    }
}

impl Breeder for NestedBreeder {
    type Genome = NestedBreederGenome;

    open spec fn wf(&self) -> bool {
        self.usable()
    }

    open spec fn fits(&self, genome: &NestedBreederGenome) -> bool {
        self.takes(*genome)
    }

    open spec fn same(&self, gene1: &NestedBreederGenome, gene2: &NestedBreederGenome) -> bool {
        self.alike(*gene1, *gene2)
    }

    open spec fn mutation(&self, gene: &NestedBreederGenome, child: &NestedBreederGenome) -> bool {
        self.can_mutate(*gene, *child)
    }

    open spec fn crossing(
        &self,
        gene1: &NestedBreederGenome,
        gene2: &NestedBreederGenome,
        child: &NestedBreederGenome,
    ) -> bool {
        self.can_breed(*gene1, *gene2, *child)
    }

    open spec fn fresh(&self, genome: &NestedBreederGenome) -> bool {
        self.can_make(*genome)
    }

    fn mutate(&self, gene: &NestedBreederGenome) -> (child: NestedBreederGenome) {
        self.mutate_nested(gene)
    }

    fn breed(&self, gene1: &NestedBreederGenome, gene2: &NestedBreederGenome) -> (child:
        NestedBreederGenome) {
        self.breed_nested(gene1, gene2)
    }

    fn random(&self) -> (genome: NestedBreederGenome) {
        self.random_nested()
    }

    fn is_same(&self, gene1: &NestedBreederGenome, gene2: &NestedBreederGenome) -> (r: bool) {
        self.is_same_nested(gene1, gene2)
    }

    proof fn fits_cloned(&self, source: NestedBreederGenome, copy: NestedBreederGenome) {
        if source != copy {
            self.lemma_takes_alike(source, copy);
        }
    }
}

} // verus!
