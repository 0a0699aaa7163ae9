//! The genome: a list of connection genes kept in the order of their links.
use vstd::prelude::*;
use super::distance::{
    DISJOINT_FACTOR, WEIGHT_FACTOR, distance, lemma_matching_bound, matching, partner, weight_gap,
};
use super::gene::Gene;
use super::genes::{
    has_link, highest, inserted, lemma_highest_bounds, lemma_inserted_grows, lemma_inserted_last,
    lemma_inserted_links,
    lemma_inserted_sorted, lemma_link_at_rank, lemma_rank_is_boundary, lemma_rank_splits,
    lemma_same_links_highest, lemma_same_links_sorted, lemma_same_links_within,
    lemma_update_within, max3, rank, sorted,
};
use super::mutation::{Mutation, halves, renewed};
use crate::fixed::{UNIT, magnitude_of, sat, saturate};
use crate::utils::{random, random_between};

verus! {

/// The list after the gene at `index` changed its `enabled` flag.
pub open spec fn toggled(s: Seq<Gene>, index: int) -> Seq<Gene> {
    s.update(index, s[index].with_enabled(!s[index].enabled))
}

/// The list after the neuron `new_id` was put on the link of the gene at
/// `index`: that gene is disabled, and the two genes that lead into and out
/// of the new neuron are added.
pub open spec fn split(s: Seq<Gene>, index: int, new_id: usize) -> Seq<Gene> {
    let h = halves(s[index], new_id);
    inserted(inserted(s.update(index, s[index].with_enabled(false)), h.0), h.1)
}

/// Whether `after` is `before` with a weight drawn anew: a perturbation of
/// the old weight, which has the chance `probability`, or a replacement.
pub open spec fn reweighted(before: Gene, after: Gene, probability: i64) -> bool {
    exists|fresh: i64, perturbation: bool|
        {
            &&& -UNIT <= fresh < UNIT
            &&& perturbation ==> 0 < probability
            &&& !perturbation ==> probability < UNIT
            &&& after == before.with_weight(#[trigger] renewed(before.weight, fresh, perturbation))
        }
}

/// Whether `after` is `before` with a bias drawn anew: a perturbation of
/// the old bias, which has the chance `probability`, or a replacement.
pub open spec fn rebiased(before: Gene, after: Gene, probability: i64) -> bool {
    exists|fresh: i64, perturbation: bool|
        {
            &&& -UNIT <= fresh < UNIT
            &&& perturbation ==> 0 < probability
            &&& !perturbation ==> probability < UNIT
            &&& after == before.with_bias(#[trigger] renewed(before.bias, fresh, perturbation))
        }
}

/// Whether `b` is `a` after two neurons with ids up to `last` were connected:
/// a new enabled gene without bias and with a weight between minus one and
/// one was added.
pub open spec fn connected(a: Seq<Gene>, last: usize, b: Seq<Gene>) -> bool {
    exists|x: usize, y: usize, weight: i64|
        x <= last && y <= last && -UNIT <= weight < UNIT && b == inserted(
            a,
            #[trigger] Gene::new_link(x, y, weight),
        )
}

/// Whether `b` is `a` after the neuron after `last` was put on one gene's
/// link.
pub open spec fn one_split(a: Seq<Gene>, last: usize, b: Seq<Gene>) -> bool {
    exists|index: int| 0 <= index < a.len() && b == #[trigger] split(a, index, (last + 1) as usize)
}

/// Whether `b` is `a` with every weight drawn anew.
pub open spec fn all_reweighted(a: Seq<Gene>, b: Seq<Gene>, probability: i64) -> bool {
    &&& a.len() == b.len()
    &&& forall|i: int| 0 <= i < a.len() ==> reweighted(a[i], #[trigger] b[i], probability)
}

/// Whether `b` is `a` with one gene's `enabled` flag flipped.
pub open spec fn one_toggled(a: Seq<Gene>, b: Seq<Gene>) -> bool {
    exists|index: int| 0 <= index < a.len() && b == #[trigger] toggled(a, index)
}

/// Whether `b` is `a` with one gene's bias drawn anew.
pub open spec fn one_rebiased(a: Seq<Gene>, b: Seq<Gene>, probability: i64) -> bool {
    exists|index: int, gene: Gene|
        0 <= index < a.len() && rebiased(a[index], gene, probability) && b == #[trigger] a.update(
            index,
            gene,
        )
}

/// Whether `b` is a sorted list that has every link of `a` and is no
/// shorter.
pub open spec fn grown_from(a: Seq<Gene>, b: Seq<Gene>) -> bool {
    &&& sorted(b)
    &&& b.len() >= a.len()
    &&& forall|g: Gene| has_link(a, g) ==> has_link(b, g)
}

/// A list with the links of a sorted one in the same places has grown from
/// it.
pub proof fn lemma_same_links_grown(a: Seq<Gene>, b: Seq<Gene>)
    requires
        sorted(a),
        a.len() == b.len(),
        forall|i: int| 0 <= i < a.len() ==> (#[trigger] b[i]).same_link(a[i]),
    ensures
        grown_from(a, b),
{
    lemma_same_links_sorted(a, b);
    assert forall|g: Gene| has_link(a, g) implies has_link(b, g) by {
        let i = choose|i: int| 0 <= i < a.len() && a[i].same_link(g);
        assert(b[i].same_link(a[i]));
        assert(b[i].same_link(g));
    }
}

/// What grew from a list that grew from another grew from that one.
pub proof fn lemma_grown_on(a: Seq<Gene>, b: Seq<Gene>, c: Seq<Gene>)
    requires
        grown_from(a, b),
        grown_from(b, c),
    ensures
        grown_from(a, c),
{
}

/// Every operator that changes a sorted list leaves a list that has grown
/// from it: sorted, no shorter, and with every link that was there.
pub proof fn lemma_operators_grow(a: Seq<Gene>, last: usize, b: Seq<Gene>, probability: i64)
    requires
        sorted(a),
        connected(a, last, b) || one_split(a, last, b) || all_reweighted(a, b, probability)
            || one_toggled(a, b) || one_rebiased(a, b, probability),
    ensures
        grown_from(a, b),
{
    if connected(a, last, b) {
        let (x, y, weight) = choose|x: usize, y: usize, weight: i64|
            x <= last && y <= last && -UNIT <= weight < UNIT && b == inserted(
                a,
                #[trigger] Gene::new_link(x, y, weight),
            );
        let g = Gene::new_link(x, y, weight);
        lemma_inserted_sorted(a, g);
        lemma_inserted_grows(a, g);
        lemma_inserted_links(a, g);
    } else if one_split(a, last, b) {
        let index = choose|index: int|
            0 <= index < a.len() && b == #[trigger] split(a, index, (last + 1) as usize);
        let h = halves(a[index], (last + 1) as usize);
        let a1 = a.update(index, a[index].with_enabled(false));
        assert forall|k: int| 0 <= k < a.len() implies (#[trigger] a1[k]).same_link(a[k]) by {}
        lemma_same_links_grown(a, a1);
        let a2 = inserted(a1, h.0);
        lemma_inserted_sorted(a1, h.0);
        lemma_inserted_grows(a1, h.0);
        lemma_inserted_links(a1, h.0);
        lemma_inserted_sorted(a2, h.1);
        lemma_inserted_grows(a2, h.1);
        lemma_inserted_links(a2, h.1);
        lemma_grown_on(a, a1, a2);
        lemma_grown_on(a, a2, b);
    } else if all_reweighted(a, b, probability) {
        assert forall|k: int| 0 <= k < a.len() implies (#[trigger] b[k]).same_link(a[k]) by {
            assert(reweighted(a[k], b[k], probability));
        }
        lemma_same_links_grown(a, b);
    } else if one_toggled(a, b) {
        let index = choose|index: int| 0 <= index < a.len() && b == #[trigger] toggled(a, index);
        assert forall|k: int| 0 <= k < a.len() implies (#[trigger] b[k]).same_link(a[k]) by {}
        lemma_same_links_grown(a, b);
    } else {
        let (index, gene) = choose|index: int, gene: Gene|
            0 <= index < a.len() && rebiased(a[index], gene, probability) && b == #[trigger] a.update(
                index,
                gene,
            );
        assert forall|k: int| 0 <= k < a.len() implies (#[trigger] b[k]).same_link(a[k]) by {}
        lemma_same_links_grown(a, b);
    }
}

/// Connecting two neurons never shortens the list, and leaves it with a
/// gene.
pub proof fn lemma_inserted_len(a: Seq<Gene>, b: Seq<Gene>, last: usize)
    requires
        sorted(a),
        b == a || connected(a, last, b),
    ensures
        b.len() >= a.len(),
        connected(a, last, b) ==> b.len() > 0,
{
    if connected(a, last, b) {
        let (x, y, weight) = choose|x: usize, y: usize, weight: i64|
            x <= last && y <= last && -UNIT <= weight < UNIT && b == inserted(
                a,
                #[trigger] Gene::new_link(x, y, weight),
            );
        lemma_rank_splits(a, Gene::new_link(x, y, weight));
    }
}

/// Putting a neuron on a link never shortens the list.
pub proof fn lemma_split_len(a: Seq<Gene>, b: Seq<Gene>, last: usize)
    requires
        sorted(a),
        b == a || one_split(a, last, b),
    ensures
        b.len() >= a.len(),
{
    if b != a {
        let index = choose|index: int|
            0 <= index < a.len() && b == #[trigger] split(a, index, (last + 1) as usize);
        let h = halves(a[index], (last + 1) as usize);
        let a1 = a.update(index, a[index].with_enabled(false));
        assert forall|k: int| 0 <= k < a.len() implies (#[trigger] a1[k]).same_link(a[k]) by {}
        lemma_same_links_sorted(a, a1);
        lemma_inserted_grows(a1, h.0);
        lemma_inserted_sorted(a1, h.0);
        lemma_inserted_grows(inserted(a1, h.0), h.1);
    }
}

/// Flipping a flag keeps the length.
pub proof fn lemma_toggled_len(a: Seq<Gene>, b: Seq<Gene>)
    requires
        b == a || one_toggled(a, b),
    ensures
        b.len() == a.len(),
{
}

/// The child that the coins select when `first` is crossed with `second`:
/// it has the genes of `first`; where the coin shows `true`, or `second`
/// has no gene with that link, as `first` has it, otherwise as `second` has
/// it.
pub open spec fn crossed_by(first: Seq<Gene>, second: Seq<Gene>, coins: Seq<bool>) -> Seq<Gene> {
    Seq::new(
        first.len(),
        |i: int|
            if coins[i] || !has_link(second, first[i]) {
                first[i]
            } else {
                partner(second, first[i])
            },
    )
}

/// Whether `child` can come of crossing `first` with `second`: it has the
/// genes of `first`, each either as `first` has it or as `second` has the
/// gene with the same link.
pub open spec fn crossed(first: Seq<Gene>, second: Seq<Gene>, child: Seq<Gene>) -> bool {
    &&& child.len() == first.len()
    &&& forall|i: int|
        0 <= i < first.len() ==> (#[trigger] child[i]) == first[i] || (has_link(second, first[i])
            && child[i] == partner(second, first[i]))
}

/// A child of a crossing has the links of the first parent, in the same
/// places.
pub proof fn law_crossing_keeps_links(first: Seq<Gene>, second: Seq<Gene>, child: Seq<Gene>)
    requires
        sorted(first),
        sorted(second),
        crossed(first, second, child),
    ensures
        sorted(child),
        forall|i: int| 0 <= i < first.len() ==> (#[trigger] child[i]).same_link(first[i]),
        forall|g: Gene| has_link(child, g) <==> has_link(first, g),
        highest(child) == highest(first),
{
    assert forall|i: int| 0 <= i < first.len() implies (#[trigger] child[i]).same_link(
        first[i],
    ) by {
        lemma_link_at_rank(second, first[i]);
    }
    lemma_same_links_sorted(first, child);
    assert forall|g: Gene| has_link(child, g) <==> has_link(first, g) by {
        if has_link(child, g) {
            let i = choose|i: int| 0 <= i < child.len() && child[i].same_link(g);
            assert(child[i].same_link(first[i]));
            assert(first[i].same_link(g));
        }
        if has_link(first, g) {
            let i = choose|i: int| 0 <= i < first.len() && first[i].same_link(g);
            assert(child[i].same_link(first[i]));
            assert(child[i].same_link(g));
        }
    }
    lemma_same_links_highest(first, child);
}

/// The place of the gene from input `i` to output `o` in a fully connected
/// genome with `outputs` outputs.
pub open spec fn cell(i: int, o: int, outputs: int) -> int {
    i * outputs + o
}

/// Whether `s` is the fully connected genome of `inputs` input and `outputs`
/// output neurons: one enabled gene without bias from every input to every
/// output, the outputs numbered after the inputs, each weight between minus
/// one and one.
pub open spec fn initial(s: Seq<Gene>, inputs: usize, outputs: usize) -> bool {
    &&& s.len() == inputs * outputs
    &&& forall|i: int, o: int|
        0 <= i < inputs && 0 <= o < outputs ==> {
            let g = s[#[trigger] cell(i, o, outputs as int)];
            &&& g.in_neuron_id == i
            &&& g.out_neuron_id == inputs + o
            &&& g.enabled
            &&& g.bias == 0
            &&& -UNIT <= g.weight < UNIT
        }
}

/// The cells of a grid are numbered row by row.
pub proof fn lemma_cell_order(a: int, b: int, i: int, o: int, outputs: int)
    requires
        0 <= b < outputs,
        0 <= o <= outputs,
        0 <= a,
        a < i || (a == i && b < o),
    ensures
        0 <= cell(a, b, outputs) < cell(i, o, outputs),
{
    assert(0 <= a * outputs + b < i * outputs + o) by (nonlinear_arith)
        requires
            0 <= b < outputs,
            0 <= o <= outputs,
            0 <= a,
            a < i || (a == i && b < o),
    ;
}

/// The sum of the genes' weights.
pub open spec fn weights_sum(s: Seq<Gene>) -> int
    decreases s.len(),
{
    if s.len() == 0 {
        0
    } else {
        weights_sum(s.drop_last()) + s.last().weight
    }
}

/// A directed graph of neurons, written down as its connection genes.
///
/// The genes are kept in the strict order of their links, so no link occurs
/// twice, and `last_neuron_id` is at least every neuron id in use.
#[derive(Debug)]
pub struct NeatGenome {
    genes: Vec<Gene>,
    last_neuron_id: usize,
}

impl View for NeatGenome {
    type V = Seq<Gene>;

    /// The genes in their order.
    closed spec fn view(&self) -> Seq<Gene> {
        self.genes@
    }
}

impl NeatGenome {
    /// The highest neuron id ever used.
    pub closed spec fn last(&self) -> usize {
        self.last_neuron_id
    }

    /// The genome's invariant.
    pub open spec fn wf(&self) -> bool {
        &&& sorted(self@)
        &&& forall|i: int|
            0 <= i < self@.len() ==> (#[trigger] self@[i]).in_neuron_id <= self.last()
                && self@[i].out_neuron_id <= self.last()
        &&& self.last() < usize::MAX
    }

    /// Whether `gene` may be added: a gene that links a neuron to itself
    /// must name a neuron that is there already.
    pub open spec fn admits(&self, gene: Gene) -> bool {
        &&& gene.in_neuron_id < usize::MAX
        &&& gene.out_neuron_id < usize::MAX
        &&& (gene.in_neuron_id == gene.out_neuron_id ==> gene.in_neuron_id <= self.last())
    }

    /// Get vector of all genes in this genome
    pub fn get_genes(&self) -> (genes: &Vec<Gene>)
        ensures
            genes@ == self@,
    {
        &self.genes
    }

    /// The highest neuron id ever used.
    pub fn last_neuron_id(&self) -> (id: usize)
        ensures
            id == self.last(),
    {
        self.last_neuron_id
    }

    /// Number of neurons: ids start at zero.
    pub fn len(&self) -> (n: usize)
        requires
            self.wf(),
        ensures
            n == self.last() + 1,
    {
        self.last_neuron_id + 1
    }

    /// Whether the genome has no neuron, which never holds.
    pub fn is_empty(&self) -> (r: bool)
        requires
            self.wf(),
        ensures
            !r,
    {
        self.len() == 0
    }

    /// Total num genes
    pub fn total_genes(&self) -> (n: usize)
        ensures
            n == self@.len(),
    {
        self.genes.len()
    }

    /// Whether `gene` may be added.
    pub fn accepts(&self, gene: &Gene) -> (r: bool)
        requires
            self.wf(),
        ensures
            r == self.admits(*gene),
    {
        gene.in_neuron_id < usize::MAX && gene.out_neuron_id < usize::MAX && (gene.in_neuron_id
            != gene.out_neuron_id || gene.in_neuron_id <= self.last_neuron_id)
    }

    /// Looks for the link of `gene` by bisection: `Ok` with the place of the
    /// gene that has it, or `Err` with the place where it would stand.
    pub fn search(&self, gene: &Gene) -> (r: Result<usize, usize>)
        requires
            self.wf(),
        ensures
            match r {
                Ok(p) => p == rank(self@, *gene) && p < self@.len() && self@[p as int].same_link(
                    *gene,
                ),
                Err(p) => p == rank(self@, *gene) && p <= self@.len() && !has_link(self@, *gene),
            },
    {
        let mut lo: usize = 0;
        let mut hi: usize = self.genes.len();
        while lo < hi
            invariant
                0 <= lo <= hi <= self.genes@.len(),
                forall|i: int| 0 <= i < lo ==> self.genes@[i].before(*gene),
                forall|i: int| hi <= i < self.genes@.len() ==> !self.genes@[i].before(*gene),
                sorted(self.genes@),
            decreases hi - lo,
        {
            let mid: usize = lo + (hi - lo) / 2;
            let m: Gene = self.genes[mid];
            if m.in_neuron_id < gene.in_neuron_id || (m.in_neuron_id == gene.in_neuron_id
                && m.out_neuron_id < gene.out_neuron_id) {
                assert forall|i: int| 0 <= i < mid + 1 implies self.genes@[i].before(*gene) by {
                    if i < mid {
                        assert(self.genes@[i].before(self.genes@[mid as int]));
                    }
                }
                lo = mid + 1;
            } else {
                assert forall|i: int| mid <= i < self.genes@.len() implies !self.genes@[i].before(
                    *gene,
                ) by {
                    if i > mid {
                        assert(self.genes@[mid as int].before(self.genes@[i]));
                    }
                }
                hi = mid;
            }
        }
        proof {
            lemma_rank_is_boundary(self@, *gene, lo as int);
            lemma_link_at_rank(self@, *gene);
        }
        if lo < self.genes.len() && self.genes[lo].in_neuron_id == gene.in_neuron_id
            && self.genes[lo].out_neuron_id == gene.out_neuron_id {
            Ok(lo)
        } else {
            Err(lo)
        }
    }

    /// Add a new gene. A gene may lead to new neurons, but one that links a
    /// neuron to itself must name a neuron that is there already. A link
    /// that is there already is not added again: its gene is enabled if the
    /// new one is.
    pub fn add_gene(&mut self, gene: Gene)
        requires
            old(self).wf(),
            old(self).admits(gene),
        ensures
            final(self).wf(),
            final(self)@ == inserted(old(self)@, gene),
            final(self).last() == max3(
                old(self).last(),
                gene.in_neuron_id,
                gene.out_neuron_id,
            ),
    {
        let found = self.search(&gene);
        proof {
            lemma_inserted_sorted(self@, gene);
        }
        if gene.in_neuron_id > self.last_neuron_id {
            self.last_neuron_id = gene.in_neuron_id;
        }
        if gene.out_neuron_id > self.last_neuron_id {
            self.last_neuron_id = gene.out_neuron_id;
        }
        match found {
            Ok(pos) => {
                let mut stored: Gene = self.genes[pos];
                stored.enabled = stored.enabled || gene.enabled;
                self.genes[pos] = stored;
            },
            Err(pos) => {
                self.genes.insert(pos, gene);
            },
        }
        proof {
            let before = old(self)@;
            let after = self@;
            assert(after == inserted(before, gene));
            assert forall|i: int| 0 <= i < after.len() implies (#[trigger] after[i]).in_neuron_id
                <= self.last() && after[i].out_neuron_id <= self.last() by {
                let p = rank(before, gene);
                if p < before.len() && before[p].same_link(gene) {
                    assert(after[i].same_link(before[i]));
                } else if i < p {
                    assert(after[i] == before[i]);
                } else if i > p {
                    assert(after[i] == before[i - 1]);
                }
            }
        }
    }

    /// Connects two neurons with a new enabled gene of random weight, or
    /// enables the gene that connects them already.
    pub fn add_connection(&mut self, in_neuron_id: usize, out_neuron_id: usize)
        requires
            old(self).wf(),
            old(self).admits(Gene::new_link(in_neuron_id, out_neuron_id, 0)),
        ensures
            final(self).wf(),
            exists|weight: i64|
                -UNIT <= weight < UNIT && final(self)@ == inserted(
                    old(self)@,
                    #[trigger] Gene::new_link(in_neuron_id, out_neuron_id, weight),
                ),
            final(self).last() == max3(old(self).last(), in_neuron_id, out_neuron_id),
    {
        let gene = <dyn Mutation>::add_connection(in_neuron_id, out_neuron_id);
        assert(gene == Gene::new_link(in_neuron_id, out_neuron_id, gene.weight));
        self.add_gene(gene);
    }

    /// Connects two neurons chosen at random among those in use.
    pub fn mutate_add_connection(&mut self)
        requires
            old(self).wf(),
        ensures
            final(self).wf(),
            final(self).last() == old(self).last(),
            connected(old(self)@, old(self).last(), final(self)@),
    {
        let mut a: usize = 0;
        let mut b: usize = 0;
        if self.last_neuron_id != 0 {
            a = random_between(0, self.last_neuron_id);
            b = random_between(0, self.last_neuron_id);
        }
        self.add_connection(a, b);
    }

    /// Draws every gene's weight anew; each draw perturbs the old weight
    /// with the chance `probability` and replaces it otherwise.
    pub fn mutate_connection_weight(&mut self, probability: i64)
        requires
            old(self).wf(),
        ensures
            final(self).wf(),
            final(self).last() == old(self).last(),
            all_reweighted(old(self)@, final(self)@, probability),
    {
        let n: usize = self.genes.len();
        let mut i: usize = 0;
        while i < n
            invariant
                0 <= i <= n,
                n == self.genes@.len(),
                n == old(self).genes@.len(),
                self.last_neuron_id == old(self).last_neuron_id,
                forall|k: int| 0 <= k < i ==> reweighted(old(self).genes@[k], #[trigger] self.genes@[k], probability),
                forall|k: int| i <= k < n ==> self.genes@[k] == old(self).genes@[k],
            decreases n - i,
        {
            let mut gene: Gene = self.genes[i];
            let ghost before = gene;
            let perturbation: bool = random() < probability;
            <dyn Mutation>::connection_weight(&mut gene, perturbation);
            self.genes[i] = gene;
            i += 1;
        }
        proof {
            assert forall|k: int| 0 <= k < n implies (#[trigger] self@[k]).same_link(old(self)@[k]) by {
                assert(reweighted(old(self)@[k], self@[k], probability));
            }
            lemma_same_links_within(old(self)@, self@, self.last());
        }
    }

    /// Flips the `enabled` flag of the gene at `index`.
    pub fn toggle_gene(&mut self, index: usize)
        requires
            old(self).wf(),
            index < old(self)@.len(),
        ensures
            final(self).wf(),
            final(self).last() == old(self).last(),
            final(self)@ == toggled(old(self)@, index as int),
    {
        let mut gene: Gene = self.genes[index];
        <dyn Mutation>::toggle_expression(&mut gene);
        self.genes[index] = gene;
        proof {
            lemma_update_within(old(self)@, index as int, gene, self.last());
        }
    }

    /// Flips the `enabled` flag of one gene chosen at random.
    pub fn mutate_toggle_expression(&mut self)
        requires
            old(self).wf(),
            old(self)@.len() > 0,
        ensures
            final(self).wf(),
            final(self).last() == old(self).last(),
            one_toggled(old(self)@, final(self)@),
    {
        let selected_gene: usize = random_between(0, self.genes.len() - 1);
        self.toggle_gene(selected_gene);
    }

    /// Draws anew the bias of one gene chosen at random; the draw perturbs
    /// the old bias with the chance `probability` and replaces it otherwise.
    pub fn mutate_bias(&mut self, probability: i64)
        requires
            old(self).wf(),
            old(self)@.len() > 0,
        ensures
            final(self).wf(),
            final(self).last() == old(self).last(),
            one_rebiased(old(self)@, final(self)@, probability),
    {
        let selected_gene: usize = random_between(0, self.genes.len() - 1);
        let mut gene: Gene = self.genes[selected_gene];
        let perturbation: bool = random() < probability;
        <dyn Mutation>::connection_bias(&mut gene, perturbation);
        self.genes[selected_gene] = gene;
        proof {
            assert(rebiased(old(self)@[selected_gene as int], gene, probability));
            assert(self@ == old(self)@.update(selected_gene as int, gene));
            lemma_update_within(old(self)@, selected_gene as int, gene, self.last());
        }
    }

    /// Whether a neuron can still be added: the next id must be a valid one.
    pub open spec fn has_room(&self) -> bool {
        self.last() + 1 < usize::MAX
    }

    /// Puts a new neuron on the link of the gene at `index`.
    pub fn split_gene(&mut self, index: usize)
        requires
            old(self).wf(),
            old(self).has_room(),
            index < old(self)@.len(),
        ensures
            final(self).wf(),
            final(self).last() == old(self).last() + 1,
            final(self)@ == split(old(self)@, index as int, (old(self).last() + 1) as usize),
    {
        let mut gene: Gene = self.genes[index];
        self.last_neuron_id += 1;
        let (gene1, gene2) = <dyn Mutation>::add_neuron(&mut gene, self.last_neuron_id);
        self.genes[index] = gene;
        proof {
            lemma_update_within(old(self)@, index as int, gene, self.last());
        }
        self.add_gene(gene1);
        self.add_gene(gene2);
    }

    /// Puts a new neuron on the link of one gene chosen at random.
    pub fn mutate_add_neuron(&mut self)
        requires
            old(self).wf(),
            old(self).has_room(),
            old(self)@.len() > 0,
        ensures
            final(self).wf(),
            final(self).last() == old(self).last() + 1,
            one_split(old(self)@, old(self).last(), final(self)@),
    {
        let selected_gene: usize = random_between(0, self.genes.len() - 1);
        self.split_gene(selected_gene);
    }

    /// Total weigths of all genes
    pub fn total_weights(&self) -> (total: i64)
        ensures
            total == sat(weights_sum(self@)),
    {
        let n: usize = self.genes.len();
        let mut sum: i128 = 0;
        let mut i: usize = 0;
        while i < n
            invariant
                0 <= i <= n,
                n == self.genes@.len(),
                sum == weights_sum(self.genes@.take(i as int)),
                -0x8000_0000_0000_0000 * i <= sum <= 0x8000_0000_0000_0000 * i,
            decreases n - i,
        {
            proof {
                assert(self.genes@.take(i + 1).drop_last() =~= self.genes@.take(i as int));
            }
            sum = sum + self.genes[i].weight as i128;
            i += 1;
        }
        proof {
            assert(self.genes@.take(n as int) =~= self.genes@);
        }
        saturate(sum)
    }

    /// The compatibility distance to another genome. Genes that only one of
    /// the two has count alike, whether they lie within the other's range of
    /// links or beyond it.
    pub fn compatibility_distance(&self, other: &NeatGenome) -> (d: i64)
        requires
            self.wf(),
            other.wf(),
        ensures
            d == distance(self@, other@),
    {
        let n1: usize = self.genes.len();
        let n2: usize = other.genes.len();
        let n: usize = if n1 >= n2 {
            n1
        } else {
            n2
        };
        if n == 0 {
            return 0;
        }
        let mut shared: usize = 0;
        let mut gap: u128 = 0;
        let mut i: usize = 0;
        while i < n1
            invariant
                0 <= i <= n1,
                n1 == self.genes@.len(),
                other.wf(),
                shared == matching(self.genes@.take(i as int), other@),
                gap == weight_gap(self.genes@.take(i as int), other@),
                shared <= i,
                gap <= 0xffff_ffff_ffff_ffff * shared,
            decreases n1 - i,
        {
            proof {
                assert(self.genes@.take(i + 1).drop_last() =~= self.genes@.take(i as int));
                lemma_link_at_rank(other@, self.genes@[i as int]);
            }
            let gene: Gene = self.genes[i];
            match other.search(&gene) {
                Ok(p) => {
                    let theirs: i64 = other.genes[p].weight;
                    let apart: i128 = gene.weight as i128 - theirs as i128;
                    let size: u128 = crate::fixed::magnitude_of(apart);
                    gap = gap + size;
                    shared = shared + 1;
                },
                Err(_) => {},
            }
            i += 1;
        }
        proof {
            assert(self.genes@.take(n1 as int) =~= self.genes@);
            lemma_matching_bound(self@, other@);
        }
        let disjoint: u128 = (n1 as u128 + n2 as u128) - 2 * (shared as u128);
        let mean: u128 = if shared == 0 {
            1_000_000
        } else {
            gap / (shared as u128)
        };
        proof {
            let s = shared as int;
            let g = gap as int;
            if s > 0 {
                assert(g / s <= 0xffff_ffff_ffff_ffff) by (nonlinear_arith)
                    requires
                        s > 0,
                        0 <= g <= 0xffff_ffff_ffff_ffff * s,
                ;
            }
            let dd = disjoint as int;
            let nn = n as int;
            assert((1_000_000 * dd) / nn <= 2_000_000) by (nonlinear_arith)
                requires
                    nn > 0,
                    0 <= dd <= 2 * nn,
            ;
        }
        assert(WEIGHT_FACTOR * mean <= 200_000 * 0xffff_ffff_ffff_ffff) by (nonlinear_arith)
            requires
                WEIGHT_FACTOR == 200_000,
                0 <= mean <= 0xffff_ffff_ffff_ffff,
        ;
        let structural: u128 = (DISJOINT_FACTOR as u128 * disjoint) / (n as u128);
        let weights: u128 = (WEIGHT_FACTOR as u128 * mean) / 1_000_000u128;
        (structural + weights) as i64
    }

    ///Add initial input and output neurons interconnected
    pub fn new_initialized(input_neurons: usize, output_neurons: usize) -> (genome: NeatGenome)
        requires
            input_neurons + output_neurons < usize::MAX,
        ensures
            genome.wf(),
            initial(genome@, input_neurons, output_neurons),
            genome.last() == (if input_neurons > 0 && output_neurons > 0 {
                input_neurons + output_neurons - 1
            } else {
                0
            }),
    {
        let mut genome = NeatGenome::default();
        let mut i: usize = 0;
        while i < input_neurons
            invariant
                0 <= i <= input_neurons,
                input_neurons + output_neurons < usize::MAX,
                genome.wf(),
                genome@.len() == i * output_neurons,
                forall|k: int| 0 <= k < genome@.len() ==> (#[trigger] genome@[k]).in_neuron_id < i,
                forall|a: int, b: int|
                    0 <= a < i && 0 <= b < output_neurons ==> {
                        let g = genome@[#[trigger] cell(a, b, output_neurons as int)];
                        &&& g.in_neuron_id == a
                        &&& g.out_neuron_id == input_neurons + b
                        &&& g.enabled
                        &&& g.bias == 0
                        &&& -UNIT <= g.weight < UNIT
                    },
                genome.last() == (if i > 0 && output_neurons > 0 {
                    input_neurons + output_neurons - 1
                } else {
                    0
                }),
            decreases input_neurons - i,
        {
            let mut o: usize = 0;
            while o < output_neurons
                invariant
                    0 <= i < input_neurons,
                    0 <= o <= output_neurons,
                    input_neurons + output_neurons < usize::MAX,
                    genome.wf(),
                    genome@.len() == cell(i as int, o as int, output_neurons as int),
                    forall|k: int|
                        0 <= k < genome@.len() ==> (#[trigger] genome@[k]).in_neuron_id < i || (
                        genome@[k].in_neuron_id == i && genome@[k].out_neuron_id < input_neurons + o),
                    forall|a: int, b: int|
                        0 <= b < output_neurons && 0 <= a && (a < i || (a == i && b < o)) ==> {
                            let g = genome@[#[trigger] cell(a, b, output_neurons as int)];
                            &&& g.in_neuron_id == a
                            &&& g.out_neuron_id == input_neurons + b
                            &&& g.enabled
                            &&& g.bias == 0
                            &&& -UNIT <= g.weight < UNIT
                        },
                    genome.last() == (if i > 0 && output_neurons > 0 {
                        input_neurons + output_neurons - 1
                    } else if o > 0 {
                        input_neurons + o - 1
                    } else {
                        0
                    }),
                decreases output_neurons - o,
            {
                let gene = Gene::new_connection(i, input_neurons + o);
                let ghost before = genome@;
                proof {
                    assert forall|k: int| 0 <= k < before.len() implies before[k].before(gene) by {}
                    lemma_inserted_last(before, gene);
                }
                genome.add_gene(gene);
                proof {
                    assert(genome@ == before.push(gene));
                    assert forall|a: int, b: int|
                        0 <= b < output_neurons && 0 <= a && (a < i || (a == i && b < o + 1)) implies {
                        let g = genome@[#[trigger] cell(a, b, output_neurons as int)];
                        &&& g.in_neuron_id == a
                        &&& g.out_neuron_id == input_neurons + b
                        &&& g.enabled
                        &&& g.bias == 0
                        &&& -UNIT <= g.weight < UNIT
                    } by {
                        if a < i || (a == i && b < o) {
                            lemma_cell_order(a, b, i as int, o as int, output_neurons as int);
                        }
                    }
                }
                o += 1;
            }
            proof {
                assert(cell(i as int, output_neurons as int, output_neurons as int) == (i + 1)
                    * output_neurons) by (nonlinear_arith);
            }
            i += 1;
        }
        proof {
            assert(0 * output_neurons == 0);
        }
        genome
    }

    /// Crosses `first` with `second` as the coins say: the child gets the
    /// genes of `first`, and takes the copy of `second` where the coin shows
    /// `false` and `second` has a gene with the same link.
    pub fn cross_by(first: &NeatGenome, second: &NeatGenome, coins: &Vec<bool>) -> (child:
        NeatGenome)
        requires
            first.wf(),
            second.wf(),
            coins@.len() == first@.len(),
        ensures
            child.wf(),
            child@ == crossed_by(first@, second@, coins@),
            child.last() == highest(first@),
    {
        let n: usize = first.genes.len();
        let mut genes: Vec<Gene> = Vec::with_capacity(n);
        let mut last: usize = 0;
        let mut i: usize = 0;
        while i < n
            invariant
                0 <= i <= n,
                n == first.genes@.len(),
                first.wf(),
                second.wf(),
                coins@.len() == n,
                genes@ == crossed_by(first@, second@, coins@).take(i as int),
                last == highest(first.genes@.take(i as int)),
            decreases n - i,
        {
            let gene: Gene = first.genes[i];
            let mut chosen: Gene = gene;
            proof {
                lemma_link_at_rank(second@, gene);
            }
            if !coins[i] {
                match second.search(&gene) {
                    Ok(position) => {
                        chosen = second.genes[position];
                    },
                    Err(_) => {},
                }
            }
            genes.push(chosen);
            if gene.in_neuron_id > last {
                last = gene.in_neuron_id;
            }
            if gene.out_neuron_id > last {
                last = gene.out_neuron_id;
            }
            proof {
                let all = crossed_by(first@, second@, coins@);
                assert(all.take(i + 1) =~= all.take(i as int).push(all[i as int]));
                assert(first.genes@.take(i + 1).drop_last() =~= first.genes@.take(i as int));
            }
            i += 1;
        }
        proof {
            let all = crossed_by(first@, second@, coins@);
            assert(all.take(n as int) =~= all);
            assert(first.genes@.take(n as int) =~= first.genes@);
            assert(crossed(first@, second@, all));
            law_crossing_keeps_links(first@, second@, all);
            lemma_highest_bounds(first@, first.last());
            lemma_highest_bounds(all, first.last());
        }
        NeatGenome { genes, last_neuron_id: last }
    }

    /// Crosses `first` with `second`, tossing a fair coin for every gene of
    /// `first`.
    pub fn cross(first: &NeatGenome, second: &NeatGenome) -> (child: NeatGenome)
        requires
            first.wf(),
            second.wf(),
        ensures
            child.wf(),
            crossed(first@, second@, child@),
            child.last() == highest(first@),
            forall|g: Gene| has_link(child@, g) <==> has_link(first@, g),
    {
        let n: usize = first.genes.len();
        let mut coins: Vec<bool> = Vec::with_capacity(n);
        let mut i: usize = 0;
        while i < n
            invariant
                0 <= i <= n,
                coins@.len() == i,
            decreases n - i,
        {
            coins.push(random() > 500_000);
            i += 1;
        }
        let child = NeatGenome::cross_by(first, second, &coins);
        proof {
            law_crossing_keeps_links(first@, second@, child@);
        }
        child
    }
}

impl Clone for NeatGenome {
    fn clone(&self) -> (copy: NeatGenome)
        ensures
            copy@ == self@,
            copy.last() == self.last(),
    {
        let n: usize = self.genes.len();
        let mut genes: Vec<Gene> = Vec::with_capacity(n);
        let mut i: usize = 0;
        while i < n
            invariant
                0 <= i <= n,
                n == self.genes@.len(),
                genes@ == self.genes@.take(i as int),
            decreases n - i,
        {
            genes.push(self.genes[i]);
            proof {
                assert(self.genes@.take(i + 1) =~= self.genes@.take(i as int).push(
                    self.genes@[i as int],
                ));
            }
            i += 1;
        }
        proof {
            assert(self.genes@.take(n as int) =~= self.genes@);
        }
        NeatGenome { genes, last_neuron_id: self.last_neuron_id }
    }
}

impl Default for NeatGenome {
    /// The genome without genes, on neuron zero alone.
    fn default() -> (genome: NeatGenome)
        ensures
            genome.wf(),
            genome@ == Seq::<Gene>::empty(),
            genome.last() == 0,
    {
        NeatGenome { genes: Vec::new(), last_neuron_id: 0 }
    }
}

} // verus!
