//! Lists of genes in the order of their links.
use vstd::prelude::*;
use super::gene::Gene;

verus! {

/// Whether the genes stand in the strict order of their links.
pub open spec fn sorted(s: Seq<Gene>) -> bool {
    forall|i: int, j: int| 0 <= i < j < s.len() ==> s[i].before(s[j])
}

/// Whether some gene of `s` has the link of `g`.
pub open spec fn has_link(s: Seq<Gene>, g: Gene) -> bool {
    exists|i: int| 0 <= i < s.len() && s[i].same_link(g)
}

/// The number of genes of `s` whose link comes before that of `g`. In a
/// sorted list this is the place where `g` stands or would stand.
pub open spec fn rank(s: Seq<Gene>, g: Gene) -> int
    decreases s.len(),
{
    if s.len() == 0 {
        0
    } else {
        rank(s.drop_last(), g) + if s.last().before(g) {
            1int
        } else {
            0int
        }
    }
}

/// The list after `g` was added. Where a gene with the link of `g` is there
/// already, it stays with its own weight and bias and is enabled if either
/// of the two is; otherwise `g` takes its place in the order.
pub open spec fn inserted(s: Seq<Gene>, g: Gene) -> Seq<Gene> {
    let p = rank(s, g);
    if p < s.len() && s[p].same_link(g) {
        s.update(p, s[p].with_enabled(s[p].enabled || g.enabled))
    } else {
        s.insert(p, g)
    }
}

/// The largest of three neuron ids.
pub open spec fn max3(a: usize, b: usize, c: usize) -> usize {
    if a >= b && a >= c {
        a
    } else if b >= c {
        b
    } else {
        c
    }
}

/// In a sorted list, the place up to which every link comes before that of
/// `g` and from which none does is the rank of `g`.
pub proof fn lemma_rank_is_boundary(s: Seq<Gene>, g: Gene, p: int)
    requires
        0 <= p <= s.len(),
        forall|i: int| 0 <= i < p ==> s[i].before(g),
        forall|i: int| p <= i < s.len() ==> !s[i].before(g),
    ensures
        rank(s, g) == p,
    decreases s.len(),
{
    if s.len() > 0 {
        let t = s.drop_last();
        if p == s.len() {
            lemma_rank_is_boundary(t, g, p - 1);
        } else {
            lemma_rank_is_boundary(t, g, p);
        }
    }
}

/// The rank lies within the list, everything before it comes before `g`,
/// and in a sorted list nothing from it on does.
pub proof fn lemma_rank_splits(s: Seq<Gene>, g: Gene)
    requires
        sorted(s),
    ensures
        0 <= rank(s, g) <= s.len(),
        forall|i: int| 0 <= i < rank(s, g) ==> s[i].before(g),
        forall|i: int| rank(s, g) <= i < s.len() ==> !s[i].before(g),
    decreases s.len(),
{
    if s.len() > 0 {
        let t = s.drop_last();
        lemma_rank_splits(t, g);
        let n = s.len() - 1;
        if s.last().before(g) {
            assert forall|i: int| 0 <= i < n implies t[i].before(g) by {
                assert(s[i].before(s[n]));
            }
            lemma_rank_is_boundary(t, g, n);
            assert forall|i: int| 0 <= i < rank(s, g) implies s[i].before(g) by {
                if i < n {
                    assert(t[i] == s[i]);
                }
            }
        } else {
            assert forall|i: int| 0 <= i < rank(s, g) implies s[i].before(g) by {
                assert(t[i] == s[i]);
            }
            assert forall|i: int| rank(s, g) <= i < s.len() implies !s[i].before(g) by {
                if i < n {
                    assert(t[i] == s[i]);
                }
            }
        }
    }
}

/// A sorted list holds the link of `g` exactly when the gene at the rank of
/// `g` has it.
pub proof fn lemma_link_at_rank(s: Seq<Gene>, g: Gene)
    requires
        sorted(s),
    ensures
        has_link(s, g) <==> (rank(s, g) < s.len() && s[rank(s, g)].same_link(g)),
        forall|i: int| 0 <= i < s.len() && s[i].same_link(g) ==> i == rank(s, g),
{
    lemma_rank_splits(s, g);
    let p = rank(s, g);
    assert forall|i: int| 0 <= i < s.len() && s[i].same_link(g) implies i == p by {
        if i < p {
            assert(s[i].before(g));
        } else if i > p {
            assert(s[p].before(s[i]));
            assert(!s[p].before(g));
        }
    }
}

/// Adding a gene keeps the list sorted.
pub proof fn lemma_inserted_sorted(s: Seq<Gene>, g: Gene)
    requires
        sorted(s),
    ensures
        sorted(inserted(s, g)),
{
    lemma_rank_splits(s, g);
    lemma_link_at_rank(s, g);
    let p = rank(s, g);
    let t = inserted(s, g);
    if p < s.len() && s[p].same_link(g) {
        assert forall|i: int, j: int| 0 <= i < j < t.len() implies t[i].before(t[j]) by {
            assert(s[i].before(s[j]));
        }
    } else {
        assert forall|i: int, j: int| 0 <= i < j < t.len() implies t[i].before(t[j]) by {
            if j < p {
                assert(s[i].before(s[j]));
            } else if j == p {
                assert(s[i].before(g));
            } else if i < p {
                assert(s[i].before(s[j - 1]));
            } else if i == p {
                assert(!s[j - 1].before(g));
                assert(!s[j - 1].same_link(g)) by {
                    if s[j - 1].same_link(g) {
                        assert(j - 1 == p);
                    }
                }
            } else {
                assert(s[i - 1].before(s[j - 1]));
            }
        }
    }
}

/// A list with the same links in the same places as a sorted one is sorted.
pub proof fn lemma_same_links_sorted(a: Seq<Gene>, b: Seq<Gene>)
    requires
        sorted(a),
        a.len() == b.len(),
        forall|i: int| 0 <= i < a.len() ==> (#[trigger] b[i]).same_link(a[i]),
    ensures
        sorted(b),
{
    assert forall|i: int, j: int| 0 <= i < j < b.len() implies b[i].before(b[j]) by {
        assert(a[i].before(a[j]));
        assert(b[i].same_link(a[i]));
        assert(b[j].same_link(a[j]));
    }
}

/// A list with the same links in the same places as a sorted one whose
/// neuron ids stay within `last` is sorted too, and its ids stay within
/// `last`.
pub proof fn lemma_same_links_within(a: Seq<Gene>, b: Seq<Gene>, last: usize)
    requires
        sorted(a),
        a.len() == b.len(),
        forall|i: int| 0 <= i < a.len() ==> (#[trigger] b[i]).same_link(a[i]),
        forall|i: int|
            0 <= i < a.len() ==> (#[trigger] a[i]).in_neuron_id <= last && a[i].out_neuron_id <= last,
    ensures
        sorted(b),
        forall|i: int|
            0 <= i < b.len() ==> (#[trigger] b[i]).in_neuron_id <= last && b[i].out_neuron_id <= last,
{
    lemma_same_links_sorted(a, b);
    assert forall|i: int| 0 <= i < b.len() implies (#[trigger] b[i]).in_neuron_id <= last
        && b[i].out_neuron_id <= last by {
        assert(b[i].same_link(a[i]));
    }
}

/// Replacing a gene by one with the same link keeps a list sorted and its
/// neuron ids within `last`.
pub proof fn lemma_update_within(s: Seq<Gene>, index: int, gene: Gene, last: usize)
    requires
        sorted(s),
        0 <= index < s.len(),
        gene.same_link(s[index]),
        forall|i: int|
            0 <= i < s.len() ==> (#[trigger] s[i]).in_neuron_id <= last && s[i].out_neuron_id <= last,
    ensures
        sorted(s.update(index, gene)),
        forall|i: int|
            0 <= i < s.len() ==> (#[trigger] s.update(index, gene)[i]).in_neuron_id <= last
                && s.update(index, gene)[i].out_neuron_id <= last,
{
    let t = s.update(index, gene);
    assert forall|i: int| 0 <= i < s.len() implies (#[trigger] t[i]).same_link(s[i]) by {}
    lemma_same_links_within(s, t, last);
}

/// A gene that comes after every gene of a list is added at its end.
pub proof fn lemma_inserted_last(s: Seq<Gene>, g: Gene)
    requires
        forall|i: int| 0 <= i < s.len() ==> s[i].before(g),
    ensures
        inserted(s, g) == s.push(g),
{
    lemma_rank_is_boundary(s, g, s.len() as int);
    assert(s.insert(s.len() as int, g) =~= s.push(g));
}

/// Adding a gene to a sorted list leaves a list that is at least as long.
pub proof fn lemma_inserted_grows(a: Seq<Gene>, g: Gene)
    requires
        sorted(a),
    ensures
        a.len() <= inserted(a, g).len() <= a.len() + 1,
{
    lemma_rank_splits(a, g);
}

/// The highest neuron id that the genes name; zero without genes.
pub open spec fn highest(genes: Seq<Gene>) -> usize
    decreases genes.len(),
{
    if genes.len() == 0 {
        0
    } else {
        max3(highest(genes.drop_last()), genes.last().in_neuron_id, genes.last().out_neuron_id)
    }
}

/// No gene names a neuron beyond the highest, and the highest is within
/// every bound that holds each gene's ids.
pub proof fn lemma_highest_bounds(genes: Seq<Gene>, bound: usize)
    requires
        forall|i: int|
            0 <= i < genes.len() ==> (#[trigger] genes[i]).in_neuron_id <= bound
                && genes[i].out_neuron_id <= bound,
    ensures
        highest(genes) <= bound,
        forall|i: int|
            0 <= i < genes.len() ==> (#[trigger] genes[i]).in_neuron_id <= highest(genes)
                && genes[i].out_neuron_id <= highest(genes),
    decreases genes.len(),
{
    if genes.len() > 0 {
        let rest = genes.drop_last();
        lemma_highest_bounds(rest, bound);
        assert forall|i: int| 0 <= i < genes.len() implies (#[trigger] genes[i]).in_neuron_id
            <= highest(genes) && genes[i].out_neuron_id <= highest(genes) by {
            if i < genes.len() - 1 {
                assert(rest[i] == genes[i]);
            }
        }
    }
}

/// Lists with the same links in the same places name the same highest
/// neuron.
pub proof fn lemma_same_links_highest(a: Seq<Gene>, b: Seq<Gene>)
    requires
        a.len() == b.len(),
        forall|i: int| 0 <= i < a.len() ==> (#[trigger] b[i]).same_link(a[i]),
    ensures
        highest(a) == highest(b),
    decreases a.len(),
{
    if a.len() > 0 {
        let ra = a.drop_last();
        let rb = b.drop_last();
        assert forall|i: int| 0 <= i < ra.len() implies (#[trigger] rb[i]).same_link(ra[i]) by {
            assert(rb[i] == b[i]);
            assert(ra[i] == a[i]);
        }
        lemma_same_links_highest(ra, rb);
        assert(b[a.len() - 1].same_link(a[a.len() - 1]));
    }
}

/// The list after the genes of `genes` were added one after the other.
pub open spec fn inserted_all(s: Seq<Gene>, genes: Seq<Gene>) -> Seq<Gene>
    decreases genes.len(),
{
    if genes.len() == 0 {
        s
    } else {
        inserted(inserted_all(s, genes.drop_last()), genes.last())
    }
}

/// Adding a gene keeps every link that was there and brings the gene's own.
pub proof fn lemma_inserted_links(s: Seq<Gene>, g: Gene)
    requires
        sorted(s),
    ensures
        has_link(inserted(s, g), g),
        forall|h: Gene| has_link(s, h) ==> has_link(inserted(s, g), h),
        forall|h: Gene| has_link(inserted(s, g), h) ==> has_link(s, h) || h.same_link(g),
{
    lemma_rank_splits(s, g);
    let p = rank(s, g);
    let t = inserted(s, g);
    assert(t[p].same_link(g));
    assert forall|h: Gene| has_link(s, h) implies has_link(t, h) by {
        let i = choose|i: int| 0 <= i < s.len() && s[i].same_link(h);
        if p < s.len() && s[p].same_link(g) {
            assert(t[i].same_link(h));
        } else if i < p {
            assert(t[i].same_link(h));
        } else {
            assert(t[i + 1].same_link(h));
        }
    }
    assert forall|h: Gene| has_link(t, h) implies has_link(s, h) || h.same_link(g) by {
        let i = choose|i: int| 0 <= i < t.len() && t[i].same_link(h);
        if p < s.len() && s[p].same_link(g) {
            assert(s[i].same_link(h));
        } else if i < p {
            assert(s[i].same_link(h));
        } else if i > p {
            assert(s[i - 1].same_link(h));
        }
    }
}

/// A link that was added twice is stored once. The second gene changes
/// nothing but the flag of the stored one, which is enabled if it was
/// before or the second gene is; where the link was new, the stored gene is
/// the first one, enabled if either of the two is.
pub proof fn law_link_stored_once(s: Seq<Gene>, first: Gene, second: Gene)
    requires
        sorted(s),
        first.same_link(second),
    ensures
        ({
            let once = inserted(s, first);
            let twice = inserted(once, second);
            let p = rank(s, first);
            &&& twice.len() == once.len()
            &&& 0 <= p < twice.len()
            &&& forall|i: int| 0 <= i < twice.len() ==> (twice[i].same_link(first) <==> i == p)
            &&& twice == once.update(p, once[p].with_enabled(once[p].enabled || second.enabled))
            &&& !has_link(s, first) ==> once.len() == s.len() + 1 && twice[p] == first.with_enabled(
                first.enabled || second.enabled,
            )
        }),
{
    let once = inserted(s, first);
    let twice = inserted(once, second);
    let p = rank(s, first);
    lemma_rank_splits(s, first);
    lemma_link_at_rank(s, first);
    lemma_inserted_sorted(s, first);
    assert(once[p].same_link(first));
    lemma_link_at_rank(once, second);
    assert(once[p].same_link(second));
    assert(rank(once, second) == p);
    lemma_inserted_sorted(once, second);
    lemma_link_at_rank(twice, first);
    assert(twice[p].same_link(first));
}

/// After any sequence of insertions the list is sorted, and every link that
/// was there or was added stands at its rank, where bisection finds it.
pub proof fn law_insertions_keep_order(s: Seq<Gene>, genes: Seq<Gene>)
    requires
        sorted(s),
    ensures
        sorted(inserted_all(s, genes)),
        forall|h: Gene| has_link(s, h) ==> has_link(inserted_all(s, genes), h),
        forall|k: int|
            0 <= k < genes.len() ==> {
                let t = inserted_all(s, genes);
                let p = rank(t, #[trigger] genes[k]);
                0 <= p < t.len() && t[p].same_link(genes[k])
            },
    decreases genes.len(),
{
    if genes.len() > 0 {
        let rest = genes.drop_last();
        law_insertions_keep_order(s, rest);
        let mid = inserted_all(s, rest);
        let t = inserted_all(s, genes);
        lemma_inserted_sorted(mid, genes.last());
        lemma_inserted_links(mid, genes.last());
        assert forall|k: int| 0 <= k < genes.len() implies {
            let p = rank(t, #[trigger] genes[k]);
            0 <= p < t.len() && t[p].same_link(genes[k])
        } by {
            if k < genes.len() - 1 {
                assert(rest[k] == genes[k]);
                let q = rank(mid, rest[k]);
                assert(mid[q].same_link(genes[k]));
                assert(has_link(mid, genes[k]));
            }
            assert(has_link(t, genes[k]));
            lemma_link_at_rank(t, genes[k]);
        }
    }
}

/// A gene that comes before another has no greater rank in a sorted list.
pub proof fn lemma_rank_monotone(b: Seq<Gene>, g: Gene, h: Gene)
    requires
        sorted(b),
        g.before(h),
    ensures
        rank(b, g) <= rank(b, h),
{
    lemma_rank_splits(b, g);
    lemma_rank_splits(b, h);
    let p = rank(b, g);
    let q = rank(b, h);
    if q < p {
        assert(b[q].before(g));
        assert(!b[q].before(h));
    }
}

} // verus!
