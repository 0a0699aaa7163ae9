//! The compatibility distance of two gene lists.
use vstd::prelude::*;
use super::gene::Gene;
use super::genes::{
    has_link, lemma_link_at_rank, lemma_rank_monotone, lemma_rank_splits, rank, sorted,
};
use crate::fixed::{UNIT, magnitude};

verus! {

/// The weight of disjoint genes in the compatibility distance: one.
pub const DISJOINT_FACTOR: u64 = 1_000_000;

/// The weight of the mean weight difference in the compatibility distance:
/// a fifth.
pub const WEIGHT_FACTOR: u64 = 200_000;

/// The gene of the sorted list `b` that has the link of `g`, where there is
/// one.
pub open spec fn partner(b: Seq<Gene>, g: Gene) -> Gene {
    b[rank(b, g)]
}

/// The number of genes of `a` whose link occurs in `b`.
pub open spec fn matching(a: Seq<Gene>, b: Seq<Gene>) -> nat
    decreases a.len(),
{
    if a.len() == 0 {
        0
    } else {
        matching(a.drop_last(), b) + if has_link(b, a.last()) {
            1nat
        } else {
            0nat
        }
    }
}

/// The sum, over the genes of `a` whose link occurs in `b`, of the distance
/// between the two weights.
pub open spec fn weight_gap(a: Seq<Gene>, b: Seq<Gene>) -> nat
    decreases a.len(),
{
    if a.len() == 0 {
        0
    } else {
        weight_gap(a.drop_last(), b) + if has_link(b, a.last()) {
            magnitude(a.last().weight - partner(b, a.last()).weight) as nat
        } else {
            0nat
        }
    }
}

/// The compatibility distance of two sorted gene lists, as a fixed-point
/// number: the share of genes without a partner among the larger list's
/// genes, plus a fifth of the mean weight distance of the genes that have a
/// partner. Without any partner that mean counts as one; two empty lists are
/// at distance zero.
pub open spec fn distance(a: Seq<Gene>, b: Seq<Gene>) -> int {
    let n = if a.len() >= b.len() {
        a.len()
    } else {
        b.len()
    };
    if n == 0 {
        0
    } else {
        let shared = matching(a, b);
        let disjoint = a.len() + b.len() - 2 * shared;
        let mean = if shared == 0 {
            UNIT as int
        } else {
            (weight_gap(a, b) / shared) as int
        };
        (DISJOINT_FACTOR * disjoint) / (n as int) + (WEIGHT_FACTOR * mean) / (UNIT as int)
    }
}

/// Every gene of a sorted list has itself for partner there, so the first
/// `k` genes all match and their weights are at distance zero.
pub proof fn lemma_matching_self(s: Seq<Gene>, k: int)
    requires
        sorted(s),
        0 <= k <= s.len(),
    ensures
        matching(s.take(k), s) == k,
        weight_gap(s.take(k), s) == 0,
    decreases k,
{
    if k > 0 {
        lemma_matching_self(s, k - 1);
        let t = s.take(k);
        assert(t.drop_last() =~= s.take(k - 1));
        assert(t.last() == s[k - 1]);
        assert(s[k - 1].same_link(s[k - 1]));
        lemma_link_at_rank(s, s[k - 1]);
    }
}

/// A sorted gene list is at distance zero from itself.
pub proof fn lemma_distance_self(s: Seq<Gene>)
    requires
        sorted(s),
    ensures
        distance(s, s) == 0,
{
    lemma_matching_self(s, s.len() as int);
    assert(s.take(s.len() as int) =~= s);
    if s.len() > 0 {
        let n = s.len() as int;
        assert(0int / n == 0) by (nonlinear_arith)
            requires
                n > 0,
        ;
    }
}

/// The sum of the distances between the weights of the first `k` genes of
/// two lists, place by place.
pub open spec fn gaps(a: Seq<Gene>, b: Seq<Gene>, k: int) -> nat
    decreases k,
{
    if k <= 0 {
        0
    } else {
        gaps(a, b, k - 1) + magnitude(a[k - 1].weight - b[k - 1].weight) as nat
    }
}

/// In two sorted lists with the same links, every gene has its partner at
/// its own place.
pub proof fn lemma_matching_same_links(a: Seq<Gene>, b: Seq<Gene>, k: int)
    requires
        sorted(a),
        sorted(b),
        a.len() == b.len(),
        forall|i: int| 0 <= i < a.len() ==> (#[trigger] a[i]).same_link(b[i]),
        0 <= k <= a.len(),
    ensures
        matching(a.take(k), b) == k,
        weight_gap(a.take(k), b) == gaps(a, b, k),
    decreases k,
{
    if k > 0 {
        lemma_matching_same_links(a, b, k - 1);
        let t = a.take(k);
        assert(t.drop_last() =~= a.take(k - 1));
        assert(t.last() == a[k - 1]);
        assert(a[k - 1].same_link(b[k - 1]));
        assert(b[k - 1].same_link(a[k - 1]));
        lemma_link_at_rank(b, a[k - 1]);
    }
}

/// Two genomes with the same links are as far apart as a fifth of the mean
/// distance of their weights: they are of one species exactly when that
/// mean is below five.
pub proof fn law_same_topology(a: Seq<Gene>, b: Seq<Gene>)
    requires
        sorted(a),
        sorted(b),
        a.len() == b.len(),
        a.len() > 0,
        forall|i: int| 0 <= i < a.len() ==> (#[trigger] a[i]).same_link(b[i]),
    ensures
        distance(a, b) == (WEIGHT_FACTOR * (gaps(a, b, a.len() as int) / a.len())) / (UNIT as int),
        distance(a, b) < UNIT <==> gaps(a, b, a.len() as int) / a.len() < 5 * UNIT,
{
    lemma_matching_same_links(a, b, a.len() as int);
    assert(a.take(a.len() as int) =~= a);
    let n = a.len() as int;
    assert((DISJOINT_FACTOR * 0) / n == 0) by (nonlinear_arith)
        requires
            n > 0,
    ;
}

/// Two genomes without a common link, one of which has a gene, are further
/// apart than one: they are of different species.
pub proof fn law_disjoint_differ(a: Seq<Gene>, b: Seq<Gene>)
    requires
        a.len() + b.len() > 0,
        matching(a, b) == 0,
    ensures
        distance(a, b) >= UNIT + WEIGHT_FACTOR,
{
    let n = if a.len() >= b.len() {
        a.len() as int
    } else {
        b.len() as int
    };
    let d = (a.len() + b.len()) as int;
    assert((1_000_000 * d) / n >= 1_000_000) by (nonlinear_arith)
        requires
            n > 0,
            d >= n,
    ;
}

/// No more genes can match than either list holds.
pub proof fn lemma_matching_bound(a: Seq<Gene>, b: Seq<Gene>)
    requires
        sorted(a),
        sorted(b),
    ensures
        matching(a, b) <= a.len(),
        matching(a, b) <= b.len(),
    decreases a.len(),
{
    lemma_matching_counts(a, b, a.len() as int);
    assert(a.take(a.len() as int) =~= a);
}

/// The genes among the first `k` of `a` that have a partner in `b` are no
/// more than `k`, and no more than their last partner's place in `b` allows.
pub proof fn lemma_matching_counts(a: Seq<Gene>, b: Seq<Gene>, k: int)
    requires
        sorted(a),
        sorted(b),
        0 <= k <= a.len(),
    ensures
        matching(a.take(k), b) <= k,
        k > 0 ==> matching(a.take(k), b) <= rank(b, a[k - 1]) + 1,
        matching(a.take(k), b) <= b.len(),
    decreases k,
{
    if k > 0 {
        let t = a.take(k);
        assert(t.drop_last() =~= a.take(k - 1));
        assert(t.last() == a[k - 1]);
        lemma_matching_counts(a, b, k - 1);
        lemma_rank_splits(b, a[k - 1]);
        lemma_link_at_rank(b, a[k - 1]);
        if k > 1 {
            lemma_rank_splits(b, a[k - 2]);
            lemma_link_at_rank(b, a[k - 2]);
            lemma_rank_monotone(b, a[k - 2], a[k - 1]);
            let p = rank(b, a[k - 2]);
            let q = rank(b, a[k - 1]);
            if has_link(b, a[k - 2]) && has_link(b, a[k - 1]) {
                assert(b[p].same_link(a[k - 2]));
                assert(b[q].same_link(a[k - 1]));
                assert(a[k - 2].before(a[k - 1]));
                assert(p != q);
            }
            if has_link(b, a[k - 2]) && !has_link(b, a[k - 1]) {
                if p == q {
                    assert(b[p].same_link(a[k - 2]));
                    assert(a[k - 2].before(a[k - 1]));
                    assert(b[p].before(a[k - 1]));
                    assert(false);
                }
            }
            lemma_matching_tail(a, b, k - 1);
        }
    }
}

/// Where the last of the first `k` genes of `a` has no partner in `b`, the
/// partners of the others all stand before its rank in `b`.
pub proof fn lemma_matching_tail(a: Seq<Gene>, b: Seq<Gene>, k: int)
    requires
        sorted(a),
        sorted(b),
        0 < k <= a.len(),
    ensures
        !has_link(b, a[k - 1]) ==> matching(a.take(k), b) <= rank(b, a[k - 1]),
    decreases k,
{
    let t = a.take(k);
    assert(t.drop_last() =~= a.take(k - 1));
    assert(t.last() == a[k - 1]);
    lemma_rank_splits(b, a[k - 1]);
    lemma_link_at_rank(b, a[k - 1]);
    if k > 1 {
        lemma_matching_counts(a, b, k - 1);
        lemma_rank_splits(b, a[k - 2]);
        lemma_link_at_rank(b, a[k - 2]);
        lemma_rank_monotone(b, a[k - 2], a[k - 1]);
        lemma_matching_tail(a, b, k - 1);
        let p = rank(b, a[k - 2]);
        let q = rank(b, a[k - 1]);
        if has_link(b, a[k - 2]) && p == q {
            assert(b[p].same_link(a[k - 2]));
            assert(a[k - 2].before(a[k - 1]));
            assert(b[p].before(a[k - 1]));
            assert(false);
        }
    } else {
        assert(a.take(0).len() == 0);
    }
}

/// No gene has a partner in a list without genes.
pub proof fn lemma_matching_none(x: Seq<Gene>, b: Seq<Gene>)
    requires
        b.len() == 0,
    ensures
        matching(x, b) == 0,
        weight_gap(x, b) == 0,
    decreases x.len(),
{
    if x.len() > 0 {
        lemma_matching_none(x.drop_last(), b);
    }
}

/// A link that comes after the last link of a sorted list is not in it.
pub proof fn lemma_link_beyond(s: Seq<Gene>, g: Gene)
    requires
        sorted(s),
        s.len() == 0 || s.last().before(g),
    ensures
        !has_link(s, g),
{
    if has_link(s, g) {
        let i = choose|i: int| 0 <= i < s.len() && s[i].same_link(g);
        if i < s.len() - 1 {
            assert(s[i].before(s[s.len() - 1]));
        }
    }
}

/// Where no gene of `x` has the link of the last gene of the sorted list
/// `b`, the genes of `x` have the same partners in `b` with and without
/// that gene.
pub proof fn lemma_matching_without_last(x: Seq<Gene>, b: Seq<Gene>)
    requires
        sorted(b),
        b.len() > 0,
        !has_link(x, b.last()),
    ensures
        matching(x, b) == matching(x, b.drop_last()),
        weight_gap(x, b) == weight_gap(x, b.drop_last()),
    decreases x.len(),
{
    if x.len() > 0 {
        let rest = x.drop_last();
        let g = x.last();
        let short = b.drop_last();
        assert(!has_link(rest, b.last())) by {
            if has_link(rest, b.last()) {
                let i = choose|i: int| 0 <= i < rest.len() && rest[i].same_link(b.last());
                assert(x[i].same_link(b.last()));
            }
        }
        lemma_matching_without_last(rest, b);
        assert(!g.same_link(b.last())) by {
            if g.same_link(b.last()) {
                assert(x[x.len() - 1].same_link(b.last()));
            }
        }
        assert(has_link(b, g) <==> has_link(short, g)) by {
            if has_link(b, g) {
                let i = choose|i: int| 0 <= i < b.len() && b[i].same_link(g);
                assert(i < b.len() - 1);
                assert(short[i].same_link(g));
            }
            if has_link(short, g) {
                let i = choose|i: int| 0 <= i < short.len() && short[i].same_link(g);
                assert(b[i].same_link(g));
            }
        }
        if has_link(short, g) {
            assert(sorted(short)) by {
                assert forall|i: int, j: int| 0 <= i < j < short.len() implies short[i].before(
                    short[j],
                ) by {
                    assert(b[i].before(b[j]));
                }
            }
            lemma_link_at_rank(short, g);
            lemma_link_at_rank(b, g);
            let i = rank(short, g);
            assert(b[i].same_link(g));
            assert(rank(b, g) == i);
            assert(partner(b, g) == partner(short, g));
        }
    }
}

/// Two sorted lists have as many partners in each other, and the weights of
/// the partners are as far apart, whichever list is taken first.
pub proof fn lemma_matching_symmetric(a: Seq<Gene>, b: Seq<Gene>)
    requires
        sorted(a),
        sorted(b),
    ensures
        matching(a, b) == matching(b, a),
        weight_gap(a, b) == weight_gap(b, a),
    decreases a.len() + b.len(),
{
    if a.len() == 0 {
        lemma_matching_none(b, a);
    } else if b.len() == 0 {
        lemma_matching_none(a, b);
    } else {
        let la = a.last();
        let lb = b.last();
        let sa = a.drop_last();
        let sb = b.drop_last();
        assert(sorted(sa)) by {
            assert forall|i: int, j: int| 0 <= i < j < sa.len() implies sa[i].before(sa[j]) by {
                assert(a[i].before(a[j]));
            }
        }
        assert(sorted(sb)) by {
            assert forall|i: int, j: int| 0 <= i < j < sb.len() implies sb[i].before(sb[j]) by {
                assert(b[i].before(b[j]));
            }
        }
        assert(sa.len() == 0 || sa.last().before(la)) by {
            if sa.len() > 0 {
                assert(a[a.len() - 2].before(a[a.len() - 1]));
            }
        }
        assert(sb.len() == 0 || sb.last().before(lb)) by {
            if sb.len() > 0 {
                assert(b[b.len() - 2].before(b[b.len() - 1]));
            }
        }
        if la.same_link(lb) {
            lemma_link_beyond(sa, lb);
            lemma_link_beyond(sb, la);
            lemma_matching_without_last(sa, b);
            lemma_matching_without_last(sb, a);
            lemma_matching_symmetric(sa, sb);
            assert(b[b.len() - 1].same_link(la));
            assert(a[a.len() - 1].same_link(lb));
            lemma_link_at_rank(b, la);
            lemma_link_at_rank(a, lb);
            assert(partner(b, la) == lb);
            assert(partner(a, lb) == la);
        } else if la.before(lb) {
            lemma_link_beyond(a, lb);
            lemma_matching_without_last(a, b);
            lemma_matching_symmetric(a, sb);
        } else {
            lemma_link_beyond(b, la);
            lemma_matching_without_last(b, a);
            lemma_matching_symmetric(sa, b);
        }
    }
}

/// Two genomes are as far from each other whichever is taken first.
pub proof fn law_distance_symmetric(a: Seq<Gene>, b: Seq<Gene>)
    requires
        sorted(a),
        sorted(b),
    ensures
        distance(a, b) == distance(b, a),
{
    lemma_matching_symmetric(a, b);
}

} // verus!
