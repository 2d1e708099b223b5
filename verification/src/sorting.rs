use vstd::prelude::*;
use vstd::relations::{strongly_connected, transitive};
use vstd::relations::sorted_by;
use vstd::seq_lib::{to_multiset_insert, to_multiset_remove, to_multiset_contains};
use crate::movie::Movie;
use crate::query::{SortKey, SortOrder};
use crate::text::{lex_leq, lemma_lex_leq_connected, lemma_lex_leq_transitive, str_leq};

verus! {

/// Order on optional years: present values ascend, absent values sort last.
pub open spec fn opt_i32_leq(x: Option<i32>, y: Option<i32>) -> bool {
    match (x, y) {
        (Some(u), Some(v)) => u <= v,
        (Some(_), None) => true,
        (None, Some(_)) => false,
        (None, None) => true,
    }
}

/// Order on optional ratings: present values ascend, absent values sort last.
pub open spec fn opt_i64_leq(x: Option<i64>, y: Option<i64>) -> bool {
    match (x, y) {
        (Some(u), Some(v)) => u <= v,
        (Some(_), None) => true,
        (None, Some(_)) => false,
        (None, None) => true,
    }
}

/// `a` comes no later than `b` under the given sort column, ascending.
pub open spec fn key_leq(key: SortKey, a: Movie, b: Movie) -> bool {
    match key {
        SortKey::Title => lex_leq(a.title@, b.title@),
        SortKey::ReleaseYear => opt_i32_leq(a.release_year, b.release_year),
        SortKey::Rating => opt_i64_leq(a.rating, b.rating),
        SortKey::Watched => !a.watched || b.watched,
    }
}

/// `a` comes no later than `b` under the given sort column and direction.
pub open spec fn movie_leq(key: SortKey, ord: SortOrder, a: Movie, b: Movie) -> bool {
    match ord {
        SortOrder::Asc => key_leq(key, a, b),
        SortOrder::Desc => key_leq(key, b, a),
    }
}

/// The resolved comparison relation, as a value that `sorted_by` can take.
pub open spec fn movie_order(key: SortKey, ord: SortOrder) -> spec_fn(Movie, Movie) -> bool {
    |a: Movie, b: Movie| movie_leq(key, ord, a, b)
}

/// Every resolved comparison relation is a total preorder: any two movies
/// are comparable, and the relation is transitive.
pub proof fn lemma_movie_order_total(key: SortKey, ord: SortOrder)
    ensures
        strongly_connected(movie_order(key, ord)),
        transitive(movie_order(key, ord)),
{
    let leq = movie_order(key, ord);
    assert forall|a: Movie, b: Movie| #[trigger] leq(a, b) || #[trigger] leq(b, a) by {
        if key is Title {
            lemma_lex_leq_connected(a.title@, b.title@);
        }
    }
    assert forall|a: Movie, b: Movie, c: Movie|
        #[trigger] leq(a, b) && #[trigger] leq(b, c) implies leq(a, c) by {
        if key is Title {
            if ord is Asc {
                lemma_lex_leq_transitive(a.title@, b.title@, c.title@);
            } else {
                lemma_lex_leq_transitive(c.title@, b.title@, a.title@);
            }
        }
    }
}

/// Executable comparison on optional years, matching `opt_i32_leq`.
fn opt_i32_le(x: Option<i32>, y: Option<i32>) -> (r: bool)
    ensures
        r == opt_i32_leq(x, y),
{
    match (x, y) {
        (Some(u), Some(v)) => u <= v,
        (Some(_), None) => true,
        (None, Some(_)) => false,
        (None, None) => true,
    }
}

/// Executable comparison on optional ratings, matching `opt_i64_leq`.
fn opt_i64_le(x: Option<i64>, y: Option<i64>) -> (r: bool)
    ensures
        r == opt_i64_leq(x, y),
{
    match (x, y) {
        (Some(u), Some(v)) => u <= v,
        (Some(_), None) => true,
        (None, Some(_)) => false,
        (None, None) => true,
    }
}

/// Executable comparison under a sort column, matching `key_leq`.
fn key_le(key: SortKey, a: &Movie, b: &Movie) -> (r: bool)
    ensures
        r == key_leq(key, *a, *b),
{
    match key {
        SortKey::Title => str_leq(a.title.as_str(), b.title.as_str()),
        SortKey::ReleaseYear => opt_i32_le(a.release_year, b.release_year),
        SortKey::Rating => opt_i64_le(a.rating, b.rating),
        SortKey::Watched => !a.watched || b.watched,
    }
}

/// Executable comparison under a sort column and direction, matching
/// `movie_leq`.
pub fn movie_le(key: SortKey, ord: SortOrder, a: &Movie, b: &Movie) -> (r: bool)
    ensures
        r == movie_leq(key, ord, *a, *b),
{
    match ord {
        SortOrder::Asc => key_le(key, a, b),
        SortOrder::Desc => key_le(key, b, a),
    }
}

/// Sorts the movies in place under the resolved column and direction.
/// The result is a permutation of the input: same rows, same multiplicities.
pub fn sort_movies(v: &mut Vec<Movie>, key: SortKey, ord: SortOrder)
    ensures
        sorted_by(final(v)@, movie_order(key, ord)),
        final(v)@.to_multiset() == old(v)@.to_multiset(),
{
    let ghost leq = movie_order(key, ord);
    proof {
        lemma_movie_order_total(key, ord);
    }
    if v.len() <= 1 {
        return;
    }
    let mut i: usize = 1;
    while i < v.len()
        invariant
            1 <= i <= v@.len(),
            v@.len() == old(v)@.len(),
            v@.to_multiset() == old(v)@.to_multiset(),
            leq == movie_order(key, ord),
            strongly_connected(leq),
            transitive(leq),
            sorted_by(v@.take(i as int), leq),
        decreases v@.len() - i,
    {
        let ghost pre = v@;
        let x = v.remove(i);
        proof {
            assert(v@.take(i as int) =~= pre.take(i as int));
            assert(pre.contains(x));
            to_multiset_contains(pre, x);
        }
        let mut j: usize = 0;
        while j < i && movie_le(key, ord, &v[j], &x)
            invariant
                j <= i,
                i < pre.len(),
                v@ == pre.remove(i as int),
                leq == movie_order(key, ord),
                forall|k: int| 0 <= k < j ==> leq(v@[k], x),
            decreases i - j,
        {
            j += 1;
        }
        proof {
            // x belongs before every element of the sorted prefix at or
            // beyond position j.
            if j < i {
                assert(!leq(v@[j as int], x));
                assert(leq(x, v@[j as int]));
                assert forall|k: int| j <= k < i implies leq(x, #[trigger] v@[k]) by {
                    if k > j {
                        assert(leq(v@[j as int], v@[k]));
                    }
                }
            }
        }
        let ghost mid = v@;
        v.insert(j, x);
        proof {
            assert(v@ == mid.insert(j as int, x));
            to_multiset_insert(mid, j as int, x);
            to_multiset_remove(pre, i as int);
            assert(mid.to_multiset() == pre.to_multiset().remove(x));
            assert(v@.to_multiset() =~= pre.to_multiset());
            assert forall|p: int, q: int| 0 <= p < q < i + 1 implies
                leq(#[trigger] v@.take(i + 1)[p], #[trigger] v@.take(i + 1)[q]) by {
                assert(v@.take(i + 1)[p] == v@[p]);
                assert(v@.take(i + 1)[q] == v@[q]);
                if p < j && q < j {
                    assert(v@[p] == mid[p] && v@[q] == mid[q]);
                } else if p < j && q == j {
                    assert(v@[p] == mid[p] && v@[q] == x);
                } else if p < j && q > j {
                    assert(v@[p] == mid[p] && v@[q] == mid[q - 1]);
                } else if p == j {
                    assert(v@[p] == x);
                    assert(v@[q] == mid[q - 1]);
                } else {
                    assert(v@[p] == mid[p - 1] && v@[q] == mid[q - 1]);
                }
            }
            assert(sorted_by(v@.take(i + 1), leq));
        }
        i += 1;
    }
    proof {
        assert(v@.take(i as int) =~= v@);
    }
}

} // verus!
