use vstd::prelude::*;
use vstd::relations::sorted_by;
use vstd::seq_lib::{to_multiset_build, to_multiset_contains, to_multiset_len};
use crate::error::ServiceError;
use crate::movie::{Movie, NewMovie, spec_created_movie};
use crate::query::{
    PaginationAndSorting, SortKey, SortOrder, opt_text_view, resolve_limit, resolve_page,
    resolve_sort_key, resolve_sort_order, spec_limit_of, spec_page_of, spec_sort_key_of,
    spec_sort_order_of,
};
use crate::sorting::{movie_order, sort_movies};
use crate::bridge::fresh_id;

verus! {

/// A row sequence is well formed when every title is non-empty and no two
/// rows share an id.
pub open spec fn wf_rows(rows: Seq<Movie>) -> bool {
    &&& forall|p: int, q: int|
        0 <= p < q < rows.len() ==> (#[trigger] rows[p]).id != (#[trigger] rows[q]).id
    &&& forall|p: int| 0 <= p < rows.len() ==> (#[trigger] rows[p]).title@.len() > 0
}

/// Some row carries the given id.
pub open spec fn spec_contains_id(rows: Seq<Movie>, id: u128) -> bool {
    exists|k: int| 0 <= k < rows.len() && (#[trigger] rows[k]).id == id
}

/// One row after a mark-watched pass: the targeted row with its flag set,
/// any other row untouched.
pub open spec fn spec_mark_one(m: Movie, id: u128, watched: bool) -> Movie {
    if m.id == id {
        Movie { watched, ..m }
    } else {
        m
    }
}

/// The whole collection after marking the row with `id` as `watched`.
pub open spec fn spec_mark_watched(rows: Seq<Movie>, id: u128, watched: bool) -> Seq<Movie> {
    rows.map_values(|m: Movie| spec_mark_one(m, id, watched))
}

/// The whole collection after deleting the row with `id`.
pub open spec fn spec_delete(rows: Seq<Movie>, id: u128) -> Seq<Movie> {
    rows.filter(|m: Movie| m.id != id)
}

/// The rows whose watched flag equals `watched`, in collection order.
pub open spec fn spec_by_status(rows: Seq<Movie>, watched: bool) -> Seq<Movie> {
    rows.filter(|m: Movie| m.watched == watched)
}

/// Where the requested page starts: `(page - 1) * limit`, clamped to the
/// collection size so that a page beyond the end is empty, not an error.
pub open spec fn spec_window_start(len: int, page: int, limit: int) -> int {
    if (page - 1) * limit > len {
        len
    } else {
        (page - 1) * limit
    }
}

/// Where the requested page ends: `limit` rows past the start, clamped to
/// the collection size.
pub open spec fn spec_window_end(len: int, start: int, limit: int) -> int {
    if start + limit > len {
        len
    } else {
        start + limit
    }
}

/// The persisted movie collection. The backing store's I/O lives outside
/// the library; this type is the authoritative model of the collection's
/// contents that every operation's contract speaks about.
pub struct Catalog {
    movies: Vec<Movie>,
}

impl Catalog {
    /// The rows the catalog currently holds, in insertion order.
    pub closed spec fn rows(&self) -> Seq<Movie> {
        self.movies@
    }

    /// Invariant: titles are non-empty and ids are unique.
    pub open spec fn wf(&self) -> bool {
        wf_rows(self.rows())
    }

    /// An empty catalog.
    pub fn new() -> (r: Catalog)
        ensures
            r.rows() == Seq::<Movie>::empty(),
            r.wf(),
    {
        let r = Catalog { movies: Vec::new() };
        proof {
            assert(r.rows() =~= Seq::<Movie>::empty());
        }
        r
    }

    /// Whether a row with this id exists.
    pub fn contains_movie_id(&self, id: u128) -> (r: bool)
        ensures
            r == spec_contains_id(self.rows(), id),
    {
        let n = self.movies.len();
        let mut i: usize = 0;
        while i < n
            invariant
                i <= n,
                n == self.rows().len(),
                forall|k: int| 0 <= k < i ==> (#[trigger] self.rows()[k]).id != id,
            decreases n - i,
        {
            if self.movies[i].id == id {
                return true;
            }
            i += 1;
        }
        false
    }

    /// Inserts a new row under a caller-supplied fresh id.
    ///
    /// An empty title is rejected as `InvalidInput` with no visible effect.
    /// A colliding id is the store-level uniqueness violation, reported as
    /// `StoreUnavailable`, again with no effect. Otherwise the row is
    /// appended exactly as supplied, with `watched` defaulting to `false`.
    pub fn insert(&mut self, id: u128, item: NewMovie) -> (r: Result<u128, ServiceError>)
        requires
            old(self).wf(),
        ensures
            final(self).wf(),
            item.title@.len() == 0 ==> r == Err::<u128, ServiceError>(ServiceError::InvalidInput)
                && final(self).rows() == old(self).rows(),
            item.title@.len() > 0 && spec_contains_id(old(self).rows(), id) ==> r == Err::<
                u128,
                ServiceError,
            >(ServiceError::StoreUnavailable) && final(self).rows() == old(self).rows(),
            item.title@.len() > 0 && !spec_contains_id(old(self).rows(), id) ==> r == Ok::<
                u128,
                ServiceError,
            >(id) && final(self).rows() == old(self).rows().push(spec_created_movie(id, item)),
    {
        if item.title.as_str().is_empty() {
            return Err(ServiceError::InvalidInput);
        }
        if self.contains_movie_id(id) {
            return Err(ServiceError::StoreUnavailable);
        }
        let ghost pre = self.rows();
        let row = Movie {
            id,
            title: item.title,
            genre: item.genre,
            release_year: item.release_year,
            rating: item.rating,
            watched: match item.watched {
                Some(w) => w,
                None => false,
            },
        };
        self.movies.push(row);
        proof {
            assert(self.rows() =~= pre.push(spec_created_movie(id, item)));
            assert forall|p: int, q: int| 0 <= p < q < self.rows().len() implies (
            #[trigger] self.rows()[p]).id != (#[trigger] self.rows()[q]).id by {
                if q == pre.len() {
                    assert(self.rows()[p] == pre[p]);
                }
            }
        }
        Ok(id)
    }

    /// Adds a catalog item under a freshly generated id.
    ///
    /// On success the returned id is new and the row holds exactly the
    /// supplied fields, `watched` defaulting to `false`. On any failure the
    /// collection is untouched, and the failure is `InvalidInput` exactly
    /// when the title is empty.
    pub fn add(&mut self, item: NewMovie) -> (r: Result<u128, ServiceError>)
        requires
            old(self).wf(),
        ensures
            final(self).wf(),
            match r {
                Ok(id) => item.title@.len() > 0 && !spec_contains_id(old(self).rows(), id)
                    && final(self).rows() == old(self).rows().push(spec_created_movie(id, item)),
                Err(e) => final(self).rows() == old(self).rows() && (e
                    == ServiceError::InvalidInput <==> item.title@.len() == 0) && (e
                    is InvalidInput || e is StoreUnavailable),
            },
    {
        let id = fresh_id();
        self.insert(id, item)
    }

    /// Sets the watched flag of the row with `id`, atomically from the
    /// caller's point of view: the new collection is the old one with that
    /// single row's flag replaced. `NotFound` reports that no row matched;
    /// the collection is then unchanged (marking is idempotent either way).
    pub fn mark_watched(&mut self, id: u128, watched: bool) -> (r: Result<(), ServiceError>)
        requires
            old(self).wf(),
        ensures
            final(self).wf(),
            final(self).rows() == spec_mark_watched(old(self).rows(), id, watched),
            r is Ok <==> spec_contains_id(old(self).rows(), id),
            r is Err ==> r == Err::<(), ServiceError>(ServiceError::NotFound),
    {
        let ghost pre = self.rows();
        let ghost f = |m: Movie| spec_mark_one(m, id, watched);
        let n = self.movies.len();
        let mut updated: Vec<Movie> = Vec::new();
        let mut found = false;
        let mut i: usize = 0;
        while i < n
            invariant
                i <= n,
                n == pre.len(),
                self.rows() == pre,
                f == (|m: Movie| spec_mark_one(m, id, watched)),
                updated@ == pre.take(i as int).map_values(f),
                found == spec_contains_id(pre.take(i as int), id),
            decreases n - i,
        {
            let m = &self.movies[i];
            if m.id == id {
                found = true;
                let mut row = m.clone();
                row.watched = watched;
                updated.push(row);
            } else {
                updated.push(m.clone());
            }
            proof {
                assert(pre.take(i + 1).drop_last() =~= pre.take(i as int));
                assert(updated@ =~= pre.take(i + 1).map_values(f));
                if pre[i as int].id == id {
                    assert(pre.take(i + 1)[i as int].id == id);
                } else if spec_contains_id(pre.take(i as int), id) {
                    let k = choose|k: int|
                        0 <= k < i && (#[trigger] pre.take(i as int)[k]).id == id;
                    assert(pre.take(i + 1)[k].id == id);
                } else if spec_contains_id(pre.take(i + 1), id) {
                    let k = choose|k: int|
                        0 <= k < i + 1 && (#[trigger] pre.take(i + 1)[k]).id == id;
                    assert(k < i && pre.take(i as int)[k].id == id);
                }
            }
            i += 1;
        }
        self.movies = updated;
        proof {
            assert(pre.take(n as int) =~= pre);
            assert forall|p: int, q: int| 0 <= p < q < self.rows().len() implies (
            #[trigger] self.rows()[p]).id != (#[trigger] self.rows()[q]).id by {
                assert(self.rows()[p] == f(pre[p]) && self.rows()[q] == f(pre[q]));
            }
            assert forall|p: int| 0 <= p < self.rows().len() implies (#[trigger] self.rows()[p])
                .title@.len() > 0 by {
                assert(self.rows()[p] == f(pre[p]));
            }
        }
        if found {
            Ok(())
        } else {
            Err(ServiceError::NotFound)
        }
    }

    /// Removes the row with `id` permanently. `NotFound` reports that no
    /// row matched; the collection is then unchanged.
    pub fn delete(&mut self, id: u128) -> (r: Result<(), ServiceError>)
        requires
            old(self).wf(),
        ensures
            final(self).wf(),
            final(self).rows() == spec_delete(old(self).rows(), id),
            r is Ok <==> spec_contains_id(old(self).rows(), id),
            r is Err ==> r == Err::<(), ServiceError>(ServiceError::NotFound),
    {
        let ghost pre = self.rows();
        let ghost pred = |m: Movie| m.id != id;
        let n = self.movies.len();
        let mut kept: Vec<Movie> = Vec::new();
        let mut found = false;
        let mut i: usize = 0;
        while i < n
            invariant
                i <= n,
                n == pre.len(),
                self.rows() == pre,
                pred == (|m: Movie| m.id != id),
                kept@ == pre.take(i as int).filter(pred),
                found == spec_contains_id(pre.take(i as int), id),
            decreases n - i,
        {
            let m = &self.movies[i];
            proof {
                reveal(Seq::filter);
                assert(pre.take(i + 1).drop_last() =~= pre.take(i as int));
                assert(pre.take(i + 1).last() == pre[i as int]);
            }
            if m.id == id {
                found = true;
            } else {
                kept.push(m.clone());
            }
            proof {
                reveal(Seq::filter);
                assert(kept@ =~= pre.take(i + 1).filter(pred));
                if pre[i as int].id == id {
                    assert(pre.take(i + 1)[i as int].id == id);
                } else if spec_contains_id(pre.take(i as int), id) {
                    let k = choose|k: int|
                        0 <= k < i && (#[trigger] pre.take(i as int)[k]).id == id;
                    assert(pre.take(i + 1)[k].id == id);
                } else if spec_contains_id(pre.take(i + 1), id) {
                    let k = choose|k: int|
                        0 <= k < i + 1 && (#[trigger] pre.take(i + 1)[k]).id == id;
                    assert(k < i && pre.take(i as int)[k].id == id);
                }
            }
            i += 1;
        }
        self.movies = kept;
        proof {
            assert(pre.take(n as int) =~= pre);
            lemma_delete_props(pre, id);
        }
        if found {
            Ok(())
        } else {
            Err(ServiceError::NotFound)
        }
    }

    /// All rows with the given watched status, in collection order.
    pub fn list_by_status(&self, watched: bool) -> (r: Vec<Movie>)
        ensures
            r@ == spec_by_status(self.rows(), watched),
    {
        let ghost pred = |m: Movie| m.watched == watched;
        let n = self.movies.len();
        let mut out: Vec<Movie> = Vec::new();
        let mut i: usize = 0;
        while i < n
            invariant
                i <= n,
                n == self.rows().len(),
                pred == (|m: Movie| m.watched == watched),
                out@ == self.rows().take(i as int).filter(pred),
            decreases n - i,
        {
            let m = &self.movies[i];
            proof {
                reveal(Seq::filter);
                assert(self.rows().take(i + 1).drop_last() =~= self.rows().take(i as int));
                assert(self.rows().take(i + 1).last() == self.rows()[i as int]);
            }
            if m.watched == watched {
                out.push(m.clone());
            }
            proof {
                reveal(Seq::filter);
                assert(out@ =~= self.rows().take(i + 1).filter(pred));
            }
            i += 1;
        }
        proof {
            assert(self.rows().take(n as int) =~= self.rows());
        }
        out
    }

    /// Lists one page of the catalog under the caller's (untrusted) sorting
    /// and pagination intent.
    ///
    /// The sort key and direction are resolved against the allow-list, a
    /// missing or unrecognized value falling back to the defaults (`title`,
    /// ascending); raw caller strings never shape the query. The result is
    /// the `[start, end)` window of a permutation of the collection sorted
    /// under the resolved order; a page past the end is empty, not an error.
    pub fn list(&self, params: &PaginationAndSorting) -> (r: Vec<Movie>)
        ensures
            ({
                let key = spec_sort_key_of(opt_text_view(params.sort_by));
                let ord = spec_sort_order_of(opt_text_view(params.order));
                let limit = spec_limit_of(params.limit) as int;
                let page = spec_page_of(params.page) as int;
                let len = self.rows().len() as int;
                let start = spec_window_start(len, page, limit);
                let end = spec_window_end(len, start, limit);
                &&& sorted_by(r@, movie_order(key, ord))
                &&& exists|s: Seq<Movie>|
                    #![auto]
                    s.to_multiset() == self.rows().to_multiset() && sorted_by(
                        s,
                        movie_order(key, ord),
                    ) && r@ == s.subrange(start, end)
            }),
    {
        let key = resolve_sort_key(&params.sort_by);
        let ord = resolve_sort_order(&params.order);
        let limit = resolve_limit(&params.limit);
        let page = resolve_page(&params.page);

        let n = self.movies.len();
        let mut sorted_rows: Vec<Movie> = Vec::new();
        let mut i: usize = 0;
        while i < n
            invariant
                i <= n,
                n == self.rows().len(),
                sorted_rows@ == self.rows().take(i as int),
            decreases n - i,
        {
            sorted_rows.push(self.movies[i].clone());
            proof {
                assert(sorted_rows@ =~= self.rows().take(i + 1));
            }
            i += 1;
        }
        proof {
            assert(self.rows().take(n as int) =~= self.rows());
        }
        sort_movies(&mut sorted_rows, key, ord);
        proof {
            to_multiset_len(sorted_rows@);
            to_multiset_len(self.rows());
            assert(sorted_rows@.len() == self.rows().len());
        }
        let len = sorted_rows.len();
        let start = match (page - 1).checked_mul(limit) {
            Some(off) => if off > len {
                len
            } else {
                off
            },
            None => len,
        };
        let end = if limit > len - start {
            len
        } else {
            start + limit
        };
        let mut out: Vec<Movie> = Vec::new();
        let mut idx = start;
        while idx < end
            invariant
                start <= idx <= end <= sorted_rows@.len(),
                out@ == sorted_rows@.subrange(start as int, idx as int),
            decreases end - idx,
        {
            out.push(sorted_rows[idx].clone());
            proof {
                assert(out@ =~= sorted_rows@.subrange(start as int, idx + 1));
            }
            idx += 1;
        }
        proof {
            let leq = movie_order(key, ord);
            assert forall|p: int, q: int| 0 <= p < q < out@.len() implies leq(
                #[trigger] out@[p],
                #[trigger] out@[q],
            ) by {
                assert(out@[p] == sorted_rows@[start + p]);
                assert(out@[q] == sorted_rows@[start + q]);
            }
            let glen = self.rows().len() as int;
            let gstart = spec_window_start(
                glen,
                spec_page_of(params.page) as int,
                spec_limit_of(params.limit) as int,
            );
            let gend = spec_window_end(glen, gstart, spec_limit_of(params.limit) as int);
            assert(start == gstart);
            assert(end == gend);
            assert(sorted_rows@.to_multiset() == self.rows().to_multiset() && sorted_by(
                sorted_rows@,
                movie_order(key, ord),
            ) && out@ == sorted_rows@.subrange(gstart, gend));
        }
        out
    }
}

/// Deleting an id leaves a well-formed collection in which the id no
/// longer occurs; every surviving row is a row of the input.
pub proof fn lemma_delete_props(rows: Seq<Movie>, id: u128)
    requires
        wf_rows(rows),
    ensures
        wf_rows(spec_delete(rows, id)),
        !spec_contains_id(spec_delete(rows, id), id),
        forall|k: int|
            0 <= k < spec_delete(rows, id).len() ==> rows.contains(
                #[trigger] spec_delete(rows, id)[k],
            ),
    decreases rows.len(),
{
    reveal(Seq::filter);
    let pred = |m: Movie| m.id != id;
    let out = rows.filter(pred);
    if rows.len() == 0 {
        assert(out =~= Seq::<Movie>::empty());
    } else {
        let prefix = rows.drop_last();
        assert(wf_rows(prefix)) by {
            assert(forall|p: int| 0 <= p < prefix.len() ==> prefix[p] == rows[p]);
        }
        lemma_delete_props(prefix, id);
        let sub = prefix.filter(pred);
        assert(forall|k: int| 0 <= k < sub.len() ==> rows.contains(#[trigger] sub[k])) by {
            assert(forall|k: int| 0 <= k < prefix.len() ==> rows.contains(#[trigger] prefix[k]));
        }
        if pred(rows.last()) {
            assert(out == sub.push(rows.last()));
            assert forall|p: int, q: int| 0 <= p < q < out.len() implies (#[trigger] out[p]).id
                != (#[trigger] out[q]).id by {
                if q == sub.len() {
                    // out[p] survives from the strict prefix, whose rows all
                    // differ from the last row in id.
                    assert(rows.contains(sub[p]));
                    let w = choose|w: int| 0 <= w < rows.len() && rows[w] == sub[p];
                    assert(prefix.contains(sub[p]));
                    let v = choose|v: int| 0 <= v < prefix.len() && prefix[v] == sub[p];
                    assert(rows[v] == sub[p]);
                    assert(rows[v].id != rows[rows.len() - 1].id);
                }
            }
            assert(forall|k: int|
                0 <= k < out.len() ==> rows.contains(#[trigger] out[k]));
            assert(forall|p: int|
                0 <= p < out.len() ==> (#[trigger] out[p]).title@.len() > 0) by {
                assert(forall|k: int| 0 <= k < out.len() ==> rows.contains(#[trigger] out[k]));
            }
            assert(!spec_contains_id(out, id)) by {
                assert(forall|k: int| 0 <= k < sub.len() ==> (#[trigger] sub[k]).id != id);
            }
        } else {
            assert(out == sub);
        }
    }
}

/// A filter that keeps every row keeps the sequence as it is.
proof fn lemma_filter_all_kept(s: Seq<Movie>, pred: spec_fn(Movie) -> bool)
    requires
        forall|k: int| 0 <= k < s.len() ==> pred(#[trigger] s[k]),
    ensures
        s.filter(pred) == s,
    decreases s.len(),
{
    reveal(Seq::filter);
    if s.len() == 0 {
        assert(s.filter(pred) =~= s);
    } else {
        lemma_filter_all_kept(s.drop_last(), pred);
        assert(s.drop_last().push(s.last()) =~= s);
    }
}

/// A freshly added row is visible exactly once afterwards: once in the
/// collection (so once in any sorted listing, which permutes it), and it
/// arrives at the end of the matching status listing with exactly the
/// fields it was added with.
pub proof fn lemma_added_row_visible_once(rows: Seq<Movie>, m: Movie)
    requires
        wf_rows(rows),
        !spec_contains_id(rows, m.id),
    ensures
        rows.push(m).to_multiset().count(m) == 1,
        spec_by_status(rows.push(m), m.watched) == spec_by_status(rows, m.watched).push(m),
{
    reveal(Seq::filter);
    to_multiset_build(rows, m);
    to_multiset_contains(rows, m);
    if rows.to_multiset().count(m) > 0 {
        let k = choose|k: int| 0 <= k < rows.len() && rows[k] == m;
        assert(rows[k].id == m.id);
        assert(false);
    }
    let pushed = rows.push(m);
    assert(pushed.drop_last() =~= rows);
    assert(pushed.last() == m);
}

/// Marking a row watched is idempotent: a second identical update changes
/// nothing that the first did not already establish.
pub proof fn lemma_mark_watched_idempotent(rows: Seq<Movie>, id: u128, watched: bool)
    ensures
        spec_mark_watched(spec_mark_watched(rows, id, watched), id, watched) == spec_mark_watched(
            rows,
            id,
            watched,
        ),
{
    let once = spec_mark_watched(rows, id, watched);
    let twice = spec_mark_watched(once, id, watched);
    assert forall|k: int| 0 <= k < rows.len() implies #[trigger] twice[k] == once[k] by {
        assert(once[k] == spec_mark_one(rows[k], id, watched));
    }
    assert(twice =~= once);
}

/// Deleting an id twice removes it once: after the first pass the id is
/// gone (so a second delete reports `NotFound`), and a second pass leaves
/// the rows exactly as they were.
pub proof fn lemma_delete_idempotent(rows: Seq<Movie>, id: u128)
    requires
        wf_rows(rows),
    ensures
        !spec_contains_id(spec_delete(rows, id), id),
        spec_delete(spec_delete(rows, id), id) == spec_delete(rows, id),
{
    lemma_delete_props(rows, id);
    let once = spec_delete(rows, id);
    assert forall|k: int| 0 <= k < once.len() implies (#[trigger] once[k]).id != id by {
        if once[k].id == id {
            assert(spec_contains_id(once, id));
        }
    }
    lemma_filter_all_kept(once, |m: Movie| m.id != id);
}

/// Deleting an id erases a preceding mark of the same id.
proof fn lemma_delete_after_mark(rows: Seq<Movie>, id: u128, watched: bool)
    ensures
        spec_delete(spec_mark_watched(rows, id, watched), id) == spec_delete(rows, id),
    decreases rows.len(),
{
    reveal(Seq::filter);
    let marked = spec_mark_watched(rows, id, watched);
    if rows.len() == 0 {
        assert(marked =~= rows);
    } else {
        lemma_delete_after_mark(rows.drop_last(), id, watched);
        assert(marked.drop_last() =~= spec_mark_watched(rows.drop_last(), id, watched));
        assert(marked.last() == spec_mark_one(rows.last(), id, watched));
        if rows.last().id != id {
            assert(marked.last() == rows.last());
        }
    }
}

/// A mark-watched and a delete racing on the same existing id end in one
/// of exactly two histories. Update first: the update finds its row and
/// the delete then removes it, leaving precisely the plain-delete state.
/// Delete first: the id is already gone, the update finds nothing and
/// changes nothing. Either way the rows left behind are well formed and
/// free of the id — never a corrupted or duplicated row.
pub proof fn lemma_concurrent_mark_delete(rows: Seq<Movie>, id: u128, watched: bool)
    requires
        wf_rows(rows),
        spec_contains_id(rows, id),
    ensures
        spec_contains_id(spec_mark_watched(rows, id, watched), id),
        spec_delete(spec_mark_watched(rows, id, watched), id) == spec_delete(rows, id),
        !spec_contains_id(spec_delete(rows, id), id),
        spec_mark_watched(spec_delete(rows, id), id, watched) == spec_delete(rows, id),
        wf_rows(spec_delete(rows, id)),
{
    let marked = spec_mark_watched(rows, id, watched);
    let k = choose|k: int| 0 <= k < rows.len() && (#[trigger] rows[k]).id == id;
    assert(marked[k] == spec_mark_one(rows[k], id, watched));
    assert(marked[k].id == id);
    lemma_delete_after_mark(rows, id, watched);
    lemma_delete_props(rows, id);
    let gone = spec_delete(rows, id);
    assert forall|j: int| 0 <= j < gone.len() implies #[trigger] spec_mark_watched(
        gone,
        id,
        watched,
    )[j] == gone[j] by {
        if gone[j].id == id {
            assert(spec_contains_id(gone, id));
        }
    }
    assert(spec_mark_watched(gone, id, watched) =~= gone);
}

} // verus!
