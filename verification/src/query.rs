use vstd::prelude::*;
use crate::text::str_eq;

verus! {

/// The fixed allow-list of sortable columns. Caller-supplied sort keys are
/// resolved into this enumeration before any query is shaped from them, so
/// no raw caller string ever reaches the query structure.
#[derive(Clone, Copy, Debug, PartialEq, Eq, Structural)]
pub enum SortKey {
    Title,
    ReleaseYear,
    Rating,
    Watched,
}

/// The two accepted sort directions.
#[derive(Clone, Copy, Debug, PartialEq, Eq, Structural)]
pub enum SortOrder {
    Asc,
    Desc,
}

/// Caller-supplied listing intent: every field is optional and untrusted.
pub struct PaginationAndSorting {
    pub sort_by: Option<String>,
    pub order: Option<String>,
    pub limit: Option<usize>,
    pub page: Option<usize>,
}

/// The view of an optional string parameter.
pub open spec fn opt_text_view(o: Option<String>) -> Option<Seq<char>> {
    match o {
        None => None,
        Some(s) => Some(s@),
    }
}

/// Which column a caller-supplied `sort_by` resolves to: a missing or
/// unrecognized value falls back to the default, `Title`.
pub open spec fn spec_sort_key_of(o: Option<Seq<char>>) -> SortKey {
    match o {
        None => SortKey::Title,
        Some(s) => if s == "title"@ {
            SortKey::Title
        } else if s == "release_year"@ {
            SortKey::ReleaseYear
        } else if s == "rating"@ {
            SortKey::Rating
        } else if s == "watched"@ {
            SortKey::Watched
        } else {
            SortKey::Title
        },
    }
}

/// Which direction a caller-supplied `order` resolves to: a missing or
/// unrecognized value falls back to the default, ascending.
pub open spec fn spec_sort_order_of(o: Option<Seq<char>>) -> SortOrder {
    match o {
        None => SortOrder::Asc,
        Some(s) => if s == "asc"@ {
            SortOrder::Asc
        } else if s == "desc"@ {
            SortOrder::Desc
        } else {
            SortOrder::Asc
        },
    }
}

/// The page size in effect: the caller's `limit`, or 10 when omitted.
pub open spec fn spec_limit_of(o: Option<usize>) -> usize {
    match o {
        None => 10usize,
        Some(l) => l,
    }
}

/// The 1-based page in effect: the caller's `page` clamped up to 1, or 1
/// when omitted.
pub open spec fn spec_page_of(o: Option<usize>) -> usize {
    match o {
        None => 1usize,
        Some(p) => if p < 1 {
            1usize
        } else {
            p
        },
    }
}

/// Resolves `sort_by` against the allow-list, falling back to the default.
pub fn resolve_sort_key(o: &Option<String>) -> (r: SortKey)
    ensures
        r == spec_sort_key_of(opt_text_view(*o)),
{
    match o {
        None => SortKey::Title,
        Some(s) => {
            if str_eq(s.as_str(), "title") {
                SortKey::Title
            } else if str_eq(s.as_str(), "release_year") {
                SortKey::ReleaseYear
            } else if str_eq(s.as_str(), "rating") {
                SortKey::Rating
            } else if str_eq(s.as_str(), "watched") {
                SortKey::Watched
            } else {
                SortKey::Title
            }
        },
    }
}

/// Resolves `order` against the accepted direction tokens, falling back to
/// ascending.
pub fn resolve_sort_order(o: &Option<String>) -> (r: SortOrder)
    ensures
        r == spec_sort_order_of(opt_text_view(*o)),
{
    match o {
        None => SortOrder::Asc,
        Some(s) => {
            if str_eq(s.as_str(), "asc") {
                SortOrder::Asc
            } else if str_eq(s.as_str(), "desc") {
                SortOrder::Desc
            } else {
                SortOrder::Asc
            }
        },
    }
}

/// The page size in effect.
pub fn resolve_limit(o: &Option<usize>) -> (r: usize)
    ensures
        r == spec_limit_of(*o),
{
    match o {
        None => 10,
        Some(l) => *l,
    }
}

/// The 1-based page in effect; a page below 1 is clamped to 1.
pub fn resolve_page(o: &Option<usize>) -> (r: usize)
    ensures
        r == spec_page_of(*o),
        r >= 1,
{
    match o {
        None => 1,
        Some(p) => if *p < 1 {
            1
        } else {
            *p
        },
    }
}

} // verus!
