use vstd::prelude::*;

verus! {

/// A catalog item.
///
/// `rating` is a fixed-point decimal: the rating multiplied by one hundred,
/// so `Some(875)` stands for 8.75. This keeps rating-grade decimal
/// precision in a plain integer that contracts can speak about; the
/// boundary converts to and from its wire representation.
pub struct Movie {
    pub id: u128,
    pub title: String,
    pub genre: Option<String>,
    pub release_year: Option<i32>,
    pub rating: Option<i64>,
    pub watched: bool,
}

impl Clone for Movie {
    fn clone(&self) -> (r: Self)
        ensures
            r == *self,
    {
        Movie {
            id: self.id,
            title: self.title.clone(),
            genre: match &self.genre {
                Some(g) => Some(g.clone()),
                None => None,
            },
            release_year: self.release_year,
            rating: self.rating,
            watched: self.watched,
        }
    }
}

/// The fields a caller supplies when adding a catalog item. `watched`
/// defaults to `false` when omitted; `id` is generated at insertion.
pub struct NewMovie {
    pub title: String,
    pub genre: Option<String>,
    pub release_year: Option<i32>,
    pub rating: Option<i64>,
    pub watched: Option<bool>,
}

/// The movie that inserting `item` under the fresh identifier `id` creates.
pub open spec fn spec_created_movie(id: u128, item: NewMovie) -> Movie {
    Movie {
        id,
        title: item.title,
        genre: item.genre,
        release_year: item.release_year,
        rating: item.rating,
        watched: match item.watched {
            Some(w) => w,
            None => false,
        },
    }
}

} // verus!
