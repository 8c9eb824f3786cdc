//! The aggregate read path: cross-entity search, pagination, and nested
//! result assembly.
//!
//! A movie is relevant to a search term when the term occurs, case
//! folded, in its title, in its director's name, or in the name of a
//! linked actor or genre. The matching movies are paginated in ascending
//! id order and each one is hydrated into a nested record carrying its
//! director, actors and genres.

use vstd::prelude::*;

use crate::models::{
    Actor, Catalog, CatalogState, Director, Genre, Movie, actor_link_present, actor_linked,
    clone_actor, clone_director, clone_genre, clone_movie, director_exists, director_index,
    genre_link_present, genre_linked, lemma_director_id_unique, lemma_movies_len_bound,
};
use crate::text::{name_matches, normalize_query, normalized_query, str_matches, view_query};

verus! {

/// The aggregate query: an optional search term, a page (default 1,
/// floor 1) and a page size (default 10, clamped into [1, 100]).
#[derive(Clone, Debug, PartialEq)]
pub struct MovieFullQuery {
    pub q: Option<String>,
    pub page: Option<u32>,
    pub per_page: Option<u32>,
}

/// A nested movie record: the movie with its director, actors and
/// genres attached.
#[derive(Clone, Debug, PartialEq)]
pub struct MovieFull {
    pub id: i32,
    pub title: String,
    pub director: Option<Director>,
    pub actors: Vec<Actor>,
    pub genres: Vec<Genre>,
}

/// Response metadata: the total match count and the page bounds used.
#[derive(Clone, Copy, Debug, PartialEq, Eq, Structural)]
pub struct Meta {
    pub total: usize,
    pub page: u32,
    pub per_page: u32,
    pub last_page: u32,
}

/// The aggregate response: metadata and the hydrated page slice.
#[derive(Clone, Debug, PartialEq)]
pub struct MovieFullResponse {
    pub meta: Meta,
    pub results: Vec<MovieFull>,
}

/// The mathematical form of a nested movie record.
pub struct MovieFullView {
    pub id: i32,
    pub title: String,
    pub director: Option<Director>,
    pub actors: Seq<Actor>,
    pub genres: Seq<Genre>,
}

/// The mathematical form of the aggregate response.
pub struct MovieFullResponseView {
    pub meta: Meta,
    pub results: Seq<MovieFullView>,
}

impl View for MovieFull {
    type V = MovieFullView;

    open spec fn view(&self) -> MovieFullView {
        MovieFullView {
            id: self.id,
            title: self.title,
            director: self.director,
            actors: self.actors@,
            genres: self.genres@,
        }
    }
}

impl DeepView for MovieFull {
    type V = MovieFullView;

    open spec fn deep_view(&self) -> MovieFullView {
        self.view()
    }
}

impl View for MovieFullResponse {
    type V = MovieFullResponseView;

    open spec fn view(&self) -> MovieFullResponseView {
        MovieFullResponseView { meta: self.meta, results: self.results.deep_view() }
    }
}

/// The term occurs in the movie's title.
pub open spec fn title_matches(m: Movie, term: Seq<char>) -> bool {
    name_matches(m.title@, term)
}

/// The term occurs in the name of the movie's director.
pub open spec fn director_matches(cat: CatalogState, m: Movie, term: Seq<char>) -> bool {
    exists|i: int|
        0 <= i < cat.directors.len() && (#[trigger] cat.directors[i]).id == m.director_id
            && name_matches(cat.directors[i].name@, term)
}

/// The term occurs in the name of an actor linked to the movie.
pub open spec fn actor_matches(cat: CatalogState, m: Movie, term: Seq<char>) -> bool {
    exists|j: int|
        0 <= j < cat.actors.len() && actor_linked(
            cat.movie_actors,
            m.id,
            (#[trigger] cat.actors[j]).id,
        ) && name_matches(cat.actors[j].name@, term)
}

/// The term occurs in the name of a genre linked to the movie.
pub open spec fn genre_matches(cat: CatalogState, m: Movie, term: Seq<char>) -> bool {
    exists|j: int|
        0 <= j < cat.genres.len() && genre_linked(
            cat.movie_genres,
            m.id,
            (#[trigger] cat.genres[j]).id,
        ) && name_matches(cat.genres[j].name@, term)
}

/// The movie is relevant to the term: a match on its title, its
/// director, a linked actor or a linked genre.
pub open spec fn movie_matches(cat: CatalogState, m: Movie, term: Seq<char>) -> bool {
    ||| title_matches(m, term)
    ||| director_matches(cat, m, term)
    ||| actor_matches(cat, m, term)
    ||| genre_matches(cat, m, term)
}

/// The movies the aggregate query covers, in table (ascending id)
/// order: all of them without a term, the relevant ones with one.
pub open spec fn matching_movies(cat: CatalogState, term: Option<Seq<char>>) -> Seq<Movie> {
    match term {
        None => cat.movies,
        Some(t) => cat.movies.filter(|m: Movie| movie_matches(cat, m, t)),
    }
}

/// The page requested, floored at 1.
pub open spec fn clamped_page(page: Option<u32>) -> u32 {
    match page {
        None => 1,
        Some(p) => if p < 1 {
            1
        } else {
            p
        },
    }
}

/// The page size requested, defaulted to 10 and clamped into [1, 100].
pub open spec fn clamped_per_page(per_page: Option<u32>) -> u32 {
    match per_page {
        None => 10,
        Some(p) => if p < 1 {
            1
        } else if p > 100 {
            100
        } else {
            p
        },
    }
}

/// The number of the last page: `total / per_page` rounded up, floored
/// at 1 even when `total` is 0.
pub open spec fn spec_last_page(total: int, per_page: int) -> int
    recommends
        total >= 0,
        per_page >= 1,
{
    let c = (total + per_page - 1) / per_page;
    if c < 1 {
        1
    } else {
        c
    }
}

/// The window of the matching movies that one page shows.
pub open spec fn page_slice(ms: Seq<Movie>, page: u32, per_page: u32) -> Seq<Movie>
    recommends
        page >= 1,
{
    let off = (page - 1) * per_page;
    if off >= ms.len() {
        Seq::empty()
    } else if off + per_page <= ms.len() {
        ms.subrange(off as int, off + per_page)
    } else {
        ms.subrange(off as int, ms.len() as int)
    }
}

/// The director row a movie references, when present.
pub open spec fn director_of(cat: CatalogState, id: i32) -> Option<Director> {
    if director_exists(cat.directors, id) {
        Some(cat.directors[choose|i: int| 0 <= i < cat.directors.len() && cat.directors[i].id == id])
    } else {
        None
    }
}

/// The actors linked to a movie, in table (ascending id) order.
pub open spec fn actors_of(cat: CatalogState, movie_id: i32) -> Seq<Actor> {
    cat.actors.filter(|a: Actor| actor_linked(cat.movie_actors, movie_id, a.id))
}

/// The genres linked to a movie, in table (ascending id) order.
pub open spec fn genres_of(cat: CatalogState, movie_id: i32) -> Seq<Genre> {
    cat.genres.filter(|g: Genre| genre_linked(cat.movie_genres, movie_id, g.id))
}

/// The nested record the aggregate response shows for one movie.
pub open spec fn hydrated(cat: CatalogState, m: Movie) -> MovieFullView {
    MovieFullView {
        id: m.id,
        title: m.title,
        director: director_of(cat, m.director_id),
        actors: actors_of(cat, m.id),
        genres: genres_of(cat, m.id),
    }
}

/// The whole aggregate response, for every catalog and query: the term
/// is normalized, the matching movies are counted and paginated, and
/// the page slice is hydrated.
pub open spec fn response_spec(
    cat: CatalogState,
    q: Option<Seq<char>>,
    page_req: Option<u32>,
    per_page_req: Option<u32>,
) -> MovieFullResponseView {
    let page = clamped_page(page_req);
    let per_page = clamped_per_page(per_page_req);
    let ms = matching_movies(cat, normalized_query(q));
    let total = ms.len();
    MovieFullResponseView {
        meta: Meta {
            total: total as usize,
            page,
            per_page,
            last_page: spec_last_page(total as int, per_page as int) as u32,
        },
        results: page_slice(ms, page, per_page).map_values(|m: Movie| hydrated(cat, m)),
    }
}

/// One step of an incremental filter over a prefix.
proof fn lemma_filter_step<A>(s: Seq<A>, p: spec_fn(A) -> bool, i: int)
    requires
        0 <= i < s.len(),
    ensures
        s.subrange(0, i + 1).filter(p) == if p(s[i]) {
            s.subrange(0, i).filter(p).push(s[i])
        } else {
            s.subrange(0, i).filter(p)
        },
{
    let t = s.subrange(0, i + 1);
    assert(t.drop_last() =~= s.subrange(0, i));
    assert(t.last() == s[i]);
    reveal_with_fuel(Seq::filter, 2);
}

/// Whether the term occurs in the name of the movie's director.
fn director_match_exec(cat: &Catalog, m: &Movie, term: &Vec<char>) -> (r: bool)
    ensures
        r == director_matches(cat@, *m, term@),
{
    let mut i: usize = 0;
    while i < cat.directors.len()
        invariant
            i <= cat@.directors.len(),
            forall|k: int|
                0 <= k < i ==> !((#[trigger] cat@.directors[k]).id == m.director_id
                    && name_matches(cat@.directors[k].name@, term@)),
        decreases cat@.directors.len() - i,
    {
        if cat.directors[i].id == m.director_id && str_matches(cat.directors[i].name.as_str(), term)
        {
            assert(cat@.directors[i as int].id == m.director_id && name_matches(
                cat@.directors[i as int].name@,
                term@,
            ));
            return true;
        }
        i = i + 1;
    }
    false
}

/// Whether the term occurs in the name of an actor linked to the movie.
fn actor_match_exec(cat: &Catalog, m: &Movie, term: &Vec<char>) -> (r: bool)
    ensures
        r == actor_matches(cat@, *m, term@),
{
    let mut j: usize = 0;
    while j < cat.actors.len()
        invariant
            j <= cat@.actors.len(),
            forall|k: int|
                0 <= k < j ==> !(actor_linked(
                    cat@.movie_actors,
                    m.id,
                    (#[trigger] cat@.actors[k]).id,
                ) && name_matches(cat@.actors[k].name@, term@)),
        decreases cat@.actors.len() - j,
    {
        if actor_link_present(&cat.movie_actors, m.id, cat.actors[j].id) && str_matches(
            cat.actors[j].name.as_str(),
            term,
        ) {
            assert(actor_linked(cat@.movie_actors, m.id, cat@.actors[j as int].id) && name_matches(
                cat@.actors[j as int].name@,
                term@,
            ));
            return true;
        }
        j = j + 1;
    }
    false
}

/// Whether the term occurs in the name of a genre linked to the movie.
fn genre_match_exec(cat: &Catalog, m: &Movie, term: &Vec<char>) -> (r: bool)
    ensures
        r == genre_matches(cat@, *m, term@),
{
    let mut j: usize = 0;
    while j < cat.genres.len()
        invariant
            j <= cat@.genres.len(),
            forall|k: int|
                0 <= k < j ==> !(genre_linked(
                    cat@.movie_genres,
                    m.id,
                    (#[trigger] cat@.genres[k]).id,
                ) && name_matches(cat@.genres[k].name@, term@)),
        decreases cat@.genres.len() - j,
    {
        if genre_link_present(&cat.movie_genres, m.id, cat.genres[j].id) && str_matches(
            cat.genres[j].name.as_str(),
            term,
        ) {
            assert(genre_linked(cat@.movie_genres, m.id, cat@.genres[j as int].id) && name_matches(
                cat@.genres[j as int].name@,
                term@,
            ));
            return true;
        }
        j = j + 1;
    }
    false
}

/// Whether the movie is relevant to the term.
fn movie_match_exec(cat: &Catalog, m: &Movie, term: &Vec<char>) -> (r: bool)
    ensures
        r == movie_matches(cat@, *m, term@),
{
    str_matches(m.title.as_str(), term) || director_match_exec(cat, m, term) || actor_match_exec(
        cat,
        m,
        term,
    ) || genre_match_exec(cat, m, term)
}

/// Builds the nested record for one movie: its director, actors and
/// genres looked up in the catalog.
fn hydrate_movie(cat: &Catalog, m: &Movie) -> (r: MovieFull)
    requires
        cat@.wf(),
    ensures
        r@ == hydrated(cat@, *m),
{
    let director: Option<Director> = match director_index(&cat.directors, m.director_id) {
        Some(i) => {
            proof {
                let c = choose|k: int|
                    0 <= k < cat@.directors.len() && cat@.directors[k].id == m.director_id;
                lemma_director_id_unique(cat@.directors, c, i as int);
            }
            Some(clone_director(&cat.directors[i]))
        },
        None => None,
    };
    assert(director == director_of(cat@, m.director_id));
    let ghost actor_pred = |a: Actor| actor_linked(cat@.movie_actors, m.id, a.id);
    let mut actors: Vec<Actor> = Vec::new();
    let mut j: usize = 0;
    while j < cat.actors.len()
        invariant
            j <= cat@.actors.len(),
            actors@ == cat@.actors.subrange(0, j as int).filter(actor_pred),
            actor_pred == (|a: Actor| actor_linked(cat@.movie_actors, m.id, a.id)),
        decreases cat@.actors.len() - j,
    {
        proof {
            lemma_filter_step(cat@.actors, actor_pred, j as int);
        }
        if actor_link_present(&cat.movie_actors, m.id, cat.actors[j].id) {
            actors.push(clone_actor(&cat.actors[j]));
        }
        j = j + 1;
    }
    assert(cat@.actors.subrange(0, cat@.actors.len() as int) =~= cat@.actors);
    let ghost genre_pred = |g: Genre| genre_linked(cat@.movie_genres, m.id, g.id);
    let mut genres: Vec<Genre> = Vec::new();
    let mut j2: usize = 0;
    while j2 < cat.genres.len()
        invariant
            j2 <= cat@.genres.len(),
            genres@ == cat@.genres.subrange(0, j2 as int).filter(genre_pred),
            genre_pred == (|g: Genre| genre_linked(cat@.movie_genres, m.id, g.id)),
        decreases cat@.genres.len() - j2,
    {
        proof {
            lemma_filter_step(cat@.genres, genre_pred, j2 as int);
        }
        if genre_link_present(&cat.movie_genres, m.id, cat.genres[j2].id) {
            genres.push(clone_genre(&cat.genres[j2]));
        }
        j2 = j2 + 1;
    }
    assert(cat@.genres.subrange(0, cat@.genres.len() as int) =~= cat@.genres);
    MovieFull { id: m.id, title: m.title.clone(), director, actors, genres }
}

impl Catalog {
    /// Answers the aggregate query: normalizes the term, selects the
    /// matching movies in ascending id order, computes the pagination
    /// metadata, and hydrates the requested page slice.
    #[verifier::loop_isolation(false)]
    #[verifier::rlimit(100)]
    pub fn movies_full(&self, query: &MovieFullQuery) -> (r: MovieFullResponse)
        requires
            self@.wf(),
        ensures
            r@ == response_spec(self@, view_query(query.q), query.page, query.per_page),
    {
        let page: u32 = match query.page {
            None => 1,
            Some(p) => if p < 1 {
                1
            } else {
                p
            },
        };
        let per_page: u32 = match query.per_page {
            None => 10,
            Some(p) => if p < 1 {
                1
            } else if p > 100 {
                100
            } else {
                p
            },
        };
        assert(page == clamped_page(query.page));
        assert(per_page == clamped_per_page(query.per_page));
        let nq = normalize_query(&query.q);
        let ghost term = normalized_query(view_query(query.q));
        let mut matched: Vec<Movie> = Vec::new();
        match &nq {
            None => {
                let mut i: usize = 0;
                while i < self.movies.len()
                    invariant
                        i <= self@.movies.len(),
                        matched@ == self@.movies.subrange(0, i as int),
                    decreases self@.movies.len() - i,
                {
                    matched.push(clone_movie(&self.movies[i]));
                    i = i + 1;
                    assert(matched@ =~= self@.movies.subrange(0, i as int));
                }
                assert(self@.movies.subrange(0, self@.movies.len() as int) =~= self@.movies);
            },
            Some(t) => {
                let ghost pred = |m: Movie| movie_matches(self@, m, t@);
                let mut i: usize = 0;
                while i < self.movies.len()
                    invariant
                        i <= self@.movies.len(),
                        matched@ == self@.movies.subrange(0, i as int).filter(pred),
                        pred == (|m: Movie| movie_matches(self@, m, t@)),
                    decreases self@.movies.len() - i,
                {
                    proof {
                        lemma_filter_step(self@.movies, pred, i as int);
                    }
                    if movie_match_exec(self, &self.movies[i], t) {
                        matched.push(clone_movie(&self.movies[i]));
                    }
                    i = i + 1;
                }
                assert(self@.movies.subrange(0, self@.movies.len() as int) =~= self@.movies);
            },
        }
        assert(matched@ == matching_movies(self@, term));
        let total = matched.len();
        proof {
            lemma_movies_len_bound(self@.movies);
            if term is Some {
                self@.movies.lemma_filter_len(
                    |m: Movie| movie_matches(self@, m, term->Some_0),
                );
            }
            assert(total <= 0x7fff_ffff);
        }
        let pp_us: usize = per_page as usize;
        let c: usize = (total + pp_us - 1) / pp_us;
        let last_page_us: usize = if c < 1 {
            1
        } else {
            c
        };
        assert(last_page_us as int == spec_last_page(total as int, per_page as int));
        let p64: u64 = page as u64 - 1;
        let pp64: u64 = per_page as u64;
        proof {
            assert(p64 * pp64 <= 0xffff_ffffu64 * 100) by (nonlinear_arith)
                requires
                    p64 <= 0xffff_ffff,
                    pp64 <= 100,
            ;
        }
        let off64: u64 = p64 * pp64;
        proof {
            assert(off64 == (page - 1) * per_page) by (nonlinear_arith)
                requires
                    page >= 1,
                    p64 == page - 1,
                    pp64 == per_page,
                    off64 == p64 * pp64,
            ;
        }
        let mut results: Vec<MovieFull> = Vec::new();
        let ghost ms = matching_movies(self@, term);
        let ghost slice = page_slice(ms, page, per_page);
        if off64 < total as u64 {
            let off: usize = off64 as usize;
            let end: usize = if off + pp_us <= total {
                off + pp_us
            } else {
                total
            };
            assert(slice == matched@.subrange(off as int, end as int));
            let mut k: usize = off;
            while k < end
                invariant
                    off <= k <= end,
                    results@.len() == k - off,
                    forall|t2: int|
                        0 <= t2 < results@.len() ==> (#[trigger] results@[t2])@ == hydrated(
                            self@,
                            matched@[off + t2],
                        ),
                decreases end - k,
            {
                results.push(hydrate_movie(self, &matched[k]));
                k = k + 1;
            }
            assert(results.deep_view() =~= slice.map_values(|m: Movie| hydrated(self@, m)));
        } else {
            assert(slice =~= Seq::<Movie>::empty());
            assert(results.deep_view() =~= slice.map_values(|m: Movie| hydrated(self@, m)));
        }
        let meta = Meta { total, page, per_page, last_page: last_page_us as u32 };
        let r = MovieFullResponse { meta, results };
        assert(r@.meta == response_spec(self@, view_query(query.q), query.page, query.per_page).meta);
        assert(r@.results == response_spec(
            self@,
            view_query(query.q),
            query.page,
            query.per_page,
        ).results);
        r
    }
}

} // verus!
