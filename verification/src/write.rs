//! The write path: entity creation with id assignment and, for movies,
//! foreign-key validation and association rows.
//!
//! Movie creation is deliberately not atomic: the director is checked
//! first, the movie row is inserted, then each requested actor and genre
//! link is validated and inserted in order. A failure partway through
//! leaves the movie row and the links already made in place, exactly as
//! `create_movie` states.

use vstd::prelude::*;

use crate::models::{
    Actor, Catalog, CatalogState, Director, Genre, Movie, MovieActor, MovieGenre, actor_exists,
    actor_index, actor_link_present, actor_linked, director_exists, director_index, genre_exists,
    genre_index, genre_link_present, genre_linked, lemma_actor_exists_push,
    lemma_actor_links_fk_grow, lemma_genre_exists_push, lemma_genre_links_fk_grow,
    lemma_movie_exists_push, lemma_push_actor, lemma_push_actor_link, lemma_push_director,
    lemma_push_genre, lemma_push_genre_link, lemma_push_movie, movie_exists, next_actor_id,
    next_director_id, next_genre_id, next_movie_id,
};

verus! {

/// A director-creation request.
#[derive(Clone, Debug, PartialEq)]
pub struct CreateDirector {
    pub name: String,
}

/// An actor-creation request.
#[derive(Clone, Debug, PartialEq)]
pub struct CreateActor {
    pub name: String,
}

/// A genre-creation request.
#[derive(Clone, Debug, PartialEq)]
pub struct CreateGenre {
    pub name: String,
}

/// A movie-creation request: the title, the director, and the actors and
/// genres to link.
#[derive(Clone, Debug, PartialEq)]
pub struct CreateMovie {
    pub title: String,
    pub director_id: i32,
    pub actor_ids: Vec<i32>,
    pub genre_ids: Vec<i32>,
}

/// Why a write was refused. The `Missing*` variants are validation
/// errors (a client-side fault naming the offending id); the others are
/// storage-level faults.
#[derive(Clone, Copy, Debug, PartialEq, Eq, Structural)]
pub enum CatalogError {
    MissingDirector { id: i32 },
    MissingActor { id: i32 },
    MissingGenre { id: i32 },
    DuplicateActorLink { movie_id: i32, actor_id: i32 },
    DuplicateGenreLink { movie_id: i32, genre_id: i32 },
    IdSpaceExhausted,
}

impl CatalogError {
    /// A validation error is the caller's fault and maps to a client
    /// error response; the rest map to server error responses.
    pub open spec fn spec_is_client_error(self) -> bool {
        match self {
            CatalogError::MissingDirector { .. } => true,
            CatalogError::MissingActor { .. } => true,
            CatalogError::MissingGenre { .. } => true,
            _ => false,
        }
    }

    /// Whether this error maps to a client error response.
    pub fn is_client_error(&self) -> (r: bool)
        ensures
            r == self.spec_is_client_error(),
    {
        match self {
            CatalogError::MissingDirector { .. } => true,
            CatalogError::MissingActor { .. } => true,
            CatalogError::MissingGenre { .. } => true,
            _ => false,
        }
    }
}

/// Links a movie to each actor id in turn: a missing actor or an already
/// linked pair stops the walk and leaves the links made so far in place.
pub open spec fn link_actors(s: CatalogState, movie_id: i32, ids: Seq<i32>) -> (
    CatalogState,
    Option<CatalogError>,
)
    decreases ids.len(),
{
    if ids.len() == 0 {
        (s, None)
    } else {
        let a = ids[0];
        if !actor_exists(s.actors, a) {
            (s, Some(CatalogError::MissingActor { id: a }))
        } else if actor_linked(s.movie_actors, movie_id, a) {
            (s, Some(CatalogError::DuplicateActorLink { movie_id, actor_id: a }))
        } else {
            link_actors(
                CatalogState {
                    movie_actors: s.movie_actors.push(MovieActor { movie_id, actor_id: a }),
                    ..s
                },
                movie_id,
                ids.drop_first(),
            )
        }
    }
}

/// Links a movie to each genre id in turn, as `link_actors` does for
/// actors.
pub open spec fn link_genres(s: CatalogState, movie_id: i32, ids: Seq<i32>) -> (
    CatalogState,
    Option<CatalogError>,
)
    decreases ids.len(),
{
    if ids.len() == 0 {
        (s, None)
    } else {
        let g = ids[0];
        if !genre_exists(s.genres, g) {
            (s, Some(CatalogError::MissingGenre { id: g }))
        } else if genre_linked(s.movie_genres, movie_id, g) {
            (s, Some(CatalogError::DuplicateGenreLink { movie_id, genre_id: g }))
        } else {
            link_genres(
                CatalogState {
                    movie_genres: s.movie_genres.push(MovieGenre { movie_id, genre_id: g }),
                    ..s
                },
                movie_id,
                ids.drop_first(),
            )
        }
    }
}

/// The movie row a successful creation inserts: the next id, the
/// requested title and director.
pub open spec fn new_movie(s: CatalogState, req: CreateMovie) -> Movie {
    Movie { id: next_movie_id(s.movies) as i32, title: req.title, director_id: req.director_id }
}

/// What movie creation does to the catalog: the next state and the
/// response, for every request. A missing director leaves the state
/// unchanged; a failure among the links keeps the movie row and the
/// links already made.
pub open spec fn create_movie(s: CatalogState, req: CreateMovie) -> (
    CatalogState,
    Result<Movie, CatalogError>,
) {
    if !director_exists(s.directors, req.director_id) {
        (s, Err(CatalogError::MissingDirector { id: req.director_id }))
    } else if next_movie_id(s.movies) > i32::MAX as int {
        (s, Err(CatalogError::IdSpaceExhausted))
    } else {
        let m = new_movie(s, req);
        let s1 = CatalogState { movies: s.movies.push(m), ..s };
        let step_a = link_actors(s1, m.id, req.actor_ids@);
        match step_a.1 {
            Some(e) => (step_a.0, Err(e)),
            None => {
                let step_g = link_genres(step_a.0, m.id, req.genre_ids@);
                match step_g.1 {
                    Some(e) => (step_g.0, Err(e)),
                    None => (step_g.0, Ok(m)),
                }
            },
        }
    }
}

impl Catalog {
    /// Creates a director with the next id and returns the new row.
    pub fn add_director(&mut self, name: String) -> (r: Result<Director, CatalogError>)
        requires
            old(self)@.wf(),
        ensures
            final(self)@.wf(),
            final(self)@.actors == old(self)@.actors,
            final(self)@.genres == old(self)@.genres,
            final(self)@.movies == old(self)@.movies,
            final(self)@.movie_actors == old(self)@.movie_actors,
            final(self)@.movie_genres == old(self)@.movie_genres,
            match r {
                Ok(d) => {
                    &&& next_director_id(old(self)@.directors) <= i32::MAX as int
                    &&& d == (Director {
                        id: next_director_id(old(self)@.directors) as i32,
                        name: name,
                    })
                    &&& final(self)@.directors == old(self)@.directors.push(d)
                },
                Err(e) => {
                    &&& e == CatalogError::IdSpaceExhausted
                    &&& next_director_id(old(self)@.directors) > i32::MAX as int
                    &&& final(self)@ == old(self)@
                },
            },
    {
        let id: i32;
        if self.directors.len() == 0 {
            id = 1;
        } else {
            let last = self.directors[self.directors.len() - 1].id;
            if last == i32::MAX {
                return Err(CatalogError::IdSpaceExhausted);
            }
            id = last + 1;
        }
        let row = Director { id, name: name.clone() };
        assert(row == Director { id, name });
        self.directors.push(row);
        proof {
            assert(self@.directors == old(self)@.directors.push(Director { id, name }));
            lemma_push_director(old(self)@.directors, Director { id, name });
        }
        Ok(Director { id, name })
    }

    /// Creates an actor with the next id and returns the new row.
    pub fn add_actor(&mut self, name: String) -> (r: Result<Actor, CatalogError>)
        requires
            old(self)@.wf(),
        ensures
            final(self)@.wf(),
            final(self)@.directors == old(self)@.directors,
            final(self)@.genres == old(self)@.genres,
            final(self)@.movies == old(self)@.movies,
            final(self)@.movie_actors == old(self)@.movie_actors,
            final(self)@.movie_genres == old(self)@.movie_genres,
            match r {
                Ok(a) => {
                    &&& next_actor_id(old(self)@.actors) <= i32::MAX as int
                    &&& a == (Actor { id: next_actor_id(old(self)@.actors) as i32, name: name })
                    &&& final(self)@.actors == old(self)@.actors.push(a)
                },
                Err(e) => {
                    &&& e == CatalogError::IdSpaceExhausted
                    &&& next_actor_id(old(self)@.actors) > i32::MAX as int
                    &&& final(self)@ == old(self)@
                },
            },
    {
        let id: i32;
        if self.actors.len() == 0 {
            id = 1;
        } else {
            let last = self.actors[self.actors.len() - 1].id;
            if last == i32::MAX {
                return Err(CatalogError::IdSpaceExhausted);
            }
            id = last + 1;
        }
        let row = Actor { id, name: name.clone() };
        assert(row == Actor { id, name });
        self.actors.push(row);
        proof {
            let s0 = old(self)@;
            assert(self@.actors == s0.actors.push(Actor { id, name }));
            lemma_push_actor(s0.actors, Actor { id, name });
            assert forall|id2: i32| actor_exists(s0.actors, id2) implies #[trigger] actor_exists(
                self@.actors,
                id2,
            ) by {
                lemma_actor_exists_push(s0.actors, Actor { id, name }, id2);
            }
            assert forall|id2: i32| movie_exists(s0.movies, id2) implies #[trigger] movie_exists(
                self@.movies,
                id2,
            ) by {}
            lemma_actor_links_fk_grow(s0.movie_actors, s0.movies, s0.actors, self@.movies, self@.actors);
        }
        Ok(Actor { id, name })
    }

    /// Creates a genre with the next id and returns the new row.
    pub fn add_genre(&mut self, name: String) -> (r: Result<Genre, CatalogError>)
        requires
            old(self)@.wf(),
        ensures
            final(self)@.wf(),
            final(self)@.directors == old(self)@.directors,
            final(self)@.actors == old(self)@.actors,
            final(self)@.movies == old(self)@.movies,
            final(self)@.movie_actors == old(self)@.movie_actors,
            final(self)@.movie_genres == old(self)@.movie_genres,
            match r {
                Ok(g) => {
                    &&& next_genre_id(old(self)@.genres) <= i32::MAX as int
                    &&& g == (Genre { id: next_genre_id(old(self)@.genres) as i32, name: name })
                    &&& final(self)@.genres == old(self)@.genres.push(g)
                },
                Err(e) => {
                    &&& e == CatalogError::IdSpaceExhausted
                    &&& next_genre_id(old(self)@.genres) > i32::MAX as int
                    &&& final(self)@ == old(self)@
                },
            },
    {
        let id: i32;
        if self.genres.len() == 0 {
            id = 1;
        } else {
            let last = self.genres[self.genres.len() - 1].id;
            if last == i32::MAX {
                return Err(CatalogError::IdSpaceExhausted);
            }
            id = last + 1;
        }
        let row = Genre { id, name: name.clone() };
        assert(row == Genre { id, name });
        self.genres.push(row);
        proof {
            let s0 = old(self)@;
            assert(self@.genres == s0.genres.push(Genre { id, name }));
            lemma_push_genre(s0.genres, Genre { id, name });
            assert forall|id2: i32| genre_exists(s0.genres, id2) implies #[trigger] genre_exists(
                self@.genres,
                id2,
            ) by {
                lemma_genre_exists_push(s0.genres, Genre { id, name }, id2);
            }
            assert forall|id2: i32| movie_exists(s0.movies, id2) implies #[trigger] movie_exists(
                self@.movies,
                id2,
            ) by {}
            lemma_genre_links_fk_grow(s0.movie_genres, s0.movies, s0.genres, self@.movies, self@.genres);
        }
        Ok(Genre { id, name })
    }

    /// Creates a movie: validates the director, inserts the row, then
    /// validates and inserts each actor and genre link in order, exactly
    /// as `create_movie` states — including the partial state a failure
    /// among the links leaves behind.
    #[verifier::loop_isolation(false)]
    pub fn add_movie(&mut self, req: &CreateMovie) -> (r: Result<Movie, CatalogError>)
        requires
            old(self)@.wf(),
        ensures
            final(self)@.wf(),
            final(self)@ == create_movie(old(self)@, *req).0,
            r == create_movie(old(self)@, *req).1,
    {
        if director_index(&self.directors, req.director_id).is_none() {
            return Err(CatalogError::MissingDirector { id: req.director_id });
        }
        let id: i32;
        if self.movies.len() == 0 {
            id = 1;
        } else {
            let last = self.movies[self.movies.len() - 1].id;
            if last == i32::MAX {
                return Err(CatalogError::IdSpaceExhausted);
            }
            id = last + 1;
        }
        assert(id as int == next_movie_id(old(self)@.movies));
        let ghost s0 = self@;
        let m = Movie { id, title: req.title.clone(), director_id: req.director_id };
        assert(m == Movie { id, title: req.title, director_id: req.director_id });
        self.movies.push(Movie { id, title: req.title.clone(), director_id: req.director_id });
        let ghost s1 = self@;
        proof {
            assert(s1.movies == s0.movies.push(m));
            assert(s1 == CatalogState { movies: s0.movies.push(m), ..s0 });
            lemma_push_movie(s0.movies, m);
            assert forall|id2: i32| movie_exists(s0.movies, id2) implies #[trigger] movie_exists(
                s1.movies,
                id2,
            ) by {
                lemma_movie_exists_push(s0.movies, m, id2);
            }
            assert forall|id2: i32| actor_exists(s0.actors, id2) implies #[trigger] actor_exists(
                s1.actors,
                id2,
            ) by {}
            assert forall|id2: i32| genre_exists(s0.genres, id2) implies #[trigger] genre_exists(
                s1.genres,
                id2,
            ) by {}
            lemma_actor_links_fk_grow(s0.movie_actors, s0.movies, s0.actors, s1.movies, s1.actors);
            lemma_genre_links_fk_grow(s0.movie_genres, s0.movies, s0.genres, s1.movies, s1.genres);
            assert(movie_exists(s1.movies, id)) by {
                assert(s1.movies[s1.movies.len() - 1].id == id);
            }
        }
        let ghost target_a = link_actors(s1, id, req.actor_ids@);
        let n = req.actor_ids.len();
        assert(req.actor_ids@.subrange(0, n as int) =~= req.actor_ids@);
        let mut k: usize = 0;
        while k < n
            invariant
                n == req.actor_ids@.len(),
                k <= n,
                self@.wf(),
                movie_exists(self@.movies, id),
                self@.directors == s1.directors,
                self@.actors == s1.actors,
                self@.genres == s1.genres,
                self@.movies == s1.movies,
                self@.movie_genres == s1.movie_genres,
                target_a == link_actors(self@, id, req.actor_ids@.subrange(k as int, n as int)),
            decreases n - k,
        {
            let ghost cur = self@;
            let ghost rest = req.actor_ids@.subrange(k as int, n as int);
            let a = req.actor_ids[k];
            proof {
                assert(rest.len() > 0 && rest[0] == a);
                assert(rest.drop_first() =~= req.actor_ids@.subrange(k + 1, n as int));
            }
            if actor_index(&self.actors, a).is_none() {
                assert(target_a == (cur, Some(CatalogError::MissingActor { id: a })));
                return Err(CatalogError::MissingActor { id: a });
            }
            if actor_link_present(&self.movie_actors, id, a) {
                assert(target_a == (
                    cur,
                    Some(CatalogError::DuplicateActorLink { movie_id: id, actor_id: a }),
                ));
                return Err(CatalogError::DuplicateActorLink { movie_id: id, actor_id: a });
            }
            self.movie_actors.push(MovieActor { movie_id: id, actor_id: a });
            proof {
                let p = MovieActor { movie_id: id, actor_id: a };
                assert(self@.movie_actors == cur.movie_actors.push(p));
                lemma_push_actor_link(cur.movie_actors, cur.movies, cur.actors, p);
            }
            k = k + 1;
        }
        proof {
            assert(req.actor_ids@.subrange(n as int, n as int) =~= Seq::<i32>::empty());
            assert(target_a == (self@, None::<CatalogError>));
        }
        let ghost s2 = self@;
        let ghost target_g = link_genres(s2, id, req.genre_ids@);
        let gn = req.genre_ids.len();
        assert(req.genre_ids@.subrange(0, gn as int) =~= req.genre_ids@);
        let mut k2: usize = 0;
        while k2 < gn
            invariant
                gn == req.genre_ids@.len(),
                k2 <= gn,
                self@.wf(),
                movie_exists(self@.movies, id),
                self@.directors == s2.directors,
                self@.actors == s2.actors,
                self@.genres == s2.genres,
                self@.movies == s2.movies,
                self@.movie_actors == s2.movie_actors,
                target_g == link_genres(self@, id, req.genre_ids@.subrange(k2 as int, gn as int)),
            decreases gn - k2,
        {
            let ghost cur = self@;
            let ghost rest = req.genre_ids@.subrange(k2 as int, gn as int);
            let g = req.genre_ids[k2];
            proof {
                assert(rest.len() > 0 && rest[0] == g);
                assert(rest.drop_first() =~= req.genre_ids@.subrange(k2 + 1, gn as int));
            }
            if genre_index(&self.genres, g).is_none() {
                assert(target_g == (cur, Some(CatalogError::MissingGenre { id: g })));
                return Err(CatalogError::MissingGenre { id: g });
            }
            if genre_link_present(&self.movie_genres, id, g) {
                assert(target_g == (
                    cur,
                    Some(CatalogError::DuplicateGenreLink { movie_id: id, genre_id: g }),
                ));
                return Err(CatalogError::DuplicateGenreLink { movie_id: id, genre_id: g });
            }
            self.movie_genres.push(MovieGenre { movie_id: id, genre_id: g });
            proof {
                let p = MovieGenre { movie_id: id, genre_id: g };
                assert(self@.movie_genres == cur.movie_genres.push(p));
                lemma_push_genre_link(cur.movie_genres, cur.movies, cur.genres, p);
            }
            k2 = k2 + 1;
        }
        proof {
            assert(req.genre_ids@.subrange(gn as int, gn as int) =~= Seq::<i32>::empty());
            assert(target_g == (self@, None::<CatalogError>));
        }
        Ok(m)
    }
}

} // verus!
