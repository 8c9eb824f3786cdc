//! The guarantees the library gives across functions, each proved once
//! and for all inputs: pagination arithmetic, the shape of empty and
//! unfiltered aggregate responses, idempotence of reads, and what movie
//! creation leaves behind on success and on each failure.

use vstd::prelude::*;

use vstd::arithmetic::div_mod::{lemma_fundamental_div_mod, lemma_mod_bound};

use crate::aggregate::{
    Meta, MovieFullResponseView, clamped_page, clamped_per_page, matching_movies, page_slice,
    response_spec, spec_last_page,
};
use crate::aggregate::{director_of, hydrated};
use crate::models::{
    Actor, CatalogState, Genre, Movie, MovieActor, MovieGenre, actor_exists, actor_linked,
    director_exists, genre_exists, genre_linked, movie_exists, next_movie_id,
};
use crate::text::normalized_query;
use crate::write::{CatalogError, CreateMovie, create_movie, link_actors, link_genres, new_movie};

verus! {

/// The last page is `total / per_page` rounded up, floored at 1: it is
/// never below 1, it is exactly 1 when nothing matched, and when
/// something matched it is the least page count whose capacity reaches
/// the total.
pub proof fn lemma_last_page_ceiling(total: int, per_page: int)
    requires
        total >= 0,
        per_page >= 1,
    ensures
        spec_last_page(total, per_page) >= 1,
        total == 0 ==> spec_last_page(total, per_page) == 1,
        total > 0 ==> (spec_last_page(total, per_page) - 1) * per_page < total,
        total > 0 ==> total <= spec_last_page(total, per_page) * per_page,
{
    let x = total + per_page - 1;
    let q = x / per_page;
    let r = x % per_page;
    lemma_fundamental_div_mod(x, per_page);
    lemma_mod_bound(x, per_page);
    if total > 0 {
        assert(q >= 1 && (q - 1) * per_page < total && total <= q * per_page)
            by (nonlinear_arith)
            requires
                total + per_page - 1 == per_page * q + r,
                0 <= r < per_page,
                total > 0,
                per_page >= 1,
        ;
    } else {
        assert(q == 0) by (nonlinear_arith)
            requires
                per_page - 1 == per_page * q + r,
                0 <= r < per_page,
                per_page >= 1,
        ;
    }
}

/// A supplied term that matches nothing yields the empty response: a
/// total of 0, a last page of 1, no results, whatever page was asked.
pub proof fn lemma_no_match_response(
    cat: CatalogState,
    q: Option<Seq<char>>,
    page_req: Option<u32>,
    per_page_req: Option<u32>,
)
    requires
        normalized_query(q) is Some,
        matching_movies(cat, normalized_query(q)).len() == 0,
    ensures
        response_spec(cat, q, page_req, per_page_req) == (MovieFullResponseView {
            meta: Meta {
                total: 0,
                page: clamped_page(page_req),
                per_page: clamped_per_page(per_page_req),
                last_page: 1,
            },
            results: Seq::<crate::aggregate::MovieFullView>::empty(),
        }),
{
    let per_page = clamped_per_page(per_page_req) as int;
    lemma_last_page_ceiling(0, per_page);
    let ms = matching_movies(cat, normalized_query(q));
    assert(page_slice(ms, clamped_page(page_req), clamped_per_page(per_page_req))
        =~= Seq::<crate::models::Movie>::empty());
    assert(response_spec(cat, q, page_req, per_page_req).results =~= Seq::<
        crate::aggregate::MovieFullView,
    >::empty());
}

/// Without a term the aggregate covers every movie, in table (ascending
/// id) order, and the page size is clamped into [1, 100] whatever was
/// asked — 0 and 1000 included.
pub proof fn lemma_unfiltered_response(
    cat: CatalogState,
    page_req: Option<u32>,
    per_page_req: Option<u32>,
)
    requires
        cat.wf(),
    ensures
        response_spec(cat, None, page_req, per_page_req).meta.total == cat.movies.len(),
        1 <= response_spec(cat, None, page_req, per_page_req).meta.per_page <= 100,
        response_spec(cat, None, page_req, per_page_req).results == page_slice(
            cat.movies,
            clamped_page(page_req),
            clamped_per_page(per_page_req),
        ).map_values(|m: crate::models::Movie| crate::aggregate::hydrated(cat, m)),
{
    crate::models::lemma_movies_len_bound(cat.movies);
}

/// Reads do not change the catalog, so one query asked twice with no
/// write in between is answered identically: the response is a function
/// of the catalog state and the query alone.
pub proof fn lemma_aggregate_idempotent(
    r1: MovieFullResponseView,
    r2: MovieFullResponseView,
    cat: CatalogState,
    q: Option<Seq<char>>,
    page_req: Option<u32>,
    per_page_req: Option<u32>,
)
    requires
        r1 == response_spec(cat, q, page_req, per_page_req),
        r2 == response_spec(cat, q, page_req, per_page_req),
    ensures
        r1 == r2,
{
}

/// Filtering with predicates that agree on every element gives one
/// sequence.
proof fn lemma_filter_equiv<A>(s: Seq<A>, p: spec_fn(A) -> bool, q2: spec_fn(A) -> bool)
    requires
        forall|x: A| #[trigger] p(x) == q2(x),
    ensures
        s.filter(p) == s.filter(q2),
    decreases s.len(),
{
    reveal_with_fuel(Seq::filter, 2);
    if s.len() > 0 {
        lemma_filter_equiv(s.drop_last(), p, q2);
        assert(p(s.last()) == q2(s.last()));
    }
}

/// Under well-formedness the movie a creation inserts is fresh: no row
/// already carries its id.
proof fn lemma_new_movie_fresh(s: CatalogState, req: CreateMovie)
    requires
        s.wf(),
        next_movie_id(s.movies) <= i32::MAX as int,
    ensures
        !movie_exists(s.movies, new_movie(s, req).id),
        forall|aid: i32| !actor_linked(s.movie_actors, new_movie(s, req).id, aid),
        forall|gid: i32| !genre_linked(s.movie_genres, new_movie(s, req).id, gid),
{
    let mid = new_movie(s, req).id;
    assert forall|i: int| 0 <= i < s.movies.len() implies s.movies[i].id < mid by {
        if i < s.movies.len() - 1 {
            assert(s.movies[i].id < s.movies[s.movies.len() - 1].id);
        }
    }
    assert forall|aid: i32| !actor_linked(s.movie_actors, mid, aid) by {
        if s.movie_actors.contains(MovieActor { movie_id: mid, actor_id: aid }) {
            let w = choose|i: int|
                0 <= i < s.movie_actors.len() && s.movie_actors[i] == MovieActor {
                    movie_id: mid,
                    actor_id: aid,
                };
            assert(movie_exists(s.movies, s.movie_actors[w].movie_id));
            let v = choose|i: int| 0 <= i < s.movies.len() && s.movies[i].id == mid;
            assert(s.movies[v].id < mid);
        }
    }
    assert forall|gid: i32| !genre_linked(s.movie_genres, mid, gid) by {
        if s.movie_genres.contains(MovieGenre { movie_id: mid, genre_id: gid }) {
            let w = choose|i: int|
                0 <= i < s.movie_genres.len() && s.movie_genres[i] == MovieGenre {
                    movie_id: mid,
                    genre_id: gid,
                };
            assert(movie_exists(s.movies, s.movie_genres[w].movie_id));
            let v = choose|i: int| 0 <= i < s.movies.len() && s.movies[i].id == mid;
            assert(s.movies[v].id < mid);
        }
    }
}

/// Walking the actor links changes the movie-actor table alone.
proof fn lemma_link_actors_frame(s: CatalogState, mid: i32, ids: Seq<i32>)
    ensures
        link_actors(s, mid, ids).0.directors == s.directors,
        link_actors(s, mid, ids).0.actors == s.actors,
        link_actors(s, mid, ids).0.genres == s.genres,
        link_actors(s, mid, ids).0.movies == s.movies,
        link_actors(s, mid, ids).0.movie_genres == s.movie_genres,
    decreases ids.len(),
{
    if ids.len() > 0 {
        let a = ids[0];
        if actor_exists(s.actors, a) && !actor_linked(s.movie_actors, mid, a) {
            let s1 = CatalogState {
                movie_actors: s.movie_actors.push(MovieActor { movie_id: mid, actor_id: a }),
                ..s
            };
            lemma_link_actors_frame(s1, mid, ids.drop_first());
        }
    }
}

/// Walking the genre links changes the movie-genre table alone.
proof fn lemma_link_genres_frame(s: CatalogState, mid: i32, ids: Seq<i32>)
    ensures
        link_genres(s, mid, ids).0.directors == s.directors,
        link_genres(s, mid, ids).0.actors == s.actors,
        link_genres(s, mid, ids).0.genres == s.genres,
        link_genres(s, mid, ids).0.movies == s.movies,
        link_genres(s, mid, ids).0.movie_actors == s.movie_actors,
    decreases ids.len(),
{
    if ids.len() > 0 {
        let g = ids[0];
        if genre_exists(s.genres, g) && !genre_linked(s.movie_genres, mid, g) {
            let s1 = CatalogState {
                movie_genres: s.movie_genres.push(MovieGenre { movie_id: mid, genre_id: g }),
                ..s
            };
            lemma_link_genres_frame(s1, mid, ids.drop_first());
        }
    }
}

/// When every id exists, the ids are distinct and none is linked yet,
/// the walk succeeds and appends exactly one pair per id, in order.
proof fn lemma_link_actors_success(s: CatalogState, mid: i32, ids: Seq<i32>)
    requires
        forall|k: int| 0 <= k < ids.len() ==> actor_exists(s.actors, #[trigger] ids[k]),
        forall|k1: int, k2: int| 0 <= k1 < k2 < ids.len() ==> ids[k1] != ids[k2],
        forall|k: int| 0 <= k < ids.len() ==> !actor_linked(s.movie_actors, mid, #[trigger] ids[k]),
    ensures
        link_actors(s, mid, ids).1 is None,
        link_actors(s, mid, ids).0.movie_actors == s.movie_actors + ids.map_values(
            |a: i32| MovieActor { movie_id: mid, actor_id: a },
        ),
    decreases ids.len(),
{
    let f = |a: i32| MovieActor { movie_id: mid, actor_id: a };
    if ids.len() == 0 {
        assert(s.movie_actors + ids.map_values(f) =~= s.movie_actors);
    } else {
        let a = ids[0];
        let p = MovieActor { movie_id: mid, actor_id: a };
        let s1 = CatalogState { movie_actors: s.movie_actors.push(p), ..s };
        let rest = ids.drop_first();
        assert forall|k: int| 0 <= k < rest.len() implies !actor_linked(
            s1.movie_actors,
            mid,
            #[trigger] rest[k],
        ) by {
            assert(rest[k] == ids[k + 1]);
            let pk = MovieActor { movie_id: mid, actor_id: rest[k] };
            if s1.movie_actors.contains(pk) {
                let w = choose|i: int|
                    0 <= i < s1.movie_actors.len() && s1.movie_actors[i] == pk;
                if w < s.movie_actors.len() {
                    assert(s.movie_actors[w] == pk);
                    assert(actor_linked(s.movie_actors, mid, ids[k + 1]));
                } else {
                    assert(pk == p);
                    assert(ids[k + 1] == ids[0]);
                }
            }
        }
        lemma_link_actors_success(s1, mid, rest);
        assert(s.movie_actors.push(p) + rest.map_values(f) =~= s.movie_actors + ids.map_values(f));
    }
}

/// When every id exists, the ids are distinct and none is linked yet,
/// the walk succeeds and appends exactly one pair per id, in order.
proof fn lemma_link_genres_success(s: CatalogState, mid: i32, ids: Seq<i32>)
    requires
        forall|k: int| 0 <= k < ids.len() ==> genre_exists(s.genres, #[trigger] ids[k]),
        forall|k1: int, k2: int| 0 <= k1 < k2 < ids.len() ==> ids[k1] != ids[k2],
        forall|k: int| 0 <= k < ids.len() ==> !genre_linked(s.movie_genres, mid, #[trigger] ids[k]),
    ensures
        link_genres(s, mid, ids).1 is None,
        link_genres(s, mid, ids).0.movie_genres == s.movie_genres + ids.map_values(
            |g: i32| MovieGenre { movie_id: mid, genre_id: g },
        ),
    decreases ids.len(),
{
    let f = |g: i32| MovieGenre { movie_id: mid, genre_id: g };
    if ids.len() == 0 {
        assert(s.movie_genres + ids.map_values(f) =~= s.movie_genres);
    } else {
        let g = ids[0];
        let p = MovieGenre { movie_id: mid, genre_id: g };
        let s1 = CatalogState { movie_genres: s.movie_genres.push(p), ..s };
        let rest = ids.drop_first();
        assert forall|k: int| 0 <= k < rest.len() implies !genre_linked(
            s1.movie_genres,
            mid,
            #[trigger] rest[k],
        ) by {
            assert(rest[k] == ids[k + 1]);
            let pk = MovieGenre { movie_id: mid, genre_id: rest[k] };
            if s1.movie_genres.contains(pk) {
                let w = choose|i: int|
                    0 <= i < s1.movie_genres.len() && s1.movie_genres[i] == pk;
                if w < s.movie_genres.len() {
                    assert(s.movie_genres[w] == pk);
                    assert(genre_linked(s.movie_genres, mid, ids[k + 1]));
                } else {
                    assert(pk == p);
                    assert(ids[k + 1] == ids[0]);
                }
            }
        }
        lemma_link_genres_success(s1, mid, rest);
        assert(s.movie_genres.push(p) + rest.map_values(f) =~= s.movie_genres + ids.map_values(f));
    }
}

/// When the id at position `k` is the first that does not exist, the
/// walk stops there: the error names that id and exactly the pairs for
/// the ids before it were appended.
proof fn lemma_link_actors_stop(s: CatalogState, mid: i32, ids: Seq<i32>, k: int)
    requires
        0 <= k < ids.len(),
        !actor_exists(s.actors, ids[k]),
        forall|j: int| 0 <= j < k ==> actor_exists(s.actors, #[trigger] ids[j]),
        forall|j1: int, j2: int| 0 <= j1 < j2 < k ==> ids[j1] != ids[j2],
        forall|j: int| 0 <= j < k ==> !actor_linked(s.movie_actors, mid, #[trigger] ids[j]),
    ensures
        link_actors(s, mid, ids).1 == Some(CatalogError::MissingActor { id: ids[k] }),
        link_actors(s, mid, ids).0.movie_actors == s.movie_actors + ids.subrange(0, k).map_values(
            |a: i32| MovieActor { movie_id: mid, actor_id: a },
        ),
    decreases k,
{
    let f = |a: i32| MovieActor { movie_id: mid, actor_id: a };
    if k == 0 {
        assert(s.movie_actors + ids.subrange(0, 0).map_values(f) =~= s.movie_actors);
    } else {
        let a = ids[0];
        let p = MovieActor { movie_id: mid, actor_id: a };
        let s1 = CatalogState { movie_actors: s.movie_actors.push(p), ..s };
        let rest = ids.drop_first();
        assert(rest[k - 1] == ids[k]);
        assert forall|j: int| 0 <= j < k - 1 implies !actor_linked(
            s1.movie_actors,
            mid,
            #[trigger] rest[j],
        ) by {
            assert(rest[j] == ids[j + 1]);
            let pj = MovieActor { movie_id: mid, actor_id: rest[j] };
            if s1.movie_actors.contains(pj) {
                let w = choose|i: int|
                    0 <= i < s1.movie_actors.len() && s1.movie_actors[i] == pj;
                if w < s.movie_actors.len() {
                    assert(s.movie_actors[w] == pj);
                    assert(actor_linked(s.movie_actors, mid, ids[j + 1]));
                } else {
                    assert(pj == p);
                    assert(ids[j + 1] == ids[0]);
                }
            }
        }
        lemma_link_actors_stop(s1, mid, rest, k - 1);
        assert(s.movie_actors.push(p) + rest.subrange(0, k - 1).map_values(f) =~= s.movie_actors
            + ids.subrange(0, k).map_values(f));
    }
}

/// When the id at position `k` is the first that does not exist, the
/// walk stops there: the error names that id and exactly the pairs for
/// the ids before it were appended.
proof fn lemma_link_genres_stop(s: CatalogState, mid: i32, ids: Seq<i32>, k: int)
    requires
        0 <= k < ids.len(),
        !genre_exists(s.genres, ids[k]),
        forall|j: int| 0 <= j < k ==> genre_exists(s.genres, #[trigger] ids[j]),
        forall|j1: int, j2: int| 0 <= j1 < j2 < k ==> ids[j1] != ids[j2],
        forall|j: int| 0 <= j < k ==> !genre_linked(s.movie_genres, mid, #[trigger] ids[j]),
    ensures
        link_genres(s, mid, ids).1 == Some(CatalogError::MissingGenre { id: ids[k] }),
        link_genres(s, mid, ids).0.movie_genres == s.movie_genres + ids.subrange(0, k).map_values(
            |g: i32| MovieGenre { movie_id: mid, genre_id: g },
        ),
    decreases k,
{
    let f = |g: i32| MovieGenre { movie_id: mid, genre_id: g };
    if k == 0 {
        assert(s.movie_genres + ids.subrange(0, 0).map_values(f) =~= s.movie_genres);
    } else {
        let g = ids[0];
        let p = MovieGenre { movie_id: mid, genre_id: g };
        let s1 = CatalogState { movie_genres: s.movie_genres.push(p), ..s };
        let rest = ids.drop_first();
        assert(rest[k - 1] == ids[k]);
        assert forall|j: int| 0 <= j < k - 1 implies !genre_linked(
            s1.movie_genres,
            mid,
            #[trigger] rest[j],
        ) by {
            assert(rest[j] == ids[j + 1]);
            let pj = MovieGenre { movie_id: mid, genre_id: rest[j] };
            if s1.movie_genres.contains(pj) {
                let w = choose|i: int|
                    0 <= i < s1.movie_genres.len() && s1.movie_genres[i] == pj;
                if w < s.movie_genres.len() {
                    assert(s.movie_genres[w] == pj);
                    assert(genre_linked(s.movie_genres, mid, ids[j + 1]));
                } else {
                    assert(pj == p);
                    assert(ids[j + 1] == ids[0]);
                }
            }
        }
        lemma_link_genres_stop(s1, mid, rest, k - 1);
        assert(s.movie_genres.push(p) + rest.subrange(0, k - 1).map_values(f) =~= s.movie_genres
            + ids.subrange(0, k).map_values(f));
    }
}

/// In a link table extended from one with no pair for this movie, a
/// pair is present exactly for the appended ids.
proof fn lemma_appended_actor_links(base: Seq<MovieActor>, mid: i32, ids: Seq<i32>, aid: i32)
    requires
        forall|a2: i32| !actor_linked(base, mid, a2),
    ensures
        actor_linked(
            base + ids.map_values(|a: i32| MovieActor { movie_id: mid, actor_id: a }),
            mid,
            aid,
        ) == ids.contains(aid),
{
    let f = |a: i32| MovieActor { movie_id: mid, actor_id: a };
    let all = base + ids.map_values(f);
    let pk = MovieActor { movie_id: mid, actor_id: aid };
    if all.contains(pk) {
        let w = choose|i: int| 0 <= i < all.len() && all[i] == pk;
        if w < base.len() {
            assert(base[w] == pk);
            assert(actor_linked(base, mid, aid));
        } else {
            assert(all[w] == ids.map_values(f)[w - base.len()]);
            assert(ids[w - base.len()] == aid);
        }
    }
    if ids.contains(aid) {
        let k = choose|i: int| 0 <= i < ids.len() && ids[i] == aid;
        assert(all[base.len() + k] == pk);
        assert(all.contains(pk));
    }
}

/// In a link table extended from one with no pair for this movie, a
/// pair is present exactly for the appended ids.
proof fn lemma_appended_genre_links(base: Seq<MovieGenre>, mid: i32, ids: Seq<i32>, gid: i32)
    requires
        forall|g2: i32| !genre_linked(base, mid, g2),
    ensures
        genre_linked(
            base + ids.map_values(|g: i32| MovieGenre { movie_id: mid, genre_id: g }),
            mid,
            gid,
        ) == ids.contains(gid),
{
    let f = |g: i32| MovieGenre { movie_id: mid, genre_id: g };
    let all = base + ids.map_values(f);
    let pk = MovieGenre { movie_id: mid, genre_id: gid };
    if all.contains(pk) {
        let w = choose|i: int| 0 <= i < all.len() && all[i] == pk;
        if w < base.len() {
            assert(base[w] == pk);
            assert(genre_linked(base, mid, gid));
        } else {
            assert(all[w] == ids.map_values(f)[w - base.len()]);
            assert(ids[w - base.len()] == gid);
        }
    }
    if ids.contains(gid) {
        let k = choose|i: int| 0 <= i < ids.len() && ids[i] == gid;
        assert(all[base.len() + k] == pk);
        assert(all.contains(pk));
    }
}

/// A creation request naming a director no row carries is refused as a
/// client error, and the catalog is left exactly as it was.
pub proof fn lemma_missing_director_rejected(s: CatalogState, req: CreateMovie)
    requires
        !director_exists(s.directors, req.director_id),
    ensures
        create_movie(s, req).0 == s,
        create_movie(s, req).1 == Err::<Movie, CatalogError>(CatalogError::MissingDirector {
            id: req.director_id,
        }),
        (CatalogError::MissingDirector { id: req.director_id }).spec_is_client_error(),
{
}

/// A creation request whose actor id at position `k` is the first that
/// does not exist is refused as a client error naming that id; the
/// movie row and the links for the ids before it stay persisted, and
/// nothing else changes.
pub proof fn lemma_missing_actor_partial(s: CatalogState, req: CreateMovie, k: int)
    requires
        s.wf(),
        director_exists(s.directors, req.director_id),
        next_movie_id(s.movies) <= i32::MAX as int,
        0 <= k < req.actor_ids@.len(),
        !actor_exists(s.actors, req.actor_ids@[k]),
        forall|j: int| 0 <= j < k ==> actor_exists(s.actors, #[trigger] req.actor_ids@[j]),
        forall|j1: int, j2: int|
            0 <= j1 < j2 < k ==> req.actor_ids@[j1] != req.actor_ids@[j2],
    ensures
        create_movie(s, req).1 == Err::<Movie, CatalogError>(CatalogError::MissingActor {
            id: req.actor_ids@[k],
        }),
        (CatalogError::MissingActor { id: req.actor_ids@[k] }).spec_is_client_error(),
        create_movie(s, req).0.movies == s.movies.push(new_movie(s, req)),
        create_movie(s, req).0.movie_actors == s.movie_actors + req.actor_ids@.subrange(
            0,
            k,
        ).map_values(|a: i32| MovieActor { movie_id: new_movie(s, req).id, actor_id: a }),
        create_movie(s, req).0.movie_genres == s.movie_genres,
        create_movie(s, req).0.directors == s.directors,
        create_movie(s, req).0.actors == s.actors,
        create_movie(s, req).0.genres == s.genres,
{
    let m = new_movie(s, req);
    let s1 = CatalogState { movies: s.movies.push(m), ..s };
    lemma_new_movie_fresh(s, req);
    lemma_link_actors_stop(s1, m.id, req.actor_ids@, k);
    lemma_link_actors_frame(s1, m.id, req.actor_ids@);
}

/// A creation request whose genre id at position `k` is the first that
/// does not exist — all actor ids existing and distinct — is refused as
/// a client error naming that id; the movie row, every actor link, and
/// the genre links before position `k` stay persisted.
pub proof fn lemma_missing_genre_partial(s: CatalogState, req: CreateMovie, k: int)
    requires
        s.wf(),
        director_exists(s.directors, req.director_id),
        next_movie_id(s.movies) <= i32::MAX as int,
        forall|j: int|
            0 <= j < req.actor_ids@.len() ==> actor_exists(s.actors, #[trigger] req.actor_ids@[j]),
        forall|j1: int, j2: int|
            0 <= j1 < j2 < req.actor_ids@.len() ==> req.actor_ids@[j1] != req.actor_ids@[j2],
        0 <= k < req.genre_ids@.len(),
        !genre_exists(s.genres, req.genre_ids@[k]),
        forall|j: int| 0 <= j < k ==> genre_exists(s.genres, #[trigger] req.genre_ids@[j]),
        forall|j1: int, j2: int|
            0 <= j1 < j2 < k ==> req.genre_ids@[j1] != req.genre_ids@[j2],
    ensures
        create_movie(s, req).1 == Err::<Movie, CatalogError>(CatalogError::MissingGenre {
            id: req.genre_ids@[k],
        }),
        (CatalogError::MissingGenre { id: req.genre_ids@[k] }).spec_is_client_error(),
        create_movie(s, req).0.movies == s.movies.push(new_movie(s, req)),
        create_movie(s, req).0.movie_actors == s.movie_actors + req.actor_ids@.map_values(
            |a: i32| MovieActor { movie_id: new_movie(s, req).id, actor_id: a },
        ),
        create_movie(s, req).0.movie_genres == s.movie_genres + req.genre_ids@.subrange(
            0,
            k,
        ).map_values(|g: i32| MovieGenre { movie_id: new_movie(s, req).id, genre_id: g }),
{
    let m = new_movie(s, req);
    let s1 = CatalogState { movies: s.movies.push(m), ..s };
    lemma_new_movie_fresh(s, req);
    lemma_link_actors_success(s1, m.id, req.actor_ids@);
    lemma_link_actors_frame(s1, m.id, req.actor_ids@);
    let s2a = link_actors(s1, m.id, req.actor_ids@).0;
    lemma_link_genres_stop(s2a, m.id, req.genre_ids@, k);
    lemma_link_genres_frame(s2a, m.id, req.genre_ids@);
}

/// A valid creation request — director, actors and genres all existing,
/// the id lists free of repeats — succeeds with a fresh movie id, and
/// the aggregate read path then shows that movie with exactly the
/// requested director, actor rows and genre rows attached.
pub proof fn lemma_created_movie_reads_back(s: CatalogState, req: CreateMovie)
    requires
        s.wf(),
        director_exists(s.directors, req.director_id),
        next_movie_id(s.movies) <= i32::MAX as int,
        forall|j: int|
            0 <= j < req.actor_ids@.len() ==> actor_exists(s.actors, #[trigger] req.actor_ids@[j]),
        forall|j1: int, j2: int|
            0 <= j1 < j2 < req.actor_ids@.len() ==> req.actor_ids@[j1] != req.actor_ids@[j2],
        forall|j: int|
            0 <= j < req.genre_ids@.len() ==> genre_exists(s.genres, #[trigger] req.genre_ids@[j]),
        forall|j1: int, j2: int|
            0 <= j1 < j2 < req.genre_ids@.len() ==> req.genre_ids@[j1] != req.genre_ids@[j2],
    ensures
        create_movie(s, req).1 == Ok::<Movie, CatalogError>(new_movie(s, req)),
        !movie_exists(s.movies, new_movie(s, req).id),
        create_movie(s, req).0.movies == s.movies.push(new_movie(s, req)),
        matching_movies(create_movie(s, req).0, None).contains(new_movie(s, req)),
        ({
            let h = hydrated(create_movie(s, req).0, new_movie(s, req));
            &&& h.id == new_movie(s, req).id
            &&& h.title == req.title
            &&& h.director is Some
            &&& h.director->0.id == req.director_id
            &&& h.director == director_of(s, req.director_id)
            &&& h.actors == s.actors.filter(|a: Actor| req.actor_ids@.contains(a.id))
            &&& h.genres == s.genres.filter(|g: Genre| req.genre_ids@.contains(g.id))
        }),
{
    let m = new_movie(s, req);
    let s1 = CatalogState { movies: s.movies.push(m), ..s };
    lemma_new_movie_fresh(s, req);
    lemma_link_actors_success(s1, m.id, req.actor_ids@);
    lemma_link_actors_frame(s1, m.id, req.actor_ids@);
    let s2a = link_actors(s1, m.id, req.actor_ids@).0;
    lemma_link_genres_success(s2a, m.id, req.genre_ids@);
    lemma_link_genres_frame(s2a, m.id, req.genre_ids@);
    let s2 = link_genres(s2a, m.id, req.genre_ids@).0;
    // The director lookup sees the unchanged director table.
    assert(director_exists(s2.directors, m.director_id));
    let c = choose|i: int| 0 <= i < s.directors.len() && s.directors[i].id == req.director_id;
    let c2 = choose|i: int| 0 <= i < s2.directors.len() && s2.directors[i].id == m.director_id;
    assert(0 <= c < s.directors.len() && s.directors[c].id == req.director_id);
    assert(0 <= c2 < s2.directors.len() && s2.directors[c2].id == m.director_id);
    crate::models::lemma_director_id_unique(s.directors, c, c2);
    assert(director_of(s2, m.director_id) == Some(s.directors[c]));
    assert(director_of(s, req.director_id) == Some(s.directors[c]));
    // The actor rows attached are exactly those the request named.
    let af = |a: i32| MovieActor { movie_id: m.id, actor_id: a };
    assert(s2.movie_actors == s.movie_actors + req.actor_ids@.map_values(af));
    assert forall|x: Actor| #[trigger] actor_linked(s2.movie_actors, m.id, x.id) == req.actor_ids@.contains(
        x.id,
    ) by {
        lemma_appended_actor_links(s.movie_actors, m.id, req.actor_ids@, x.id);
    }
    lemma_filter_equiv(
        s2.actors,
        |a: Actor| actor_linked(s2.movie_actors, m.id, a.id),
        |a: Actor| req.actor_ids@.contains(a.id),
    );
    // The genre rows attached are exactly those the request named.
    let gf = |g: i32| MovieGenre { movie_id: m.id, genre_id: g };
    assert(s2.movie_genres == s.movie_genres + req.genre_ids@.map_values(gf));
    assert forall|x: Genre| #[trigger] genre_linked(s2.movie_genres, m.id, x.id) == req.genre_ids@.contains(
        x.id,
    ) by {
        lemma_appended_genre_links(s.movie_genres, m.id, req.genre_ids@, x.id);
    }
    lemma_filter_equiv(
        s2.genres,
        |g: Genre| genre_linked(s2.movie_genres, m.id, g.id),
        |g: Genre| req.genre_ids@.contains(g.id),
    );
    assert(s2.movies[s.movies.len() as int] == m);
    assert(matching_movies(s2, None).contains(m));
}

} // verus!
