//! Entity types and the in-memory catalog state.
//!
//! Each entity row carries a unique integer id assigned at creation.
//! The two association tables link movies to actors and genres; a pair
//! appears at most once. The catalog is the value the verified logic
//! works on; durable storage and transport live outside the library.

use vstd::prelude::*;

verus! {

/// A director row.
#[derive(Clone, Debug, PartialEq)]
pub struct Director {
    pub id: i32,
    pub name: String,
}

/// An actor row.
#[derive(Clone, Debug, PartialEq)]
pub struct Actor {
    pub id: i32,
    pub name: String,
}

/// A genre row.
#[derive(Clone, Debug, PartialEq)]
pub struct Genre {
    pub id: i32,
    pub name: String,
}

/// A movie row; `director_id` references a director.
#[derive(Clone, Debug, PartialEq)]
pub struct Movie {
    pub id: i32,
    pub title: String,
    pub director_id: i32,
}

/// A movie-actor association row.
#[derive(Clone, Copy, Debug, PartialEq, Eq, Structural)]
pub struct MovieActor {
    pub movie_id: i32,
    pub actor_id: i32,
}

/// A movie-genre association row.
#[derive(Clone, Copy, Debug, PartialEq, Eq, Structural)]
pub struct MovieGenre {
    pub movie_id: i32,
    pub genre_id: i32,
}

/// The six tables of the catalog.
pub struct Catalog {
    pub directors: Vec<Director>,
    pub actors: Vec<Actor>,
    pub genres: Vec<Genre>,
    pub movies: Vec<Movie>,
    pub movie_actors: Vec<MovieActor>,
    pub movie_genres: Vec<MovieGenre>,
}

/// The mathematical state of a catalog: the six tables as sequences.
pub struct CatalogState {
    pub directors: Seq<Director>,
    pub actors: Seq<Actor>,
    pub genres: Seq<Genre>,
    pub movies: Seq<Movie>,
    pub movie_actors: Seq<MovieActor>,
    pub movie_genres: Seq<MovieGenre>,
}

impl View for Catalog {
    type V = CatalogState;

    open spec fn view(&self) -> CatalogState {
        CatalogState {
            directors: self.directors@,
            actors: self.actors@,
            genres: self.genres@,
            movies: self.movies@,
            movie_actors: self.movie_actors@,
            movie_genres: self.movie_genres@,
        }
    }
}

/// Directors in strictly ascending id order, all ids at least 1.
pub open spec fn directors_ok(s: Seq<Director>) -> bool {
    &&& forall|i: int, j: int| 0 <= i < j < s.len() ==> s[i].id < s[j].id
    &&& forall|i: int| 0 <= i < s.len() ==> s[i].id >= 1
}

/// Actors in strictly ascending id order, all ids at least 1.
pub open spec fn actors_ok(s: Seq<Actor>) -> bool {
    &&& forall|i: int, j: int| 0 <= i < j < s.len() ==> s[i].id < s[j].id
    &&& forall|i: int| 0 <= i < s.len() ==> s[i].id >= 1
}

/// Genres in strictly ascending id order, all ids at least 1.
pub open spec fn genres_ok(s: Seq<Genre>) -> bool {
    &&& forall|i: int, j: int| 0 <= i < j < s.len() ==> s[i].id < s[j].id
    &&& forall|i: int| 0 <= i < s.len() ==> s[i].id >= 1
}

/// Movies in strictly ascending id order, all ids at least 1.
pub open spec fn movies_ok(s: Seq<Movie>) -> bool {
    &&& forall|i: int, j: int| 0 <= i < j < s.len() ==> s[i].id < s[j].id
    &&& forall|i: int| 0 <= i < s.len() ==> s[i].id >= 1
}

/// Some director row carries this id.
pub open spec fn director_exists(s: Seq<Director>, id: i32) -> bool {
    exists|i: int| 0 <= i < s.len() && s[i].id == id
}

/// Some actor row carries this id.
pub open spec fn actor_exists(s: Seq<Actor>, id: i32) -> bool {
    exists|i: int| 0 <= i < s.len() && s[i].id == id
}

/// Some genre row carries this id.
pub open spec fn genre_exists(s: Seq<Genre>, id: i32) -> bool {
    exists|i: int| 0 <= i < s.len() && s[i].id == id
}

/// Some movie row carries this id.
pub open spec fn movie_exists(s: Seq<Movie>, id: i32) -> bool {
    exists|i: int| 0 <= i < s.len() && s[i].id == id
}

/// The association table links this movie to this actor.
pub open spec fn actor_linked(links: Seq<MovieActor>, movie_id: i32, actor_id: i32) -> bool {
    links.contains(MovieActor { movie_id, actor_id })
}

/// The association table links this movie to this genre.
pub open spec fn genre_linked(links: Seq<MovieGenre>, movie_id: i32, genre_id: i32) -> bool {
    links.contains(MovieGenre { movie_id, genre_id })
}

/// No movie-actor pair appears twice.
pub open spec fn actor_links_unique(ls: Seq<MovieActor>) -> bool {
    forall|i: int, j: int| 0 <= i < j < ls.len() ==> ls[i] != ls[j]
}

/// No movie-genre pair appears twice.
pub open spec fn genre_links_unique(ls: Seq<MovieGenre>) -> bool {
    forall|i: int, j: int| 0 <= i < j < ls.len() ==> ls[i] != ls[j]
}

/// Every movie-actor row references an existing movie and an existing
/// actor.
pub open spec fn actor_links_fk(ls: Seq<MovieActor>, movies: Seq<Movie>, actors: Seq<Actor>) -> bool {
    forall|i: int|
        0 <= i < ls.len() ==> movie_exists(movies, (#[trigger] ls[i]).movie_id) && actor_exists(
            actors,
            ls[i].actor_id,
        )
}

/// Every movie-genre row references an existing movie and an existing
/// genre.
pub open spec fn genre_links_fk(ls: Seq<MovieGenre>, movies: Seq<Movie>, genres: Seq<Genre>) -> bool {
    forall|i: int|
        0 <= i < ls.len() ==> movie_exists(movies, (#[trigger] ls[i]).movie_id) && genre_exists(
            genres,
            ls[i].genre_id,
        )
}

impl CatalogState {
    /// Well-formedness: each entity table is in strictly ascending id
    /// order with ids at least 1; association pairs are unique and
    /// reference existing rows on both sides.
    pub open spec fn wf(self) -> bool {
        &&& directors_ok(self.directors)
        &&& actors_ok(self.actors)
        &&& genres_ok(self.genres)
        &&& movies_ok(self.movies)
        &&& actor_links_unique(self.movie_actors)
        &&& genre_links_unique(self.movie_genres)
        &&& actor_links_fk(self.movie_actors, self.movies, self.actors)
        &&& genre_links_fk(self.movie_genres, self.movies, self.genres)
    }
}

/// A row with an id above every present one keeps a director table
/// well-ordered when appended.
pub proof fn lemma_push_director(s: Seq<Director>, d: Director)
    requires
        directors_ok(s),
        d.id >= 1,
        s.len() > 0 ==> s.last().id < d.id,
    ensures
        directors_ok(s.push(d)),
{
    assert forall|i: int| 0 <= i < s.len() implies s[i].id < d.id by {
        if i < s.len() - 1 {
            assert(s[i].id < s[s.len() - 1].id);
        }
    }
}

/// A row with an id above every present one keeps an actor table
/// well-ordered when appended.
pub proof fn lemma_push_actor(s: Seq<Actor>, a: Actor)
    requires
        actors_ok(s),
        a.id >= 1,
        s.len() > 0 ==> s.last().id < a.id,
    ensures
        actors_ok(s.push(a)),
{
    assert forall|i: int| 0 <= i < s.len() implies s[i].id < a.id by {
        if i < s.len() - 1 {
            assert(s[i].id < s[s.len() - 1].id);
        }
    }
}

/// A row with an id above every present one keeps a genre table
/// well-ordered when appended.
pub proof fn lemma_push_genre(s: Seq<Genre>, g: Genre)
    requires
        genres_ok(s),
        g.id >= 1,
        s.len() > 0 ==> s.last().id < g.id,
    ensures
        genres_ok(s.push(g)),
{
    assert forall|i: int| 0 <= i < s.len() implies s[i].id < g.id by {
        if i < s.len() - 1 {
            assert(s[i].id < s[s.len() - 1].id);
        }
    }
}

/// A row with an id above every present one keeps a movie table
/// well-ordered when appended.
pub proof fn lemma_push_movie(s: Seq<Movie>, m: Movie)
    requires
        movies_ok(s),
        m.id >= 1,
        s.len() > 0 ==> s.last().id < m.id,
    ensures
        movies_ok(s.push(m)),
{
    assert forall|i: int| 0 <= i < s.len() implies s[i].id < m.id by {
        if i < s.len() - 1 {
            assert(s[i].id < s[s.len() - 1].id);
        }
    }
}

/// Appending a row keeps every id that already existed.
pub proof fn lemma_actor_exists_push(s: Seq<Actor>, x: Actor, id: i32)
    requires
        actor_exists(s, id),
    ensures
        actor_exists(s.push(x), id),
{
    let i = choose|i: int| 0 <= i < s.len() && s[i].id == id;
    assert(s.push(x)[i].id == id);
}

/// Appending a row keeps every id that already existed.
pub proof fn lemma_genre_exists_push(s: Seq<Genre>, x: Genre, id: i32)
    requires
        genre_exists(s, id),
    ensures
        genre_exists(s.push(x), id),
{
    let i = choose|i: int| 0 <= i < s.len() && s[i].id == id;
    assert(s.push(x)[i].id == id);
}

/// Appending a row keeps every id that already existed.
pub proof fn lemma_movie_exists_push(s: Seq<Movie>, x: Movie, id: i32)
    requires
        movie_exists(s, id),
    ensures
        movie_exists(s.push(x), id),
{
    let i = choose|i: int| 0 <= i < s.len() && s[i].id == id;
    assert(s.push(x)[i].id == id);
}

/// The foreign-key clauses survive growing any referenced table.
pub proof fn lemma_actor_links_fk_grow(
    ls: Seq<MovieActor>,
    movies: Seq<Movie>,
    actors: Seq<Actor>,
    movies2: Seq<Movie>,
    actors2: Seq<Actor>,
)
    requires
        actor_links_fk(ls, movies, actors),
        forall|id: i32| movie_exists(movies, id) ==> #[trigger] movie_exists(movies2, id),
        forall|id: i32| actor_exists(actors, id) ==> #[trigger] actor_exists(actors2, id),
    ensures
        actor_links_fk(ls, movies2, actors2),
{
}

/// The foreign-key clauses survive growing any referenced table.
pub proof fn lemma_genre_links_fk_grow(
    ls: Seq<MovieGenre>,
    movies: Seq<Movie>,
    genres: Seq<Genre>,
    movies2: Seq<Movie>,
    genres2: Seq<Genre>,
)
    requires
        genre_links_fk(ls, movies, genres),
        forall|id: i32| movie_exists(movies, id) ==> #[trigger] movie_exists(movies2, id),
        forall|id: i32| genre_exists(genres, id) ==> #[trigger] genre_exists(genres2, id),
    ensures
        genre_links_fk(ls, movies2, genres2),
{
}

/// Appending a pair that is not yet linked keeps the pairs unique and,
/// when the pair references existing rows, the foreign keys intact.
pub proof fn lemma_push_actor_link(
    ls: Seq<MovieActor>,
    movies: Seq<Movie>,
    actors: Seq<Actor>,
    p: MovieActor,
)
    requires
        actor_links_unique(ls),
        actor_links_fk(ls, movies, actors),
        !ls.contains(p),
        movie_exists(movies, p.movie_id),
        actor_exists(actors, p.actor_id),
    ensures
        actor_links_unique(ls.push(p)),
        actor_links_fk(ls.push(p), movies, actors),
{
    assert forall|i: int, j: int| 0 <= i < j < ls.push(p).len() implies ls.push(p)[i] != ls.push(
        p,
    )[j] by {
        if j == ls.len() {
            assert(ls.push(p)[i] == ls[i]);
        }
    }
}

/// Appending a pair that is not yet linked keeps the pairs unique and,
/// when the pair references existing rows, the foreign keys intact.
pub proof fn lemma_push_genre_link(
    ls: Seq<MovieGenre>,
    movies: Seq<Movie>,
    genres: Seq<Genre>,
    p: MovieGenre,
)
    requires
        genre_links_unique(ls),
        genre_links_fk(ls, movies, genres),
        !ls.contains(p),
        movie_exists(movies, p.movie_id),
        genre_exists(genres, p.genre_id),
    ensures
        genre_links_unique(ls.push(p)),
        genre_links_fk(ls.push(p), movies, genres),
{
    assert forall|i: int, j: int| 0 <= i < j < ls.push(p).len() implies ls.push(p)[i] != ls.push(
        p,
    )[j] by {
        if j == ls.len() {
            assert(ls.push(p)[i] == ls[i]);
        }
    }
}

/// The id the next director row receives.
pub open spec fn next_director_id(s: Seq<Director>) -> int {
    if s.len() == 0 {
        1
    } else {
        s.last().id + 1
    }
}

/// The id the next actor row receives.
pub open spec fn next_actor_id(s: Seq<Actor>) -> int {
    if s.len() == 0 {
        1
    } else {
        s.last().id + 1
    }
}

/// The id the next genre row receives.
pub open spec fn next_genre_id(s: Seq<Genre>) -> int {
    if s.len() == 0 {
        1
    } else {
        s.last().id + 1
    }
}

/// The id the next movie row receives.
pub open spec fn next_movie_id(s: Seq<Movie>) -> int {
    if s.len() == 0 {
        1
    } else {
        s.last().id + 1
    }
}

/// Position of the director row with this id, if any.
pub fn director_index(s: &Vec<Director>, id: i32) -> (r: Option<usize>)
    ensures
        match r {
            Some(i) => i < s@.len() && s@[i as int].id == id,
            None => !director_exists(s@, id),
        },
        r is Some <==> director_exists(s@, id),
{
    let mut i: usize = 0;
    while i < s.len()
        invariant
            i <= s@.len(),
            forall|k: int| 0 <= k < i ==> s@[k].id != id,
        decreases s@.len() - i,
    {
        if s[i].id == id {
            assert(s@[i as int].id == id);
            return Some(i);
        }
        i = i + 1;
    }
    None
}

/// Position of the actor row with this id, if any.
pub fn actor_index(s: &Vec<Actor>, id: i32) -> (r: Option<usize>)
    ensures
        match r {
            Some(i) => i < s@.len() && s@[i as int].id == id,
            None => !actor_exists(s@, id),
        },
        r is Some <==> actor_exists(s@, id),
{
    let mut i: usize = 0;
    while i < s.len()
        invariant
            i <= s@.len(),
            forall|k: int| 0 <= k < i ==> s@[k].id != id,
        decreases s@.len() - i,
    {
        if s[i].id == id {
            assert(s@[i as int].id == id);
            return Some(i);
        }
        i = i + 1;
    }
    None
}

/// Position of the genre row with this id, if any.
pub fn genre_index(s: &Vec<Genre>, id: i32) -> (r: Option<usize>)
    ensures
        match r {
            Some(i) => i < s@.len() && s@[i as int].id == id,
            None => !genre_exists(s@, id),
        },
        r is Some <==> genre_exists(s@, id),
{
    let mut i: usize = 0;
    while i < s.len()
        invariant
            i <= s@.len(),
            forall|k: int| 0 <= k < i ==> s@[k].id != id,
        decreases s@.len() - i,
    {
        if s[i].id == id {
            assert(s@[i as int].id == id);
            return Some(i);
        }
        i = i + 1;
    }
    None
}

/// Whether the association table links this movie to this actor.
pub fn actor_link_present(links: &Vec<MovieActor>, movie_id: i32, actor_id: i32) -> (r: bool)
    ensures
        r == actor_linked(links@, movie_id, actor_id),
{
    let mut i: usize = 0;
    while i < links.len()
        invariant
            i <= links@.len(),
            forall|k: int|
                0 <= k < i ==> !(links@[k].movie_id == movie_id && links@[k].actor_id == actor_id),
        decreases links@.len() - i,
    {
        if links[i].movie_id == movie_id && links[i].actor_id == actor_id {
            assert(links@[i as int] == MovieActor { movie_id, actor_id });
            return true;
        }
        i = i + 1;
    }
    assert(forall|k: int|
        0 <= k < links@.len() ==> links@[k] != MovieActor { movie_id, actor_id });
    false
}

/// Whether the association table links this movie to this genre.
pub fn genre_link_present(links: &Vec<MovieGenre>, movie_id: i32, genre_id: i32) -> (r: bool)
    ensures
        r == genre_linked(links@, movie_id, genre_id),
{
    let mut i: usize = 0;
    while i < links.len()
        invariant
            i <= links@.len(),
            forall|k: int|
                0 <= k < i ==> !(links@[k].movie_id == movie_id && links@[k].genre_id == genre_id),
        decreases links@.len() - i,
    {
        if links[i].movie_id == movie_id && links[i].genre_id == genre_id {
            assert(links@[i as int] == MovieGenre { movie_id, genre_id });
            return true;
        }
        i = i + 1;
    }
    assert(forall|k: int|
        0 <= k < links@.len() ==> links@[k] != MovieGenre { movie_id, genre_id });
    false
}

/// Two director rows with one id stand at one position.
pub proof fn lemma_director_id_unique(s: Seq<Director>, i: int, j: int)
    requires
        directors_ok(s),
        0 <= i < s.len(),
        0 <= j < s.len(),
        s[i].id == s[j].id,
    ensures
        i == j,
{
    if i < j {
        assert(s[i].id < s[j].id);
    }
    if j < i {
        assert(s[j].id < s[i].id);
    }
}

/// A table in strictly ascending order with ids at least 1 cannot hold
/// more rows than there are ids.
pub proof fn lemma_movies_len_bound(s: Seq<Movie>)
    requires
        movies_ok(s),
    ensures
        s.len() <= 0x7fff_ffff,
{
    if s.len() > 0 {
        lemma_movie_id_floor(s, s.len() - 1);
    }
}

/// In a strictly ascending table with ids at least 1, the row at
/// position `i` has id at least `i + 1`.
proof fn lemma_movie_id_floor(s: Seq<Movie>, i: int)
    requires
        movies_ok(s),
        0 <= i < s.len(),
    ensures
        s[i].id >= i + 1,
    decreases i,
{
    if i > 0 {
        lemma_movie_id_floor(s, i - 1);
        assert(s[i - 1].id < s[i].id);
    }
}

/// A copy of a director row, equal to the row given.
pub fn clone_director(d: &Director) -> (r: Director)
    ensures
        r == *d,
{
    Director { id: d.id, name: d.name.clone() }
}

/// A copy of an actor row, equal to the row given.
pub fn clone_actor(a: &Actor) -> (r: Actor)
    ensures
        r == *a,
{
    Actor { id: a.id, name: a.name.clone() }
}

/// A copy of a genre row, equal to the row given.
pub fn clone_genre(g: &Genre) -> (r: Genre)
    ensures
        r == *g,
{
    Genre { id: g.id, name: g.name.clone() }
}

/// A copy of a movie row, equal to the row given.
pub fn clone_movie(m: &Movie) -> (r: Movie)
    ensures
        r == *m,
{
    Movie { id: m.id, title: m.title.clone(), director_id: m.director_id }
}

impl Catalog {
    /// An empty catalog; the state every store starts from.
    pub fn new() -> (r: Catalog)
        ensures
            r@.wf(),
            r@.directors.len() == 0,
            r@.actors.len() == 0,
            r@.genres.len() == 0,
            r@.movies.len() == 0,
            r@.movie_actors.len() == 0,
            r@.movie_genres.len() == 0,
    {
        Catalog {
            directors: Vec::new(),
            actors: Vec::new(),
            genres: Vec::new(),
            movies: Vec::new(),
            movie_actors: Vec::new(),
            movie_genres: Vec::new(),
        }
    }

    /// Every director row, in table order.
    pub fn list_directors(&self) -> (r: Vec<Director>)
        ensures
            r@ == self@.directors,
    {
        let mut r: Vec<Director> = Vec::new();
        let mut i: usize = 0;
        while i < self.directors.len()
            invariant
                i <= self@.directors.len(),
                r@ == self@.directors.subrange(0, i as int),
            decreases self@.directors.len() - i,
        {
            r.push(clone_director(&self.directors[i]));
            i = i + 1;
            assert(r@ =~= self@.directors.subrange(0, i as int));
        }
        assert(r@ =~= self@.directors);
        r
    }

    /// Every actor row, in table order.
    pub fn list_actors(&self) -> (r: Vec<Actor>)
        ensures
            r@ == self@.actors,
    {
        let mut r: Vec<Actor> = Vec::new();
        let mut i: usize = 0;
        while i < self.actors.len()
            invariant
                i <= self@.actors.len(),
                r@ == self@.actors.subrange(0, i as int),
            decreases self@.actors.len() - i,
        {
            r.push(clone_actor(&self.actors[i]));
            i = i + 1;
            assert(r@ =~= self@.actors.subrange(0, i as int));
        }
        assert(r@ =~= self@.actors);
        r
    }

    /// Every genre row, in table order.
    pub fn list_genres(&self) -> (r: Vec<Genre>)
        ensures
            r@ == self@.genres,
    {
        let mut r: Vec<Genre> = Vec::new();
        let mut i: usize = 0;
        while i < self.genres.len()
            invariant
                i <= self@.genres.len(),
                r@ == self@.genres.subrange(0, i as int),
            decreases self@.genres.len() - i,
        {
            r.push(clone_genre(&self.genres[i]));
            i = i + 1;
            assert(r@ =~= self@.genres.subrange(0, i as int));
        }
        assert(r@ =~= self@.genres);
        r
    }

    /// Every movie row, in table order.
    pub fn list_movies(&self) -> (r: Vec<Movie>)
        ensures
            r@ == self@.movies,
    {
        let mut r: Vec<Movie> = Vec::new();
        let mut i: usize = 0;
        while i < self.movies.len()
            invariant
                i <= self@.movies.len(),
                r@ == self@.movies.subrange(0, i as int),
            decreases self@.movies.len() - i,
        {
            r.push(clone_movie(&self.movies[i]));
            i = i + 1;
            assert(r@ =~= self@.movies.subrange(0, i as int));
        }
        assert(r@ =~= self@.movies);
        r
    }
}

/// A strictly ascending id list whose first entry is at least 1.
pub open spec fn ids_ok(ids: Seq<i32>) -> bool {
    &&& forall|i: int, j: int| 0 <= i < j < ids.len() ==> ids[i] < ids[j]
    &&& forall|i: int| 0 <= i < ids.len() ==> ids[i] >= 1
}

/// Neighbours in ascending order put the whole list in ascending order.
proof fn lemma_adjacent_chain(ids: Seq<i32>, i: int, j: int)
    requires
        forall|k: int| 1 <= k < ids.len() ==> ids[k - 1] < #[trigger] ids[k],
        0 <= i < j < ids.len(),
    ensures
        ids[i] < ids[j],
    decreases j - i,
{
    if j > i + 1 {
        lemma_adjacent_chain(ids, i, j - 1);
    }
}

/// Whether an id list is strictly ascending with ids at least 1.
pub fn ids_ok_check(ids: &Vec<i32>) -> (r: bool)
    ensures
        r == ids_ok(ids@),
{
    if ids.len() == 0 {
        return true;
    }
    if ids[0] < 1 {
        return false;
    }
    let mut k: usize = 1;
    while k < ids.len()
        invariant
            1 <= k <= ids@.len(),
            ids@[0] >= 1,
            forall|t: int| 1 <= t < k ==> ids@[t - 1] < #[trigger] ids@[t],
        decreases ids@.len() - k,
    {
        if ids[k - 1] >= ids[k] {
            return false;
        }
        k = k + 1;
    }
    proof {
        assert forall|i: int, j: int| 0 <= i < j < ids@.len() implies ids@[i] < ids@[j] by {
            lemma_adjacent_chain(ids@, i, j);
        }
        assert forall|i: int| 0 <= i < ids@.len() implies ids@[i] >= 1 by {
            if i > 0 {
                lemma_adjacent_chain(ids@, 0, i);
            }
        }
    }
    true
}

/// Position of the movie row with this id, if any.
pub fn movie_index(s: &Vec<Movie>, id: i32) -> (r: Option<usize>)
    ensures
        match r {
            Some(i) => i < s@.len() && s@[i as int].id == id,
            None => !movie_exists(s@, id),
        },
        r is Some <==> movie_exists(s@, id),
{
    let mut i: usize = 0;
    while i < s.len()
        invariant
            i <= s@.len(),
            forall|k: int| 0 <= k < i ==> s@[k].id != id,
        decreases s@.len() - i,
    {
        if s[i].id == id {
            assert(s@[i as int].id == id);
            return Some(i);
        }
        i = i + 1;
    }
    None
}

/// Whether no movie-actor pair appears twice.
fn actor_links_unique_check(ls: &Vec<MovieActor>) -> (r: bool)
    ensures
        r == actor_links_unique(ls@),
{
    let mut i: usize = 0;
    while i < ls.len()
        invariant
            i <= ls@.len(),
            forall|a: int, b: int| 0 <= a < b < ls@.len() && a < i ==> ls@[a] != ls@[b],
        decreases ls@.len() - i,
    {
        let mut j: usize = i + 1;
        while j < ls.len()
            invariant
                i < j <= ls@.len() || (i + 1 == j && j > ls@.len()),
                i < ls@.len(),
                forall|b: int| i < b < j ==> ls@[i as int] != ls@[b],
            decreases ls@.len() - j,
        {
            if ls[i].movie_id == ls[j].movie_id && ls[i].actor_id == ls[j].actor_id {
                assert(ls@[i as int] == ls@[j as int]);
                return false;
            }
            j = j + 1;
        }
        i = i + 1;
    }
    true
}

/// Whether no movie-genre pair appears twice.
fn genre_links_unique_check(ls: &Vec<MovieGenre>) -> (r: bool)
    ensures
        r == genre_links_unique(ls@),
{
    let mut i: usize = 0;
    while i < ls.len()
        invariant
            i <= ls@.len(),
            forall|a: int, b: int| 0 <= a < b < ls@.len() && a < i ==> ls@[a] != ls@[b],
        decreases ls@.len() - i,
    {
        let mut j: usize = i + 1;
        while j < ls.len()
            invariant
                i < j <= ls@.len() || (i + 1 == j && j > ls@.len()),
                i < ls@.len(),
                forall|b: int| i < b < j ==> ls@[i as int] != ls@[b],
            decreases ls@.len() - j,
        {
            if ls[i].movie_id == ls[j].movie_id && ls[i].genre_id == ls[j].genre_id {
                assert(ls@[i as int] == ls@[j as int]);
                return false;
            }
            j = j + 1;
        }
        i = i + 1;
    }
    true
}

impl Catalog {
    /// The ids of the director rows, in table order.
    fn director_ids(&self) -> (r: Vec<i32>)
        ensures
            r@ == self@.directors.map_values(|d: Director| d.id),
    {
        let mut r: Vec<i32> = Vec::new();
        let mut i: usize = 0;
        while i < self.directors.len()
            invariant
                i <= self@.directors.len(),
                r@ == self@.directors.subrange(0, i as int).map_values(|d: Director| d.id),
            decreases self@.directors.len() - i,
        {
            r.push(self.directors[i].id);
            i = i + 1;
            assert(r@ =~= self@.directors.subrange(0, i as int).map_values(|d: Director| d.id));
        }
        assert(self@.directors.subrange(0, self@.directors.len() as int) =~= self@.directors);
        r
    }

    /// The ids of the actor rows, in table order.
    fn actor_ids(&self) -> (r: Vec<i32>)
        ensures
            r@ == self@.actors.map_values(|a: Actor| a.id),
    {
        let mut r: Vec<i32> = Vec::new();
        let mut i: usize = 0;
        while i < self.actors.len()
            invariant
                i <= self@.actors.len(),
                r@ == self@.actors.subrange(0, i as int).map_values(|a: Actor| a.id),
            decreases self@.actors.len() - i,
        {
            r.push(self.actors[i].id);
            i = i + 1;
            assert(r@ =~= self@.actors.subrange(0, i as int).map_values(|a: Actor| a.id));
        }
        assert(self@.actors.subrange(0, self@.actors.len() as int) =~= self@.actors);
        r
    }

    /// The ids of the genre rows, in table order.
    fn genre_ids(&self) -> (r: Vec<i32>)
        ensures
            r@ == self@.genres.map_values(|g: Genre| g.id),
    {
        let mut r: Vec<i32> = Vec::new();
        let mut i: usize = 0;
        while i < self.genres.len()
            invariant
                i <= self@.genres.len(),
                r@ == self@.genres.subrange(0, i as int).map_values(|g: Genre| g.id),
            decreases self@.genres.len() - i,
        {
            r.push(self.genres[i].id);
            i = i + 1;
            assert(r@ =~= self@.genres.subrange(0, i as int).map_values(|g: Genre| g.id));
        }
        assert(self@.genres.subrange(0, self@.genres.len() as int) =~= self@.genres);
        r
    }

    /// The ids of the movie rows, in table order.
    fn movie_ids(&self) -> (r: Vec<i32>)
        ensures
            r@ == self@.movies.map_values(|m: Movie| m.id),
    {
        let mut r: Vec<i32> = Vec::new();
        let mut i: usize = 0;
        while i < self.movies.len()
            invariant
                i <= self@.movies.len(),
                r@ == self@.movies.subrange(0, i as int).map_values(|m: Movie| m.id),
            decreases self@.movies.len() - i,
        {
            r.push(self.movies[i].id);
            i = i + 1;
            assert(r@ =~= self@.movies.subrange(0, i as int).map_values(|m: Movie| m.id));
        }
        assert(self@.movies.subrange(0, self@.movies.len() as int) =~= self@.movies);
        r
    }

    /// Whether every movie-actor row references an existing movie and
    /// an existing actor.
    fn actor_links_fk_check(&self) -> (r: bool)
        ensures
            r == actor_links_fk(self@.movie_actors, self@.movies, self@.actors),
    {
        let mut i: usize = 0;
        while i < self.movie_actors.len()
            invariant
                i <= self@.movie_actors.len(),
                forall|k: int|
                    0 <= k < i ==> movie_exists(
                        self@.movies,
                        (#[trigger] self@.movie_actors[k]).movie_id,
                    ) && actor_exists(self@.actors, self@.movie_actors[k].actor_id),
            decreases self@.movie_actors.len() - i,
        {
            if movie_index(&self.movies, self.movie_actors[i].movie_id).is_none() {
                return false;
            }
            if actor_index(&self.actors, self.movie_actors[i].actor_id).is_none() {
                return false;
            }
            i = i + 1;
        }
        true
    }

    /// Whether every movie-genre row references an existing movie and
    /// an existing genre.
    fn genre_links_fk_check(&self) -> (r: bool)
        ensures
            r == genre_links_fk(self@.movie_genres, self@.movies, self@.genres),
    {
        let mut i: usize = 0;
        while i < self.movie_genres.len()
            invariant
                i <= self@.movie_genres.len(),
                forall|k: int|
                    0 <= k < i ==> movie_exists(
                        self@.movies,
                        (#[trigger] self@.movie_genres[k]).movie_id,
                    ) && genre_exists(self@.genres, self@.movie_genres[k].genre_id),
            decreases self@.movie_genres.len() - i,
        {
            if movie_index(&self.movies, self.movie_genres[i].movie_id).is_none() {
                return false;
            }
            if genre_index(&self.genres, self.movie_genres[i].genre_id).is_none() {
                return false;
            }
            i = i + 1;
        }
        true
    }

    /// Whether the catalog is well-formed: what every library function
    /// that reads or writes it relies on. Meant for a caller that
    /// assembled the tables from rows it did not create through this
    /// library.
    pub fn check_wf(&self) -> (r: bool)
        ensures
            r == self@.wf(),
    {
        let d_ok = ids_ok_check(&self.director_ids());
        let a_ok = ids_ok_check(&self.actor_ids());
        let g_ok = ids_ok_check(&self.genre_ids());
        let m_ok = ids_ok_check(&self.movie_ids());
        proof {
            lemma_ids_ok_directors(self@.directors);
            lemma_ids_ok_actors(self@.actors);
            lemma_ids_ok_genres(self@.genres);
            lemma_ids_ok_movies(self@.movies);
        }
        d_ok && a_ok && g_ok && m_ok && actor_links_unique_check(&self.movie_actors)
            && genre_links_unique_check(&self.movie_genres) && self.actor_links_fk_check()
            && self.genre_links_fk_check()
    }
}

/// Order of a director table and order of its id list are one thing.
proof fn lemma_ids_ok_directors(s: Seq<Director>)
    ensures
        ids_ok(s.map_values(|d: Director| d.id)) == directors_ok(s),
{
    let ids = s.map_values(|d: Director| d.id);
    assert(forall|i: int| 0 <= i < s.len() ==> ids[i] == s[i].id);
    if directors_ok(s) {
        assert forall|i: int, j: int| 0 <= i < j < ids.len() implies ids[i] < ids[j] by {
            assert(s[i].id < s[j].id);
        }
        assert forall|i: int| 0 <= i < ids.len() implies ids[i] >= 1 by {
            assert(s[i].id >= 1);
        }
    }
    if ids_ok(ids) {
        assert forall|i: int, j: int| 0 <= i < j < s.len() implies s[i].id < s[j].id by {
            assert(ids[i] < ids[j]);
        }
        assert forall|i: int| 0 <= i < s.len() implies s[i].id >= 1 by {
            assert(ids[i] >= 1);
        }
    }
}

/// Order of an actor table and order of its id list are one thing.
proof fn lemma_ids_ok_actors(s: Seq<Actor>)
    ensures
        ids_ok(s.map_values(|a: Actor| a.id)) == actors_ok(s),
{
    let ids = s.map_values(|a: Actor| a.id);
    assert(forall|i: int| 0 <= i < s.len() ==> ids[i] == s[i].id);
    if actors_ok(s) {
        assert forall|i: int, j: int| 0 <= i < j < ids.len() implies ids[i] < ids[j] by {
            assert(s[i].id < s[j].id);
        }
        assert forall|i: int| 0 <= i < ids.len() implies ids[i] >= 1 by {
            assert(s[i].id >= 1);
        }
    }
    if ids_ok(ids) {
        assert forall|i: int, j: int| 0 <= i < j < s.len() implies s[i].id < s[j].id by {
            assert(ids[i] < ids[j]);
        }
        assert forall|i: int| 0 <= i < s.len() implies s[i].id >= 1 by {
            assert(ids[i] >= 1);
        }
    }
}

/// Order of a genre table and order of its id list are one thing.
proof fn lemma_ids_ok_genres(s: Seq<Genre>)
    ensures
        ids_ok(s.map_values(|g: Genre| g.id)) == genres_ok(s),
{
    let ids = s.map_values(|g: Genre| g.id);
    assert(forall|i: int| 0 <= i < s.len() ==> ids[i] == s[i].id);
    if genres_ok(s) {
        assert forall|i: int, j: int| 0 <= i < j < ids.len() implies ids[i] < ids[j] by {
            assert(s[i].id < s[j].id);
        }
        assert forall|i: int| 0 <= i < ids.len() implies ids[i] >= 1 by {
            assert(s[i].id >= 1);
        }
    }
    if ids_ok(ids) {
        assert forall|i: int, j: int| 0 <= i < j < s.len() implies s[i].id < s[j].id by {
            assert(ids[i] < ids[j]);
        }
        assert forall|i: int| 0 <= i < s.len() implies s[i].id >= 1 by {
            assert(ids[i] >= 1);
        }
    }
}

/// Order of a movie table and order of its id list are one thing.
proof fn lemma_ids_ok_movies(s: Seq<Movie>)
    ensures
        ids_ok(s.map_values(|m: Movie| m.id)) == movies_ok(s),
{
    let ids = s.map_values(|m: Movie| m.id);
    assert(forall|i: int| 0 <= i < s.len() ==> ids[i] == s[i].id);
    if movies_ok(s) {
        assert forall|i: int, j: int| 0 <= i < j < ids.len() implies ids[i] < ids[j] by {
            assert(s[i].id < s[j].id);
        }
        assert forall|i: int| 0 <= i < ids.len() implies ids[i] >= 1 by {
            assert(s[i].id >= 1);
        }
    }
    if ids_ok(ids) {
        assert forall|i: int, j: int| 0 <= i < j < s.len() implies s[i].id < s[j].id by {
            assert(ids[i] < ids[j]);
        }
        assert forall|i: int| 0 <= i < s.len() implies s[i].id >= 1 by {
            assert(ids[i] >= 1);
        }
    }
}

} // verus!
