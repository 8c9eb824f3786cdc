use movie_catalog::models::{Catalog, Director, Movie};
use movie_catalog::write::{CatalogError, CreateMovie};

fn sample_catalog() -> Catalog {
    let mut cat = Catalog::new();
    cat.add_director(String::from("Nolan")).unwrap();
    cat.add_director(String::from("Lee")).unwrap();
    cat.add_actor(String::from("Bale")).unwrap();
    cat.add_actor(String::from("Caine")).unwrap();
    cat.add_genre(String::from("Sci-Fi")).unwrap();
    cat.add_genre(String::from("Drama")).unwrap();
    cat
}

#[test]
fn director_ids_are_assigned_in_order() {
    let mut cat = Catalog::new();
    let d1 = cat.add_director(String::from("Nolan")).unwrap();
    let d2 = cat.add_director(String::from("Lee")).unwrap();
    assert_eq!(d1, Director { id: 1, name: String::from("Nolan") });
    assert_eq!(d2.id, 2);
    assert_eq!(d2.name, "Lee");
    let listed = cat.list_directors();
    assert_eq!(listed, vec![d1, d2]);
}

#[test]
fn actor_and_genre_creation_round_trip() {
    let cat = sample_catalog();
    let actors = cat.list_actors();
    assert_eq!(actors.len(), 2);
    assert_eq!(actors[0].id, 1);
    assert_eq!(actors[0].name, "Bale");
    let genres = cat.list_genres();
    assert_eq!(genres[1].id, 2);
    assert_eq!(genres[1].name, "Drama");
}

#[test]
fn movie_creation_with_valid_references_succeeds() {
    let mut cat = sample_catalog();
    let req = CreateMovie {
        title: String::from("Inception"),
        director_id: 1,
        actor_ids: vec![1, 2],
        genre_ids: vec![1],
    };
    let m = cat.add_movie(&req).unwrap();
    assert_eq!(
        m,
        Movie { id: 1, title: String::from("Inception"), director_id: 1 }
    );
    assert_eq!(cat.list_movies(), vec![m]);
}

#[test]
fn movie_creation_with_missing_director_is_rejected_and_writes_nothing() {
    let mut cat = sample_catalog();
    let req = CreateMovie {
        title: String::from("Ghost"),
        director_id: 99,
        actor_ids: vec![1],
        genre_ids: vec![1],
    };
    let e = cat.add_movie(&req).unwrap_err();
    assert_eq!(e, CatalogError::MissingDirector { id: 99 });
    assert!(e.is_client_error());
    assert!(cat.list_movies().is_empty());
    assert!(cat.movie_actors.is_empty());
    assert!(cat.movie_genres.is_empty());
}

#[test]
fn movie_creation_with_missing_actor_keeps_partial_state() {
    let mut cat = sample_catalog();
    let req = CreateMovie {
        title: String::from("Partial"),
        director_id: 1,
        actor_ids: vec![1, 42, 2],
        genre_ids: vec![1],
    };
    let e = cat.add_movie(&req).unwrap_err();
    assert_eq!(e, CatalogError::MissingActor { id: 42 });
    assert!(e.is_client_error());
    // The movie row and the link made before the bad id stay persisted.
    let movies = cat.list_movies();
    assert_eq!(movies.len(), 1);
    assert_eq!(movies[0].title, "Partial");
    assert_eq!(cat.movie_actors.len(), 1);
    assert_eq!(cat.movie_actors[0].movie_id, movies[0].id);
    assert_eq!(cat.movie_actors[0].actor_id, 1);
    assert!(cat.movie_genres.is_empty());
}

#[test]
fn movie_creation_with_missing_genre_keeps_movie_and_actor_links() {
    let mut cat = sample_catalog();
    let req = CreateMovie {
        title: String::from("HalfDone"),
        director_id: 2,
        actor_ids: vec![2],
        genre_ids: vec![7],
    };
    let e = cat.add_movie(&req).unwrap_err();
    assert_eq!(e, CatalogError::MissingGenre { id: 7 });
    assert!(e.is_client_error());
    assert_eq!(cat.list_movies().len(), 1);
    assert_eq!(cat.movie_actors.len(), 1);
    assert!(cat.movie_genres.is_empty());
}

#[test]
fn duplicate_actor_in_request_is_a_constraint_error() {
    let mut cat = sample_catalog();
    let req = CreateMovie {
        title: String::from("Twice"),
        director_id: 1,
        actor_ids: vec![1, 1],
        genre_ids: vec![],
    };
    let e = cat.add_movie(&req).unwrap_err();
    assert_eq!(e, CatalogError::DuplicateActorLink { movie_id: 1, actor_id: 1 });
    assert!(!e.is_client_error());
    assert_eq!(cat.movie_actors.len(), 1);
}

#[test]
fn duplicate_genre_in_request_is_a_constraint_error() {
    let mut cat = sample_catalog();
    let req = CreateMovie {
        title: String::from("TwiceG"),
        director_id: 1,
        actor_ids: vec![],
        genre_ids: vec![2, 2],
    };
    let e = cat.add_movie(&req).unwrap_err();
    assert_eq!(e, CatalogError::DuplicateGenreLink { movie_id: 1, genre_id: 2 });
    assert!(!e.is_client_error());
    assert_eq!(cat.movie_genres.len(), 1);
}

#[test]
fn exhausted_id_space_is_a_storage_error() {
    let mut cat = Catalog::new();
    cat.directors.push(Director { id: i32::MAX, name: String::from("Last") });
    let e = cat.add_director(String::from("OneMore")).unwrap_err();
    assert_eq!(e, CatalogError::IdSpaceExhausted);
    assert!(!e.is_client_error());
    assert_eq!(cat.directors.len(), 1);
}

#[test]
fn movie_ids_continue_from_the_highest() {
    let mut cat = sample_catalog();
    let req1 = CreateMovie {
        title: String::from("One"),
        director_id: 1,
        actor_ids: vec![],
        genre_ids: vec![],
    };
    let req2 = CreateMovie {
        title: String::from("Two"),
        director_id: 2,
        actor_ids: vec![],
        genre_ids: vec![],
    };
    let m1 = cat.add_movie(&req1).unwrap();
    let m2 = cat.add_movie(&req2).unwrap();
    assert_eq!(m1.id, 1);
    assert_eq!(m2.id, 2);
}
