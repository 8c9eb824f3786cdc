use movie_catalog::models::{Actor, Catalog, Director, MovieActor};
use movie_catalog::write::CreateMovie;

#[test]
fn catalog_built_through_the_api_is_well_formed() {
    let mut cat = Catalog::new();
    assert!(cat.check_wf());
    cat.add_director(String::from("Nolan")).unwrap();
    cat.add_actor(String::from("Bale")).unwrap();
    cat.add_genre(String::from("Sci-Fi")).unwrap();
    cat.add_movie(&CreateMovie {
        title: String::from("Tenet"),
        director_id: 1,
        actor_ids: vec![1],
        genre_ids: vec![1],
    })
    .unwrap();
    assert!(cat.check_wf());
}

#[test]
fn out_of_order_ids_are_not_well_formed() {
    let mut cat = Catalog::new();
    cat.directors.push(Director { id: 2, name: String::from("B") });
    cat.directors.push(Director { id: 1, name: String::from("A") });
    assert!(!cat.check_wf());
}

#[test]
fn ids_below_one_are_not_well_formed() {
    let mut cat = Catalog::new();
    cat.actors.push(Actor { id: 0, name: String::from("Nobody") });
    assert!(!cat.check_wf());
}

#[test]
fn dangling_association_rows_are_not_well_formed() {
    let mut cat = Catalog::new();
    cat.add_director(String::from("Nolan")).unwrap();
    cat.add_actor(String::from("Bale")).unwrap();
    cat.add_movie(&CreateMovie {
        title: String::from("Tenet"),
        director_id: 1,
        actor_ids: vec![],
        genre_ids: vec![],
    })
    .unwrap();
    cat.movie_actors.push(MovieActor { movie_id: 99, actor_id: 1 });
    assert!(!cat.check_wf());
}

#[test]
fn duplicate_association_rows_are_not_well_formed() {
    let mut cat = Catalog::new();
    cat.add_director(String::from("Nolan")).unwrap();
    cat.add_actor(String::from("Bale")).unwrap();
    cat.add_movie(&CreateMovie {
        title: String::from("Tenet"),
        director_id: 1,
        actor_ids: vec![1],
        genre_ids: vec![],
    })
    .unwrap();
    let row = cat.movie_actors[0];
    cat.movie_actors.push(row);
    assert!(!cat.check_wf());
}
