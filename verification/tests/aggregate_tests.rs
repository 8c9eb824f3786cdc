use movie_catalog::aggregate::MovieFullQuery;
use movie_catalog::models::Catalog;
use movie_catalog::write::CreateMovie;

/// Three movies with ids 1, 2, 3; "Nolan" directed movie 1; the genre
/// "Sci-Fi" is attached to movie 2; the actor "Bale" plays in movie 3.
fn scenario_catalog() -> Catalog {
    let mut cat = Catalog::new();
    cat.add_director(String::from("Nolan")).unwrap();
    cat.add_director(String::from("Lee")).unwrap();
    cat.add_actor(String::from("Bale")).unwrap();
    cat.add_genre(String::from("Sci-Fi")).unwrap();
    cat.add_movie(&CreateMovie {
        title: String::from("Tenet"),
        director_id: 1,
        actor_ids: vec![],
        genre_ids: vec![],
    })
    .unwrap();
    cat.add_movie(&CreateMovie {
        title: String::from("Arrival"),
        director_id: 2,
        actor_ids: vec![],
        genre_ids: vec![1],
    })
    .unwrap();
    cat.add_movie(&CreateMovie {
        title: String::from("Hostiles"),
        director_id: 2,
        actor_ids: vec![1],
        genre_ids: vec![],
    })
    .unwrap();
    cat
}

fn query(q: Option<&str>, page: Option<u32>, per_page: Option<u32>) -> MovieFullQuery {
    MovieFullQuery { q: q.map(String::from), page, per_page }
}

#[test]
fn search_by_director_name_finds_the_movie() {
    let cat = scenario_catalog();
    let r = cat.movies_full(&query(Some("nolan"), None, None));
    assert_eq!(r.meta.total, 1);
    assert_eq!(r.results.len(), 1);
    assert_eq!(r.results[0].id, 1);
    assert_eq!(r.results[0].title, "Tenet");
    assert_eq!(r.results[0].director.as_ref().unwrap().name, "Nolan");
}

#[test]
fn search_by_genre_name_finds_the_movie() {
    let cat = scenario_catalog();
    let r = cat.movies_full(&query(Some("sci-fi"), None, None));
    assert_eq!(r.meta.total, 1);
    assert_eq!(r.results[0].id, 2);
    assert_eq!(r.results[0].genres.len(), 1);
    assert_eq!(r.results[0].genres[0].name, "Sci-Fi");
}

#[test]
fn search_by_actor_name_finds_the_movie() {
    let cat = scenario_catalog();
    let r = cat.movies_full(&query(Some("bale"), None, None));
    assert_eq!(r.meta.total, 1);
    assert_eq!(r.results[0].id, 3);
    assert_eq!(r.results[0].actors.len(), 1);
    assert_eq!(r.results[0].actors[0].name, "Bale");
}

#[test]
fn search_by_title_is_case_insensitive_and_trimmed() {
    let cat = scenario_catalog();
    let r = cat.movies_full(&query(Some("  TeNe  "), None, None));
    assert_eq!(r.meta.total, 1);
    assert_eq!(r.results[0].title, "Tenet");
}

#[test]
fn unfiltered_query_pages_all_movies_by_ascending_id() {
    let cat = scenario_catalog();
    let r = cat.movies_full(&query(None, Some(1), Some(2)));
    assert_eq!(r.meta.total, 3);
    assert_eq!(r.meta.page, 1);
    assert_eq!(r.meta.per_page, 2);
    assert_eq!(r.meta.last_page, 2);
    assert_eq!(r.results.len(), 2);
    assert_eq!(r.results[0].id, 1);
    assert_eq!(r.results[1].id, 2);
    let r2 = cat.movies_full(&query(None, Some(2), Some(2)));
    assert_eq!(r2.results.len(), 1);
    assert_eq!(r2.results[0].id, 3);
}

#[test]
fn term_matching_nothing_yields_the_empty_response() {
    let cat = scenario_catalog();
    let r = cat.movies_full(&query(Some("zzz"), Some(4), Some(7)));
    assert_eq!(r.meta.total, 0);
    assert_eq!(r.meta.page, 4);
    assert_eq!(r.meta.per_page, 7);
    assert_eq!(r.meta.last_page, 1);
    assert!(r.results.is_empty());
}

#[test]
fn whitespace_only_term_counts_as_no_filter() {
    let cat = scenario_catalog();
    let r = cat.movies_full(&query(Some("   "), None, None));
    assert_eq!(r.meta.total, 3);
    assert_eq!(r.results.len(), 3);
}

#[test]
fn per_page_is_clamped_into_range() {
    let cat = scenario_catalog();
    let low = cat.movies_full(&query(None, None, Some(0)));
    assert_eq!(low.meta.per_page, 1);
    assert_eq!(low.results.len(), 1);
    let high = cat.movies_full(&query(None, None, Some(1000)));
    assert_eq!(high.meta.per_page, 100);
    assert_eq!(high.results.len(), 3);
    let page0 = cat.movies_full(&query(None, Some(0), None));
    assert_eq!(page0.meta.page, 1);
    assert_eq!(page0.results.len(), 3);
}

#[test]
fn last_page_is_ceiling_of_total_over_per_page() {
    let mut cat = Catalog::new();
    cat.add_director(String::from("Solo")).unwrap();
    let empty = cat.movies_full(&query(None, None, Some(10)));
    assert_eq!(empty.meta.total, 0);
    assert_eq!(empty.meta.last_page, 1);
    for i in 0..11 {
        cat.add_movie(&CreateMovie {
            title: format!("M{}", i),
            director_id: 1,
            actor_ids: vec![],
            genre_ids: vec![],
        })
        .unwrap();
    }
    let r10 = cat.movies_full(&query(None, None, Some(10)));
    assert_eq!(r10.meta.total, 11);
    assert_eq!(r10.meta.last_page, 2);
    let r11 = cat.movies_full(&query(None, None, Some(11)));
    assert_eq!(r11.meta.last_page, 1);
    let r3 = cat.movies_full(&query(None, None, Some(3)));
    assert_eq!(r3.meta.last_page, 4);
}

#[test]
fn page_past_the_end_is_empty_but_keeps_the_count() {
    let cat = scenario_catalog();
    let r = cat.movies_full(&query(None, Some(9), Some(2)));
    assert_eq!(r.meta.total, 3);
    assert_eq!(r.meta.last_page, 2);
    assert!(r.results.is_empty());
}

#[test]
fn created_movie_reads_back_with_its_relations() {
    let mut cat = Catalog::new();
    cat.add_director(String::from("Villeneuve")).unwrap();
    cat.add_actor(String::from("Chalamet")).unwrap();
    cat.add_actor(String::from("Ferguson")).unwrap();
    cat.add_genre(String::from("Sci-Fi")).unwrap();
    cat.add_genre(String::from("Adventure")).unwrap();
    let m = cat
        .add_movie(&CreateMovie {
            title: String::from("Dune"),
            director_id: 1,
            actor_ids: vec![2, 1],
            genre_ids: vec![1, 2],
        })
        .unwrap();
    let r = cat.movies_full(&query(None, None, None));
    assert_eq!(r.meta.total, 1);
    let full = &r.results[0];
    assert_eq!(full.id, m.id);
    assert_eq!(full.title, "Dune");
    assert_eq!(full.director.as_ref().unwrap().name, "Villeneuve");
    // Hydrated rows come back in ascending id order, whatever the
    // order in the request.
    let actor_names: Vec<&str> = full.actors.iter().map(|a| a.name.as_str()).collect();
    assert_eq!(actor_names, vec!["Chalamet", "Ferguson"]);
    let genre_names: Vec<&str> = full.genres.iter().map(|g| g.name.as_str()).collect();
    assert_eq!(genre_names, vec!["Sci-Fi", "Adventure"]);
}

#[test]
fn repeating_a_query_gives_identical_output() {
    let cat = scenario_catalog();
    let q = query(Some("e"), Some(1), Some(2));
    let r1 = cat.movies_full(&q);
    let r2 = cat.movies_full(&q);
    assert_eq!(r1, r2);
    let unfiltered = query(None, None, None);
    assert_eq!(cat.movies_full(&unfiltered), cat.movies_full(&unfiltered));
}

#[test]
fn movie_without_relations_hydrates_empty_lists() {
    let mut cat = Catalog::new();
    cat.add_director(String::from("Solo")).unwrap();
    cat.add_movie(&CreateMovie {
        title: String::from("Bare"),
        director_id: 1,
        actor_ids: vec![],
        genre_ids: vec![],
    })
    .unwrap();
    let r = cat.movies_full(&query(None, None, None));
    assert_eq!(r.results.len(), 1);
    assert!(r.results[0].actors.is_empty());
    assert!(r.results[0].genres.is_empty());
    assert!(r.results[0].director.is_some());
}
