use movie_catalog::text::{chars_of, contains_chars, fold_chars, normalize_query, str_matches, trim_chars};

#[test]
fn chars_of_returns_the_characters_in_order() {
    assert_eq!(chars_of("abc"), vec!['a', 'b', 'c']);
    assert_eq!(chars_of(""), Vec::<char>::new());
    assert_eq!(chars_of("año"), vec!['a', 'ñ', 'o']);
}

#[test]
fn fold_chars_lowers_ascii_uppercase_only() {
    let folded = fold_chars(&chars_of("AbZ9-É"));
    assert_eq!(folded, vec!['a', 'b', 'z', '9', '-', 'É']);
}

#[test]
fn trim_chars_removes_whitespace_at_both_ends() {
    assert_eq!(trim_chars(&chars_of("  hi there\t\n")), chars_of("hi there"));
    assert_eq!(trim_chars(&chars_of("   ")), Vec::<char>::new());
    assert_eq!(trim_chars(&chars_of("solid")), chars_of("solid"));
}

#[test]
fn contains_chars_finds_substrings() {
    assert!(contains_chars(&chars_of("paginate"), &chars_of("gin")));
    assert!(contains_chars(&chars_of("paginate"), &chars_of("")));
    assert!(!contains_chars(&chars_of("paginate"), &chars_of("gina t")));
    assert!(!contains_chars(&chars_of("ab"), &chars_of("abc")));
}

#[test]
fn str_matches_is_case_insensitive_on_the_name_side() {
    assert!(str_matches("The Dark Knight", &chars_of("dark k")));
    assert!(!str_matches("The Dark Knight", &chars_of("Dark")));
}

#[test]
fn normalize_query_trims_folds_and_drops_empty_terms() {
    assert_eq!(normalize_query(&None), None);
    assert_eq!(normalize_query(&Some(String::from("  NoLaN "))), Some(chars_of("nolan")));
    assert_eq!(normalize_query(&Some(String::from("   "))), None);
    assert_eq!(normalize_query(&Some(String::from(""))), None);
}
