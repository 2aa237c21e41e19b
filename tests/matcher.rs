use bard::matcher::{
    default_min_score, exact_file_name, exceeds, file_stem, find_best, is_full_score,
    match_score, pick_best, score_name, Score,
};

fn names(ns: &[&str]) -> Vec<String> {
    ns.iter().map(|s| s.to_string()).collect()
}

#[test]
fn exact_name_of_a_song() {
    assert_eq!(
        exact_file_name("Queen", "Bohemian Rhapsody", "lrc"),
        "Queen - Bohemian Rhapsody.lrc"
    );
}

#[test]
fn exact_name_scores_one() {
    let dir = names(&["Queen - Bohemian Rhapsody.lrc"]);
    let s = match_score("Queen - Bohemian Rhapsody", "Queen", "Bohemian Rhapsody");
    assert!(is_full_score(&s));
    assert_eq!(find_best(&dir, "Queen", "Bohemian Rhapsody", "lrc", &default_min_score()), Some(0));
}

#[test]
fn dashed_name_without_the_title_scores_as_artist_only() {
    // The title "bohemian rhapsody" does not occur in "bohemian-rhapsody-queen":
    // only the artist does, which scores 2/5, under the minimum.
    let dir = names(&["bohemian-rhapsody-queen.lrc"]);
    let s = match_score("bohemian-rhapsody-queen", "Queen", "Bohemian Rhapsody");
    assert!(matches!(s, Score::Fraction { num: 2, den: 5 }));
    assert_eq!(find_best(&dir, "Queen", "Bohemian Rhapsody", "lrc", &default_min_score()), None);
}

#[test]
fn name_with_artist_and_title_is_found() {
    let dir = names(&["notes.txt", "queen_bohemian rhapsody_live.lrc"]);
    let s = match_score("queen_bohemian rhapsody_live", "Queen", "Bohemian Rhapsody");
    match s {
        Score::Overlap { shorter, longer } => assert_eq!((shorter, longer), (25, 28)),
        _ => panic!("expected an overlap score"),
    }
    assert!(exceeds(&s, &Score::Fraction { num: 4, den: 5 }));
    assert_eq!(find_best(&dir, "Queen", "Bohemian Rhapsody", "lrc", &default_min_score()), Some(1));
}

#[test]
fn unrelated_name_is_not_found() {
    let dir = names(&["unrelated.lrc"]);
    let s = match_score("unrelated", "Queen", "Bohemian Rhapsody");
    assert!(matches!(s, Score::Fraction { num: 0, den: 1 }));
    assert_eq!(find_best(&dir, "Queen", "Bohemian Rhapsody", "lrc", &default_min_score()), None);
}

#[test]
fn title_that_names_the_artist() {
    let s = score_name("bohemian rhapsody by queen", "queen", "queen - bohemian rhapsody", 33);
    assert!(matches!(s, Score::Fraction { num: 3, den: 4 }));
    let s = score_name("queen live", "queen", "queen - bohemian rhapsody", 33);
    assert!(matches!(s, Score::Fraction { num: 2, den: 5 }));
}

#[test]
fn title_only_scores_one_half() {
    let s = score_name("bohemian rhapsody", "queen", "bohemian rhapsody", 25);
    assert!(matches!(s, Score::Fraction { num: 1, den: 2 }));
}

#[test]
fn names_are_lower_cased_and_trimmed() {
    let s = match_score("  QUEEN - BOHEMIAN RHAPSODY ", "queen", "bohemian rhapsody");
    assert!(is_full_score(&s));
}

#[test]
fn first_full_score_wins() {
    let scores = vec![
        Score::Fraction { num: 3, den: 4 },
        Score::Overlap { shorter: 10, longer: 10 },
        Score::Fraction { num: 1, den: 1 },
    ];
    assert_eq!(pick_best(&scores, &default_min_score()), Some(1));
}

#[test]
fn first_of_equal_best_wins() {
    let scores = vec![
        Score::Fraction { num: 1, den: 2 },
        Score::Fraction { num: 3, den: 4 },
        Score::Fraction { num: 6, den: 8 },
    ];
    assert_eq!(pick_best(&scores, &default_min_score()), Some(1));
    let low = vec![Score::Fraction { num: 3, den: 5 }, Score::Fraction { num: 2, den: 5 }];
    assert_eq!(pick_best(&low, &default_min_score()), None);
}

#[test]
fn overlap_scores_compare_exactly() {
    let a = Score::Overlap { shorter: 2, longer: 3 };
    let b = Score::Overlap { shorter: 3, longer: 5 };
    assert!(exceeds(&a, &b));
    assert!(!exceeds(&b, &a));
    assert!(exceeds(&b, &Score::Fraction { num: 3, den: 4 }));
    assert!(!exceeds(&Score::Fraction { num: 3, den: 4 }, &b));
}

#[test]
fn stems_by_extension() {
    assert_eq!(file_stem("a.b.lrc", "lrc").as_deref(), Some("a.b"));
    assert_eq!(file_stem("song.lrc", "lrc").as_deref(), Some("song"));
    assert_eq!(file_stem(".lrc", "lrc"), None);
    assert_eq!(file_stem("song.txt", "lrc"), None);
    assert_eq!(file_stem("song", "lrc"), None);
}
