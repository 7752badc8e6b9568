use boardgame_suggest::catalog::BoardGame;
use boardgame_suggest::index::build_search_map;
use boardgame_suggest::normalize::{keep_chars, normalize_tokens, tokens_of_lowered};
use boardgame_suggest::suggest::{suggest, suggest_typed, top_entries};

fn game(id: u32, name: &str, rank: u32) -> BoardGame {
    BoardGame {
        id,
        name: name.to_string(),
        year: 2000,
        rank,
        average_score: "7.5".to_string(),
        bayes_average: "7.1".to_string(),
        users_rated: 100,
        bgg_url: format!("/boardgame/{}", id),
        thumbnail_url: String::new(),
    }
}

fn three_games() -> Vec<BoardGame> {
    vec![game(822, "Carcassonne", 10), game(13, "Catan", 3), game(826, "Cartagena", 50)]
}

#[test]
fn ca_lists_all_three_by_rank() {
    let c = three_games();
    let idx = build_search_map(&c);
    assert_eq!(suggest(&idx, &c, "ca", 5), vec!["Catan", "Carcassonne", "Cartagena"]);
}

#[test]
fn carc_lists_only_carcassonne() {
    let c = three_games();
    let idx = build_search_map(&c);
    assert_eq!(suggest(&idx, &c, "carc", 5), vec!["Carcassonne"]);
}

#[test]
fn unknown_key_gives_nothing() {
    let c = three_games();
    let idx = build_search_map(&c);
    assert!(suggest(&idx, &c, "zzz", 5).is_empty());
}

#[test]
fn limit_cuts_the_result() {
    let c = three_games();
    let idx = build_search_map(&c);
    assert_eq!(suggest(&idx, &c, "ca", 2), vec!["Catan", "Carcassonne"]);
    assert!(suggest(&idx, &c, "ca", 0).is_empty());
    assert_eq!(suggest(&idx, &c, "c", 1), vec!["Catan"]);
}

#[test]
fn exact_key_only() {
    let c = three_games();
    let idx = build_search_map(&c);
    // "cat" is only a prefix of Catan; "car" of the other two.
    assert_eq!(suggest(&idx, &c, "cat", 5), vec!["Catan"]);
    assert_eq!(suggest(&idx, &c, "car", 5), vec!["Carcassonne", "Cartagena"]);
    // A whole token is a key; one character longer is not.
    assert_eq!(suggest(&idx, &c, "catan", 5), vec!["Catan"]);
    assert!(suggest(&idx, &c, "catanx", 5).is_empty());
}

#[test]
fn empty_query_is_never_a_key() {
    let c = three_games();
    let idx = build_search_map(&c);
    assert!(idx.bucket("").is_none());
    assert!(suggest(&idx, &c, "", 5).is_empty());
}

#[test]
fn single_character_query() {
    let c = three_games();
    let idx = build_search_map(&c);
    assert_eq!(suggest(&idx, &c, "c", 5), vec!["Catan", "Carcassonne", "Cartagena"]);
    assert!(suggest(&idx, &c, "a", 5).is_empty());
}

#[test]
fn query_is_not_lowercased_by_suggest() {
    let c = three_games();
    let idx = build_search_map(&c);
    assert!(suggest(&idx, &c, "CA", 5).is_empty());
}

#[test]
fn typed_buffer_is_lowercased() {
    let c = three_games();
    let idx = build_search_map(&c);
    assert_eq!(suggest_typed(&idx, &c, "CaRc", 5), vec!["Carcassonne"]);
}

#[test]
fn results_ascend_in_rank() {
    let c = vec![
        game(1, "Alpha", 40),
        game(2, "Alpine", 5),
        game(3, "Alps", 22),
        game(4, "Altar", 1),
        game(5, "Album", 9),
    ];
    let idx = build_search_map(&c);
    let names = suggest(&idx, &c, "al", 10);
    assert_eq!(names, vec!["Altar", "Alpine", "Album", "Alps", "Alpha"]);
    let ranks: Vec<u32> = names
        .iter()
        .map(|n| c.iter().find(|g| &g.name == n).unwrap().rank)
        .collect();
    for w in ranks.windows(2) {
        assert!(w[0] <= w[1]);
    }
}

#[test]
fn equal_ranks_keep_catalog_order() {
    let c = vec![game(1, "Tide", 7), game(2, "Time", 7), game(3, "Tiny", 2), game(4, "Tier", 7)];
    let idx = build_search_map(&c);
    assert_eq!(suggest(&idx, &c, "ti", 5), vec!["Tiny", "Tide", "Time", "Tier"]);
    assert_eq!(suggest(&idx, &c, "ti", 3), vec!["Tiny", "Tide", "Time"]);
}

#[test]
fn top_entries_is_a_stable_sort_cut() {
    let b = vec![(5, 1), (3, 2), (5, 3), (1, 4), (3, 5)];
    assert_eq!(top_entries(&b, 10), vec![(1, 4), (3, 2), (3, 5), (5, 1), (5, 3)]);
    assert_eq!(top_entries(&b, 3), vec![(1, 4), (3, 2), (3, 5)]);
    assert_eq!(top_entries(&b, 0), vec![]);
    assert_eq!(top_entries(&vec![], 4), vec![]);
}

#[test]
fn every_prefix_of_every_token_is_filed() {
    let c = vec![game(7, "Ticket to Ride", 30), game(8, "Ride the Rails", 12)];
    let idx = build_search_map(&c);
    for g in &c {
        for tok in normalize_tokens(&g.name) {
            let chars: Vec<char> = tok.chars().collect();
            for l in 1..=chars.len() {
                let key: String = chars[..l].iter().collect();
                let bucket = idx.bucket(&key).expect("prefix is a key");
                assert!(bucket.contains(&(g.rank, g.id)));
            }
        }
    }
}

#[test]
fn two_word_names_seed_two_families() {
    let c = vec![game(7, "Ticket Ride", 30)];
    let idx = build_search_map(&c);
    assert_eq!(idx.bucket("r").unwrap(), &vec![(30, 7)]);
    assert_eq!(idx.bucket("t").unwrap(), &vec![(30, 7)]);
    assert!(idx.bucket("ticket ride").is_none());
    assert!(idx.bucket("ticketr").is_none());
}

#[test]
fn repeated_words_file_twice() {
    let c = vec![game(9, "Go Go", 4)];
    let idx = build_search_map(&c);
    assert_eq!(idx.bucket("go").unwrap(), &vec![(4, 9), (4, 9)]);
    assert_eq!(idx.bucket("g").unwrap(), &vec![(4, 9), (4, 9)]);
}

#[test]
fn building_twice_gives_same_buckets() {
    let c = vec![game(1, "Azul", 60), game(2, "Azul Summer", 90), game(3, "Az", 3)];
    let a = build_search_map(&c);
    let b = build_search_map(&c);
    for key in ["a", "az", "azu", "azul", "s", "summer", "zz"] {
        let mut x = a.bucket(key).cloned().unwrap_or_default();
        let mut y = b.bucket(key).cloned().unwrap_or_default();
        x.sort();
        y.sort();
        assert_eq!(x, y);
    }
    assert_eq!(a.bucket("az").unwrap(), &vec![(60, 1), (90, 2), (3, 3)]);
}

#[test]
fn empty_catalog_has_no_suggestions() {
    let c: Vec<BoardGame> = vec![];
    let idx = build_search_map(&c);
    assert!(suggest(&idx, &c, "a", 5).is_empty());
    assert!(idx.bucket("a").is_none());
}

#[test]
fn names_without_tokens_file_nothing() {
    let c = vec![game(1, "", 1), game(2, "  !? ", 2)];
    let idx = build_search_map(&c);
    assert!(idx.bucket("!").is_none());
    assert!(idx.bucket(" ").is_none());
}

#[test]
fn normalization_lowercases_filters_and_splits() {
    assert_eq!(normalize_tokens("That's Pretty Clever"), vec!["thats", "pretty", "clever"]);
    assert_eq!(normalize_tokens("  7 Wonders:\tDuel\n"), vec!["7", "wonders", "duel"]);
    assert_eq!(normalize_tokens("Café Int'l"), vec!["café", "intl"]);
    assert_eq!(normalize_tokens("a--b"), vec!["ab"]);
    assert!(normalize_tokens("").is_empty());
    assert!(normalize_tokens(" - ").is_empty());
}

#[test]
fn punctuation_is_dropped_from_keys() {
    let c = vec![game(5, "That's Pretty Clever", 140)];
    let idx = build_search_map(&c);
    assert_eq!(suggest(&idx, &c, "thats", 5), vec!["That's Pretty Clever"]);
    assert!(suggest(&idx, &c, "that'", 5).is_empty());
}

#[test]
fn ids_resolve_to_first_record() {
    let c = vec![game(4, "Hive", 20), game(4, "Hive Pocket", 25)];
    let idx = build_search_map(&c);
    assert_eq!(suggest(&idx, &c, "hive", 5), vec!["Hive", "Hive"]);
}

#[test]
fn typed_buffer_gets_key_normalization() {
    let c = vec![game(5, "That's Pretty Clever", 140)];
    let idx = build_search_map(&c);
    assert_eq!(suggest_typed(&idx, &c, "That's", 5), vec!["That's Pretty Clever"]);
    assert_eq!(suggest_typed(&idx, &c, "PRET!", 5), vec!["That's Pretty Clever"]);
    assert!(suggest_typed(&idx, &c, "", 5).is_empty());
}

#[test]
fn keeping_and_splitting_lowered_text() {
    assert_eq!(keep_chars("that's a-b\tc!"), "thats ab\tc");
    assert_eq!(keep_chars(""), "");
    assert_eq!(tokens_of_lowered("that's  pretty\nclever"), vec!["thats", "pretty", "clever"]);
    assert_eq!(tokens_of_lowered("ABC def"), vec!["ABC", "def"]);
}
