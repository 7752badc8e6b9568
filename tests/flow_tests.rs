use boardgame_suggest::loader::{
    first_source, next_source, should_cache, LoadDecision, Outcome, Source, MAX_DL_DATE_LOOKBACKS,
};
use boardgame_suggest::prompt::{prompt_start, prompt_step, PromptAction, PromptEvent, PromptState};
use boardgame_suggest::sample::{chars_of, contains_chars, game_suggestor, get_game_list};

#[test]
fn fixed_list() {
    assert_eq!(get_game_list().to_vec(), vec!["Castles of Burgundy", "Carcassonne", "That's Pretty Clever"]);
}

#[test]
fn fixed_list_suggestions() {
    assert_eq!(game_suggestor("ca"), vec!["Castles of Burgundy", "Carcassonne"]);
    assert_eq!(game_suggestor("CAR"), vec!["Carcassonne"]);
    assert_eq!(game_suggestor("'s"), vec!["That's Pretty Clever"]);
    assert_eq!(game_suggestor("").len(), 3);
    assert!(game_suggestor("zzz").is_empty());
}

#[test]
fn substring_search() {
    let hay = chars_of("banana");
    assert!(contains_chars(&hay, &chars_of("nan")));
    assert!(contains_chars(&hay, &chars_of("")));
    assert!(contains_chars(&hay, &chars_of("banana")));
    assert!(!contains_chars(&hay, &chars_of("bananas")));
    assert!(!contains_chars(&hay, &chars_of("nab")));
}

fn buffer(s: &PromptState) -> Option<String> {
    match s {
        PromptState::Editing(b) => Some(b.clone()),
        _ => None,
    }
}

#[test]
fn prompt_edits_and_submits() {
    let s = prompt_start();
    assert_eq!(buffer(&s), Some(String::new()));
    let (s, a) = prompt_step(s, PromptEvent::Edited("cat".to_string()));
    assert_eq!(buffer(&s), Some("cat".to_string()));
    assert!(matches!(a, PromptAction::Suggest(ref b) if b == "cat"));
    let (s, a) = prompt_step(s, PromptEvent::Submit);
    assert!(matches!(s, PromptState::Submitted(ref b) if b == "cat"));
    assert!(matches!(a, PromptAction::Finish(ref b) if b == "cat"));
    let (s, a) = prompt_step(s, PromptEvent::Cancel);
    assert!(matches!(s, PromptState::Submitted(ref b) if b == "cat"));
    assert!(matches!(a, PromptAction::Idle));
}

#[test]
fn prompt_refuses_empty_submission() {
    let (s, a) = prompt_step(prompt_start(), PromptEvent::Submit);
    assert_eq!(buffer(&s), Some(String::new()));
    assert!(matches!(a, PromptAction::Required));
    let (s, a) = prompt_step(s, PromptEvent::Pick(String::new()));
    assert_eq!(buffer(&s), Some(String::new()));
    assert!(matches!(a, PromptAction::Required));
}

#[test]
fn prompt_pick_and_cancel() {
    let (s, _) = prompt_step(prompt_start(), PromptEvent::Edited("ca".to_string()));
    let (t, a) = prompt_step(s.clone(), PromptEvent::Pick("Catan".to_string()));
    assert!(matches!(t, PromptState::Submitted(ref b) if b == "Catan"));
    assert!(matches!(a, PromptAction::Finish(ref b) if b == "Catan"));
    let (u, a) = prompt_step(s, PromptEvent::Cancel);
    assert!(matches!(u, PromptState::Cancelled));
    assert!(matches!(a, PromptAction::Abort));
    let (u, a) = prompt_step(u, PromptEvent::Submit);
    assert!(matches!(u, PromptState::Cancelled));
    assert!(matches!(a, PromptAction::Idle));
}

#[test]
fn sources_in_order() {
    assert_eq!(MAX_DL_DATE_LOOKBACKS, 3);
    let mut s = first_source(MAX_DL_DATE_LOOKBACKS);
    let mut tried = vec![s];
    loop {
        match next_source(s, Outcome::Missing, MAX_DL_DATE_LOOKBACKS) {
            LoadDecision::Try(n) => {
                tried.push(n);
                s = n;
            }
            LoadDecision::Exhausted => break,
            LoadDecision::Use(_) => panic!("nothing loaded"),
        }
    }
    assert_eq!(
        tried,
        vec![Source::Cache(0), Source::Cache(1), Source::Cache(2), Source::Remote, Source::Bundled]
    );
}

#[test]
fn first_success_is_kept() {
    assert_eq!(next_source(Source::Cache(1), Outcome::Loaded, 3), LoadDecision::Use(Source::Cache(1)));
    assert_eq!(next_source(Source::Bundled, Outcome::Loaded, 3), LoadDecision::Use(Source::Bundled));
    assert_eq!(first_source(0), Source::Remote);
    assert_eq!(next_source(Source::Cache(u32::MAX), Outcome::Missing, u32::MAX), LoadDecision::Try(Source::Remote));
    assert!(should_cache(Source::Remote));
    assert!(!should_cache(Source::Cache(0)));
    assert!(!should_cache(Source::Bundled));
}

#[test]
fn unreadable_cache_goes_to_download() {
    assert_eq!(next_source(Source::Cache(0), Outcome::Unreadable, 3), LoadDecision::Try(Source::Remote));
    assert_eq!(next_source(Source::Cache(1), Outcome::Unreadable, 3), LoadDecision::Try(Source::Remote));
    assert_eq!(next_source(Source::Cache(0), Outcome::Missing, 3), LoadDecision::Try(Source::Cache(1)));
    assert_eq!(next_source(Source::Remote, Outcome::Unreadable, 3), LoadDecision::Try(Source::Bundled));
    assert_eq!(next_source(Source::Bundled, Outcome::Unreadable, 3), LoadDecision::Exhausted);
}
