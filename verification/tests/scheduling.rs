use crawler::schedule::{CrawlState, BATCH_SIZE};

fn strings(items: &[&str]) -> Vec<String> {
    items.iter().map(|s| s.to_string()).collect()
}

fn numbered(count: usize) -> Vec<String> {
    (0..count).map(|i| format!("https://example.com/{}", i)).collect()
}

const SEED: &str = "https://example.com/";

#[test]
fn batch_size_is_six() {
    assert_eq!(BATCH_SIZE, 6);
}

#[test]
fn new_state_awaits_the_seed_at_level_zero() {
    let state = CrawlState::new(SEED.to_string(), 3);
    assert!(state.is_active());
    assert_eq!(state.level(), 0);
    assert_eq!(state.limit(), 3);
    assert_eq!(state.origin(), SEED);
    assert_eq!(state.current(), Some(&SEED.to_string()));
    assert_eq!(state.pending(), &strings(&[SEED]));
    assert_eq!(state.position(), 0);
    assert_eq!(state.fetched(), &Vec::<String>::new());
    assert_eq!(state.next_batch(), strings(&[SEED]));
}

#[test]
fn seed_without_links_ends_the_crawl() {
    let mut state = CrawlState::new(SEED.to_string(), 5);
    state.record(&Vec::new());
    assert!(!state.is_active());
    assert_eq!(state.level(), 1);
    assert_eq!(state.fetched(), &strings(&[SEED]));
    assert_eq!(state.pending(), &Vec::<String>::new());
    assert_eq!(state.current(), None);
    assert_eq!(state.next_batch(), Vec::<String>::new());
}

#[test]
fn links_of_a_level_become_the_next_frontier() {
    let mut state = CrawlState::new(SEED.to_string(), 1);
    state.record(&strings(&["https://example.com/a", "https://example.com/b"]));
    assert!(state.is_active());
    assert_eq!(state.level(), 1);
    assert_eq!(state.position(), 0);
    assert_eq!(state.pending(), &strings(&["https://example.com/a", "https://example.com/b"]));
    assert_eq!(state.next_batch(), strings(&["https://example.com/a", "https://example.com/b"]));
}

#[test]
fn level_past_the_limit_is_not_fetched() {
    let mut state = CrawlState::new(SEED.to_string(), 0);
    state.record(&strings(&["https://example.com/a"]));
    assert_eq!(state.level(), 1);
    assert!(!state.is_active());
    assert_eq!(state.current(), None);
    assert_eq!(state.next_batch(), Vec::<String>::new());
    assert_eq!(state.fetched(), &strings(&[SEED]));
}

#[test]
fn link_found_within_a_level_waits_for_the_next() {
    let mut state = CrawlState::new(SEED.to_string(), 3);
    state.record(&strings(&["https://example.com/a", "https://example.com/b"]));
    state.record(&strings(&["https://example.com/c"]));
    assert_eq!(state.level(), 1);
    assert_eq!(state.position(), 1);
    assert_eq!(state.current(), Some(&"https://example.com/b".to_string()));
    assert_eq!(state.pending(), &strings(&["https://example.com/a", "https://example.com/b"]));
    state.record(&strings(&["https://example.com/c", "https://example.com/d"]));
    assert_eq!(state.level(), 2);
    assert_eq!(state.pending(), &strings(&["https://example.com/c", "https://example.com/d"]));
}

#[test]
fn fetched_address_does_not_return_to_the_frontier() {
    let mut state = CrawlState::new(SEED.to_string(), 3);
    state.record(&strings(&[SEED, "https://example.com/a", "https://example.com/b"]));
    assert_eq!(state.pending(), &strings(&["https://example.com/a", "https://example.com/b"]));
    state.record(&strings(&["https://example.com/b", "https://example.com/c"]));
    state.record(&strings(&["https://example.com/a", SEED]));
    assert_eq!(state.level(), 2);
    assert_eq!(state.pending(), &strings(&["https://example.com/c"]));
    assert_eq!(
        state.fetched(),
        &strings(&[SEED, "https://example.com/a", "https://example.com/b"])
    );
    state.record(&strings(&["https://example.com/a", "https://example.com/c"]));
    assert!(!state.is_active());
    assert_eq!(state.pending(), &Vec::<String>::new());
    assert_eq!(state.fetched().len(), 4);
}

#[test]
fn frontier_is_fetched_in_groups_of_six() {
    let mut state = CrawlState::new(SEED.to_string(), 1);
    let links = numbered(14);
    state.record(&links);
    assert_eq!(state.next_batch(), links[0..6].to_vec());
    for _ in 0..6 {
        state.record(&Vec::new());
    }
    assert_eq!(state.next_batch(), links[6..12].to_vec());
    for _ in 0..6 {
        state.record(&Vec::new());
    }
    assert_eq!(state.next_batch(), links[12..14].to_vec());
    state.record(&Vec::new());
    state.record(&Vec::new());
    assert!(!state.is_active());
    assert_eq!(state.fetched().len(), 15);
}

#[test]
fn batch_is_what_is_left_of_the_current_group() {
    let mut state = CrawlState::new(SEED.to_string(), 1);
    let links = numbered(8);
    state.record(&links);
    state.record(&Vec::new());
    state.record(&Vec::new());
    assert_eq!(state.next_batch(), links[2..6].to_vec());
    for _ in 0..4 {
        state.record(&Vec::new());
    }
    assert_eq!(state.next_batch(), links[6..8].to_vec());
    state.record(&Vec::new());
    assert_eq!(state.next_batch(), links[7..8].to_vec());
}

#[test]
fn exactly_six_addresses_make_one_batch() {
    let mut state = CrawlState::new(SEED.to_string(), 1);
    let links = numbered(6);
    state.record(&links);
    assert_eq!(state.next_batch(), links);
    for _ in 0..6 {
        assert!(state.is_active());
        state.record(&Vec::new());
    }
    assert!(!state.is_active());
    assert_eq!(state.next_batch(), Vec::<String>::new());
}

#[test]
fn recording_when_nothing_is_awaited_changes_nothing() {
    let mut state = CrawlState::new(SEED.to_string(), 0);
    state.record(&strings(&["https://example.com/a"]));
    assert!(!state.is_active());
    state.record(&strings(&["https://example.com/b"]));
    assert_eq!(state.level(), 1);
    assert_eq!(state.fetched(), &strings(&[SEED]));
    assert_eq!(state.pending(), &strings(&["https://example.com/a"]));
}

#[test]
fn depth_stops_one_past_the_largest_limit() {
    let mut state = CrawlState::new(SEED.to_string(), u32::MAX);
    state.record(&strings(&["https://example.com/a"]));
    state.record(&strings(&["https://example.com/b"]));
    assert_eq!(state.level(), 2);
    assert!(state.is_active());
}

#[test]
fn repeated_links_are_taken_once() {
    let mut state = CrawlState::new(SEED.to_string(), 2);
    state.record(&strings(&[
        "https://example.com/a",
        "https://example.com/a",
        "https://example.com/b",
        "https://example.com/a",
    ]));
    assert_eq!(state.pending(), &strings(&["https://example.com/a", "https://example.com/b"]));
}
