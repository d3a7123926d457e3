use artisan_comp::line::{option_used, scan_prior_words};
use std::collections::HashSet;

// Options that take a value in these cases: --mode/-m, --queue.
fn takes_value(w: &str) -> bool {
    HashSet::from(["--mode", "-m", "--queue"]).contains(w)
}

#[test]
fn counts_plain_positionals() {
    let (filled, positional_only) = scan_prior_words(&["github", "web"], takes_value);
    assert_eq!(filled, 2);
    assert!(!positional_only);
}

#[test]
fn trailing_empty_word_is_not_a_positional() {
    let (filled, _) = scan_prior_words(&["github", ""], takes_value);
    assert_eq!(filled, 1);
}

#[test]
fn value_taking_option_consumes_next_word() {
    let (filled, _) = scan_prior_words(&["--mode", "fast", "source"], takes_value);
    assert_eq!(filled, 1);
    let (filled, _) = scan_prior_words(&["--mode=fast", "source"], takes_value);
    assert_eq!(filled, 1);
    let (filled, _) = scan_prior_words(&["--force", "source"], takes_value);
    assert_eq!(filled, 1);
}

#[test]
fn double_dash_switches_to_positional_only() {
    let (filled, positional_only) = scan_prior_words(&["--", "-x", "value"], takes_value);
    assert_eq!(filled, 2);
    assert!(positional_only);
}

#[test]
fn option_used_matches_long_short_and_inline() {
    assert!(option_used(&["--mode"], "--mode", "-m"));
    assert!(option_used(&["-m"], "--mode", "-m"));
    assert!(option_used(&["--mode=fast"], "--mode", "-m"));
    assert!(option_used(&["-m=fast"], "--mode", "-m"));
    assert!(!option_used(&["--modeless"], "--mode", "-m"));
    assert!(!option_used(&["source"], "--mode", "-m"));
    assert!(!option_used(&["source"], "--force", ""));
}

#[test]
fn value_of_a_value_taking_option_after_separator_counts() {
    let (filled, positional_only) = scan_prior_words(&["--mode", "--", "--mode", "x"], takes_value);
    assert_eq!(filled, 2);
    assert!(positional_only);
}
