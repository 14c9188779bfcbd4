use wineventlog::resolve::{
    RunError, is_glob_pattern, plan_run, resolve_channels, resolve_pattern,
};

fn live() -> Vec<String> {
    vec![
        "System".to_string(),
        "Security".to_string(),
        "SysMon/Operational".to_string(),
    ]
}

#[test]
fn star_and_question_mark_make_a_glob() {
    assert!(is_glob_pattern("Sys*"));
    assert!(is_glob_pattern("Syste?"));
    assert!(!is_glob_pattern("System"));
}

#[test]
fn glob_resolves_to_matching_live_channels() {
    let r = resolve_pattern(&"Sys*".to_string(), &live());
    assert_eq!(r, vec!["System".to_string(), "SysMon/Operational".to_string()]);
}

#[test]
fn glob_without_matches_resolves_to_nothing() {
    let r = resolve_pattern(&"Application*".to_string(), &live());
    assert!(r.is_empty());
}

#[test]
fn literal_resolves_to_itself_exactly_when_present() {
    let r = resolve_pattern(&"Security".to_string(), &live());
    assert_eq!(r, vec!["Security".to_string()]);
    let r = resolve_pattern(&"Application".to_string(), &live());
    assert!(r.is_empty());
}

#[test]
fn resolution_deduplicates_across_patterns() {
    let pats = vec!["Sys*".to_string(), "System".to_string()];
    let r = resolve_channels(&pats, &live());
    assert_eq!(r, vec!["System".to_string(), "SysMon/Operational".to_string()]);
}

#[test]
fn run_is_rejected_when_nothing_resolves() {
    let pats = vec!["Nope*".to_string(), "Absent".to_string()];
    assert_eq!(plan_run(&pats, &live()), Err(RunError::NoChannels));
    let none: Vec<String> = vec![];
    assert_eq!(plan_run(&none, &live()), Err(RunError::NoChannels));
}

#[test]
fn run_proceeds_with_resolved_channels() {
    let pats = vec!["System".to_string()];
    assert_eq!(plan_run(&pats, &live()), Ok(vec!["System".to_string()]));
}

#[test]
fn rejection_has_an_operator_message() {
    let e = RunError::NoChannels;
    assert_eq!(e.message(), "no valid channels to subscribe to");
}

#[test]
fn question_mark_matches_one_character() {
    let r = resolve_pattern(&"Syste?".to_string(), &live());
    assert_eq!(r, vec!["System".to_string()]);
    let r = resolve_pattern(&"Sy?tem".to_string(), &live());
    assert_eq!(r, vec!["System".to_string()]);
    let r = resolve_pattern(&"System?".to_string(), &live());
    assert!(r.is_empty());
}

#[test]
fn star_matches_across_any_characters() {
    let r = resolve_pattern(&"*".to_string(), &live());
    assert_eq!(r, live());
    let r = resolve_pattern(&"*Operational".to_string(), &live());
    assert_eq!(r, vec!["SysMon/Operational".to_string()]);
}
