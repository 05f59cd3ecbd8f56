use wcore::prompt_check::{
    bypass_reason, check_abstract_goal, check_missing_constraint, check_prompt,
    report_from_signals, BypassReason, Signal, RULES,
};

#[test]
fn clear_prompt_is_not_vague() {
    let r = check_prompt(
        "Update parse_message in src/agent/parser.rs:120 so it returns Err when len > 4096",
    );
    assert!(!r.vague, "expected clear prompt to be non-vague: {r:?}");
    assert!(r.bypass_reason.is_none());
    assert!(!r.signals.contains(&Signal::NoTarget));
}

#[test]
fn vague_bare_verb_with_no_target_fires() {
    let r = check_prompt("fix it");
    assert!(r.vague, "expected vague to fire: {r:?}");
    assert!(r.signals.contains(&Signal::BareVerb));
    assert!(r.signals.contains(&Signal::NoTarget));
    assert!(r.suggestion.starts_with("Sharpening your aim"));
    assert!(!r.rewrite.is_empty() && r.rewrite.len() <= 3);
}

#[test]
fn anaphora_plus_no_target_fires_with_anaphora_suggestion() {
    let r = check_prompt("this is broken somehow");
    assert!(r.vague, "expected vague: {r:?}");
    assert!(r.signals.contains(&Signal::UnresolvedAnaphora));
    assert!(r.signals.contains(&Signal::NoTarget));
    assert!(r.suggestion.starts_with("Anchoring the reference"));
}

#[test]
fn empty_and_whitespace_bypass() {
    let r = check_prompt("");
    assert_eq!(r.bypass_reason, Some(BypassReason::Empty));
    assert!(!r.vague);

    let r2 = check_prompt("   \n\t ");
    assert_eq!(r2.bypass_reason, Some(BypassReason::Empty));
}

#[test]
fn asterisk_slash_hash_bypass() {
    assert_eq!(
        check_prompt("* fix it").bypass_reason,
        Some(BypassReason::AsteriskPrefix)
    );
    assert_eq!(
        check_prompt("/help").bypass_reason,
        Some(BypassReason::SlashCommand)
    );
    assert_eq!(
        check_prompt("# remember this").bypass_reason,
        Some(BypassReason::MemorizePrefix)
    );
}

#[test]
fn fenced_code_and_long_prompt_bypass() {
    let with_fence = "Look at this:\n```rust\nfn x() {}\n```";
    let r = check_prompt(with_fence);
    assert_eq!(r.bypass_reason, Some(BypassReason::FencedCode));

    let long = "a ".repeat(2100);
    assert_eq!(
        check_prompt(&long).bypass_reason,
        Some(BypassReason::LongPrompt)
    );

    let r2 = check_prompt("fix it -- ijfw off please");
    assert_eq!(r2.bypass_reason, Some(BypassReason::OverrideKeyword));
}

#[test]
fn single_word_does_not_fire_polysemous_alone() {
    let r = check_prompt("deploy");
    assert!(r.signals.contains(&Signal::Polysemous));
    assert!(r.signals.contains(&Signal::NoTarget));
    assert!(r.vague);
    let r2 = check_prompt("hello");
    assert!(!r2.vague);
    assert_eq!(r2.signals, vec![Signal::NoTarget]);
}

#[test]
fn abstract_goal_mitigated_by_metric_or_path() {
    assert!(check_abstract_goal("make it better"));
    assert!(!check_abstract_goal("make it better in under 200ms"));
    assert!(!check_abstract_goal("make src/foo.rs cleaner"));
    assert!(!check_abstract_goal("make tests/ nicer"));
}

#[test]
fn missing_constraint_skips_short_text() {
    assert!(!check_missing_constraint("fix it now"));
    assert!(check_missing_constraint(
        "please rewrite the helper function entirely"
    ));
    assert!(!check_missing_constraint(
        "please rewrite the helper function when needed"
    ));
    assert!(!check_missing_constraint(
        "please rewrite the helper function under 200"
    ));
}

#[test]
fn long_prompt_with_no_target_does_not_fire_short_gate() {
    let long = "please go through everything and clean up stuff and things and make it nicer and better and cleaner because the code is bad and needs help and improvement all around the project".to_string();
    let r = check_prompt(&long);
    assert!(
        !r.vague,
        "expected vague=false due to short gate, got {r:?}"
    );
}

#[test]
fn rules_list_canonical() {
    assert_eq!(RULES.len(), 7);
    assert_eq!(RULES[0], "bare_verb");
    assert_eq!(RULES[6], "missing_constraint");
    for (i, sig) in [
        Signal::BareVerb,
        Signal::UnresolvedAnaphora,
        Signal::AbstractGoal,
        Signal::NoTarget,
        Signal::ScopePlural,
        Signal::Polysemous,
        Signal::MissingConstraint,
    ]
    .iter()
    .enumerate()
    {
        assert_eq!(sig.as_id(), RULES[i]);
    }
}

#[test]
fn bypass_reason_names_are_kebab_case() {
    assert_eq!(BypassReason::Empty.as_str(), "empty");
    assert_eq!(BypassReason::AsteriskPrefix.as_str(), "asterisk-prefix");
    assert_eq!(BypassReason::OverrideKeyword.as_str(), "override-keyword");
    assert_eq!(BypassReason::FencedCode.as_str(), "fenced-code");
}

#[test]
fn bypass_reason_for_plain_prompt_is_none() {
    assert_eq!(bypass_reason("rename the helper"), None);
    assert_eq!(bypass_reason("  *starred"), Some(BypassReason::AsteriskPrefix));
}

#[test]
fn bare_verb_and_no_target_share_one_question() {
    let r = report_from_signals(vec![Signal::BareVerb, Signal::NoTarget], 2);
    assert!(r.vague);
    assert_eq!(r.score(), 2);
    assert_eq!(r.rewrite, vec!["Which file, function, or line number is the target?".to_string()]);
}

#[test]
fn question_pack_is_capped_at_three() {
    let r = report_from_signals(
        vec![
            Signal::BareVerb,
            Signal::UnresolvedAnaphora,
            Signal::AbstractGoal,
            Signal::NoTarget,
            Signal::ScopePlural,
        ],
        5,
    );
    assert!(r.vague);
    assert_eq!(r.rewrite.len(), 3);
    assert!(r.rewrite[1].starts_with("What does"));
    assert!(r.rewrite[2].starts_with("What specifically"));
}

#[test]
fn not_vague_without_no_target() {
    let r = report_from_signals(vec![Signal::BareVerb, Signal::AbstractGoal], 3);
    assert!(!r.vague);
    assert!(r.suggestion.is_empty());
    assert!(r.rewrite.is_empty());
    let r2 = report_from_signals(vec![Signal::AbstractGoal, Signal::NoTarget], 30);
    assert!(!r2.vague);
    let r3 = report_from_signals(vec![Signal::AbstractGoal, Signal::NoTarget], 29);
    assert!(r3.suggestion.starts_with("Pinning the target"));
}
