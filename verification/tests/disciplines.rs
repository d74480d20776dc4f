use dreamcatcher::ChainOfThought;

fn chain_with_step(desc: &str) -> ChainOfThought {
    let mut c = ChainOfThought::new();
    let id = c.add_step(desc.to_string());
    assert_eq!(id, 0);
    c
}

#[test]
fn boolean_false_when_response_concludes_false() {
    let mut c = chain_with_step("claim");
    let decision = c.process_boolean_step(0, "Reasoning...CONCLUSION: FALSE".to_string());
    assert!(!decision);
    let steps = c.get_steps();
    assert_eq!(steps[0].conclusion.as_deref(), Some("FALSE"));
}

#[test]
fn boolean_true_when_response_ends_with_true() {
    let mut c = chain_with_step("claim");
    let decision = c.process_boolean_step(0, "...final answer: TRUE".to_string());
    assert!(decision);
    let steps = c.get_steps();
    assert_eq!(steps[0].conclusion.as_deref(), Some("TRUE"));
}

#[test]
fn boolean_suffix_rule_accepts_not_true() {
    // The rule is a plain suffix test, so a response ending in NOT TRUE
    // still counts as true; this ambiguity is part of the rule.
    let mut c = chain_with_step("claim");
    let decision = c.process_boolean_step(0, "...IT IS NOT TRUE".to_string());
    assert!(decision);
}

#[test]
fn boolean_trims_trailing_whitespace() {
    let mut c = chain_with_step("claim");
    assert!(c.process_boolean_step(0, "it is true\n\n  ".to_string()));
    assert!(!c.process_boolean_step(0, "short".to_string()));
}

#[test]
fn boolean_stores_reasoning() {
    let mut c = chain_with_step("claim");
    c.process_boolean_step(0, "because TRUE".to_string());
    assert_eq!(c.get_steps()[0].reasoning, "because TRUE");
}

#[test]
fn numeric_clamps_large_answer_to_max() {
    let mut c = chain_with_step("estimate");
    let v = c.process_numeric_step(0, "I think the answer is 42".to_string(), 3, 15);
    assert_eq!(v, 15);
    assert_eq!(c.get_steps()[0].conclusion.as_deref(), Some("15"));
}

#[test]
fn numeric_defaults_to_zero_then_clamps_to_min() {
    let mut c = chain_with_step("estimate");
    let v = c.process_numeric_step(0, "no number here".to_string(), 3, 15);
    assert_eq!(v, 3);
    assert_eq!(c.get_steps()[0].conclusion.as_deref(), Some("3"));
}

#[test]
fn numeric_reads_last_nonempty_line() {
    let mut c = chain_with_step("estimate");
    let v = c.process_numeric_step(0, "first guess: 99\nThe answer is 7\n\n".to_string(), 1, 10);
    assert_eq!(v, 7);
}

#[test]
fn numeric_keeps_digits_and_minus_only() {
    let mut c = chain_with_step("estimate");
    let v = c.process_numeric_step(0, "about -4 degrees".to_string(), -10, 10);
    assert_eq!(v, -4);
}

#[test]
fn numeric_misplaced_minus_fails_to_zero() {
    let mut c = chain_with_step("estimate");
    let v = c.process_numeric_step(0, "range 4-2".to_string(), -5, 5);
    assert_eq!(v, 0);
}

#[test]
fn numeric_overflowing_number_fails_to_zero() {
    let mut c = chain_with_step("estimate");
    let v = c.process_numeric_step(0, "99999999999999999999".to_string(), -5, 5);
    assert_eq!(v, 0);
}

#[test]
fn numeric_upper_bound_wins_when_bounds_cross() {
    let mut c = chain_with_step("estimate");
    let v = c.process_numeric_step(0, "5".to_string(), 10, 2);
    assert_eq!(v, 2);
}

#[test]
fn choice_picks_option_found_in_response() {
    let mut c = chain_with_step("pick");
    let options = vec![
        "Smart contract enhancement".to_string(),
        "Oracle improvements".to_string(),
    ];
    let picked = c.process_string_choice_step(
        0,
        "...Oracle improvements is best...".to_string(),
        &options,
    );
    assert_eq!(picked, "Oracle improvements");
    assert_eq!(c.get_steps()[0].conclusion.as_deref(), Some("Oracle improvements"));
}

#[test]
fn choice_first_listed_substring_shadows_later_option() {
    // "rat" is listed first and occurs inside "ratio", so it wins even
    // though the response plainly means the longer option.
    let mut c = chain_with_step("pick");
    let options = vec!["rat".to_string(), "ratio".to_string()];
    let picked = c.process_string_choice_step(0, "the ratio matters".to_string(), &options);
    assert_eq!(picked, "rat");
}

#[test]
fn choice_sentinel_when_nothing_matches() {
    let mut c = chain_with_step("pick");
    let options = vec!["alpha".to_string(), "beta".to_string()];
    let picked = c.process_string_choice_step(0, "gamma only".to_string(), &options);
    assert_eq!(picked, "No clear selection");
}

#[test]
fn choice_sentinel_when_no_options() {
    let mut c = chain_with_step("pick");
    let options: Vec<String> = Vec::new();
    let picked = c.process_string_choice_step(0, "anything".to_string(), &options);
    assert_eq!(picked, "No clear selection");
}

#[test]
fn open_extracts_conclusion_from_marker_to_end() {
    let mut c = chain_with_step("think");
    let out = c.process_step(0, "Analysis...\nConclusion: it holds.  ".to_string());
    assert_eq!(out, "Analysis...\nConclusion: it holds.  ");
    assert_eq!(c.get_steps()[0].conclusion.as_deref(), Some("Conclusion: it holds."));
}

#[test]
fn open_marker_is_case_insensitive() {
    let mut c = chain_with_step("think");
    c.process_step(0, "blah CONCLUSION: done".to_string());
    assert_eq!(c.get_steps()[0].conclusion.as_deref(), Some("CONCLUSION: done"));
}

#[test]
fn open_without_marker_leaves_conclusion_unset() {
    let mut c = chain_with_step("think");
    c.process_step(0, "no decision given".to_string());
    assert!(c.get_steps()[0].conclusion.is_none());
    assert_eq!(c.get_steps()[0].reasoning, "no decision given");
}

#[test]
fn unknown_step_id_changes_nothing() {
    let mut c = chain_with_step("only");
    let out = c.process_step(7, "text Conclusion: x".to_string());
    assert_eq!(out, "text Conclusion: x");
    let steps = c.get_steps();
    assert_eq!(steps.len(), 1);
    assert_eq!(steps[0].reasoning, "");
    assert!(steps[0].conclusion.is_none());
}

#[test]
fn reevaluation_overwrites_reasoning_and_conclusion() {
    let mut c = chain_with_step("claim");
    c.process_boolean_step(0, "TRUE".to_string());
    assert_eq!(c.get_steps()[0].conclusion.as_deref(), Some("TRUE"));
    c.process_boolean_step(0, "FALSE".to_string());
    assert_eq!(c.get_steps()[0].conclusion.as_deref(), Some("FALSE"));
    assert_eq!(c.get_steps()[0].reasoning, "FALSE");
}
