use dreamcatcher::kinds::{canonical_kind, canonical_prompt, default_step_descriptions, continuous_step_descriptions};
use dreamcatcher::prompts;
use dreamcatcher::{ChainOfThought, DreamRegistry, DreamResponse, EvalOutcome, StepKind};

#[test]
fn create_dream_stores_title_theme_and_is_retrievable() {
    let mut registry = DreamRegistry::new();
    let id = registry.create_dream("space travel", "Drifting Orbits".to_string());
    assert_eq!(id.len(), 36);
    let chain = registry.get_dream(&id).expect("dream should be registered");
    assert_eq!(chain.dream_title.as_deref(), Some("Drifting Orbits"));
    assert_eq!(chain.dream_theme.as_deref(), Some("space travel"));
    assert!(chain.get_steps().is_empty());
}

#[test]
fn unknown_identifier_is_not_found() {
    let registry = DreamRegistry::new();
    assert!(registry.get_dream(&"nope".to_string()).is_none());
    assert!(!registry.contains_dream(&"nope".to_string()));
}

#[test]
fn take_mutate_put_round_trip() {
    let mut registry = DreamRegistry::new();
    let id = registry.create_dream("t", "T".to_string());
    let mut chain = registry.take_dream(&id).expect("present");
    assert!(!registry.contains_dream(&id));
    chain.add_step("step".to_string());
    registry.put_dream(id.clone(), chain);
    let back = registry.get_dream(&id).expect("present again");
    assert_eq!(back.get_steps().len(), 1);
}

#[test]
fn distinct_dreams_do_not_disturb_each_other() {
    let mut registry = DreamRegistry::new();
    let a = registry.create_dream("a", "A".to_string());
    let b = registry.create_dream("b", "B".to_string());
    assert_ne!(a, b);
    let mut chain = registry.take_dream(&a).unwrap();
    chain.add_step("x".to_string());
    registry.put_dream(a.clone(), chain);
    assert!(registry.get_dream(&b).unwrap().get_steps().is_empty());
    assert_eq!(registry.len(), 2);
}

#[test]
fn dream_response_snapshots_the_chain() {
    let mut c = ChainOfThought::new();
    c.set_dream_context("theme", "Title".to_string());
    c.add_step("first".to_string());
    let r = DreamResponse::of("some-id".to_string(), &c);
    assert_eq!(r.id, "some-id");
    assert_eq!(r.title.as_deref(), Some("Title"));
    assert_eq!(r.theme.as_deref(), Some("theme"));
    assert_eq!(r.steps.len(), 1);
    assert_eq!(r.steps[0].desc, "first");
}

#[test]
fn title_prompt_embeds_the_theme() {
    let p = prompts::title_prompt("tiny gardens");
    assert_eq!(
        p,
        "Generate a poetic, creative title for an AI's dream visualization about: tiny gardens. Respond with ONLY the title, no explanation."
    );
}

#[test]
fn boolean_prompt_wraps_the_question() {
    let p = prompts::boolean_prompt("Is water wet?");
    assert_eq!(
        p,
        "Please reason step-by-step to determine if the following statement is TRUE or FALSE: \n\nIs water wet?\n\nAfter your reasoning, conclude with ONLY the word 'TRUE' or 'FALSE'."
    );
}

#[test]
fn choice_prompt_lists_the_options_comma_separated() {
    let options = vec!["red".to_string(), "green".to_string(), "blue".to_string()];
    let p = prompts::choice_prompt("Which colour?", &options);
    assert_eq!(
        p,
        "Please reason step-by-step to select the BEST option from the following choices: red, green, blue\n\nQuestion: Which colour?\n\nAfter your reasoning, conclude with ONLY one of the listed options."
    );
}

#[test]
fn numeric_prompt_renders_both_bounds() {
    let p = prompts::numeric_prompt("How many?", -3, 15);
    assert_eq!(
        p,
        "Please reason step-by-step to determine a numeric value between -3 and 15 (inclusive):\n\nHow many?\n\nAfter your reasoning, conclude with ONLY the final number."
    );
}

#[test]
fn step_prompt_uses_the_description_or_a_placeholder() {
    let mut c = ChainOfThought::new();
    c.add_step("orbits".to_string());
    let p = prompts::step_prompt(&c, 0, "expand");
    assert_eq!(
        p,
        "Please think through this step-by-step:\n\nStep: orbits\nInstructions: expand\n\nFirst, break down the problem. Then analyze each part thoroughly. Finally, provide a conclusion."
    );
    let q = prompts::step_prompt(&c, 5, "expand");
    assert!(q.contains("Step: Unknown\n"));
}

#[test]
fn evaluate_dispatches_by_kind() {
    let mut c = ChainOfThought::new();
    c.add_step("s".to_string());
    match c.evaluate(0, StepKind::Boolean, "TRUE".to_string()) {
        EvalOutcome::Truth(b) => assert!(b),
        _ => panic!("boolean discipline must yield a truth outcome"),
    }
    match c.evaluate(0, StepKind::Numeric(1, 5), "9".to_string()) {
        EvalOutcome::Number(v) => assert_eq!(v, 5),
        _ => panic!("numeric discipline must yield a number outcome"),
    }
    match c.evaluate(0, StepKind::Open, "just thoughts".to_string()) {
        EvalOutcome::Text(t) => assert_eq!(t, "just thoughts"),
        _ => panic!("open discipline must yield a text outcome"),
    }
    let opts = vec!["x".to_string()];
    match c.evaluate(0, StepKind::Choice(opts), "an x here".to_string()) {
        EvalOutcome::Selection(s) => assert_eq!(s, "x"),
        _ => panic!("choice discipline must yield a selection outcome"),
    }
}

#[test]
fn canonical_pipeline_is_open_boolean_choice_numeric() {
    assert!(matches!(canonical_kind(0), Some(StepKind::Open)));
    assert!(matches!(canonical_kind(1), Some(StepKind::Boolean)));
    match canonical_kind(2) {
        Some(StepKind::Choice(opts)) => {
            assert_eq!(
                opts,
                vec![
                    "Transaction optimization".to_string(),
                    "Smart contract enhancement".to_string(),
                    "Oracle improvements".to_string(),
                    "User experience".to_string(),
                ]
            );
        }
        _ => panic!("third canonical step must be the fixed choice"),
    }
    assert!(matches!(canonical_kind(3), Some(StepKind::Numeric(1, 10))));
    assert!(canonical_kind(4).is_none());
    for i in 0..4 {
        assert!(canonical_prompt(i).is_some());
    }
    assert!(canonical_prompt(4).is_none());
}

#[test]
fn default_descriptions_match_the_one_click_flow() {
    let d = default_step_descriptions();
    assert_eq!(
        d,
        vec![
            "Current state analysis".to_string(),
            "Future possibilities".to_string(),
            "Integration potential".to_string(),
            "Vision synthesis".to_string(),
        ]
    );
    let c = continuous_step_descriptions();
    assert_eq!(
        c,
        vec![
            "Analysis".to_string(),
            "Possibilities".to_string(),
            "Integration".to_string(),
            "Vision".to_string(),
        ]
    );
}
