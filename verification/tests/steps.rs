use dreamcatcher::{ChainOfThought, ReasoningStep};

#[test]
fn new_step_is_blank() {
    let s = ReasoningStep::new(3, "look around".to_string());
    assert_eq!(s.step_id, 3);
    assert_eq!(s.desc, "look around");
    assert_eq!(s.reasoning, "");
    assert!(s.conclusion.is_none());
    assert!(s.tx_hash.is_none());
}

#[test]
fn add_step_hands_out_contiguous_ids_in_order() {
    let mut c = ChainOfThought::new();
    assert_eq!(c.add_step("a".to_string()), 0);
    assert_eq!(c.add_step("b".to_string()), 1);
    assert_eq!(c.add_step("c".to_string()), 2);
    let steps = c.get_steps();
    assert_eq!(steps.len(), 3);
    for (i, s) in steps.iter().enumerate() {
        assert_eq!(s.step_id, i);
    }
    assert_eq!(steps[0].desc, "a");
    assert_eq!(steps[1].desc, "b");
    assert_eq!(steps[2].desc, "c");
}

#[test]
fn ids_survive_evaluation_and_anchoring() {
    let mut c = ChainOfThought::new();
    c.add_step("a".to_string());
    c.add_step("b".to_string());
    c.process_boolean_step(0, "TRUE".to_string());
    c.anchor_to_chain(1);
    assert_eq!(c.add_step("c".to_string()), 2);
    let steps = c.get_steps();
    for (i, s) in steps.iter().enumerate() {
        assert_eq!(s.step_id, i);
    }
}

#[test]
fn context_is_stored_verbatim() {
    let mut c = ChainOfThought::new();
    c.set_dream_context("a theme", "A Title".to_string());
    assert_eq!(c.dream_theme.as_deref(), Some("a theme"));
    assert_eq!(c.dream_title.as_deref(), Some("A Title"));
}

#[test]
fn anchor_has_expected_shape() {
    let mut c = ChainOfThought::new();
    c.add_step("a".to_string());
    let h = c.anchor_to_chain(0);
    assert_eq!(h.len(), 18);
    assert!(h.starts_with("0x"));
    assert!(h[2..].chars().all(|ch| ch.is_ascii_hexdigit() && !ch.is_ascii_uppercase()));
    assert_eq!(c.get_steps()[0].tx_hash.as_deref(), Some(h.as_str()));
}

#[test]
fn reanchoring_replaces_the_reference() {
    let mut c = ChainOfThought::new();
    c.add_step("a".to_string());
    c.anchor_to_chain(0);
    let second = c.anchor_to_chain(0);
    assert_eq!(c.get_steps()[0].tx_hash.as_deref(), Some(second.as_str()));
}

#[test]
fn anchor_on_unknown_step_changes_nothing() {
    let mut c = ChainOfThought::new();
    c.add_step("a".to_string());
    let h = c.anchor_to_chain(9);
    assert_eq!(h.len(), 18);
    assert!(c.get_steps()[0].tx_hash.is_none());
}

#[test]
fn get_steps_is_a_copy() {
    let mut c = ChainOfThought::new();
    c.add_step("a".to_string());
    let mut copy = c.get_steps();
    copy[0].desc = "changed".to_string();
    assert_eq!(c.get_steps()[0].desc, "a");
}
