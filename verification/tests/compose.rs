use dreamcatcher::ChainOfThought;

fn four_step_chain() -> ChainOfThought {
    let mut c = ChainOfThought::new();
    c.set_dream_context("testing", "Test Dream".to_string());
    for d in ["one", "two", "three", "four"] {
        c.add_step(d.to_string());
    }
    c
}

fn stub_fragments(n: usize) -> Vec<String> {
    (0..n)
        .map(|i| format!("<svg width=\"300\" height=\"300\"><circle r=\"{}\" /></svg>", i + 1))
        .collect()
}

#[test]
fn four_steps_make_three_edges_and_four_nodes() {
    let c = four_step_chain();
    let doc = c.compose_document(&stub_fragments(4), "2024-01-01 00:00:00".to_string());
    assert_eq!(doc.edges.len(), 3);
    assert_eq!(doc.nodes.len(), 4);
    assert_eq!(doc.title, "Test Dream");
    assert_eq!(doc.timestamp, "2024-01-01 00:00:00");
    for (i, node) in doc.nodes.iter().enumerate() {
        assert_eq!(node.label, i + 1);
    }
}

#[test]
fn one_step_makes_no_edges() {
    let mut c = ChainOfThought::new();
    c.add_step("solo".to_string());
    let doc = c.compose_document(&stub_fragments(1), "ts".to_string());
    assert_eq!(doc.edges.len(), 0);
    assert_eq!(doc.nodes.len(), 1);
}

#[test]
fn recomposition_with_stub_fragments_is_identical_in_layout() {
    let c = four_step_chain();
    let d1 = c.compose_document(&stub_fragments(4), "ts".to_string());
    let d2 = c.compose_document(&stub_fragments(4), "ts".to_string());
    assert_eq!(d1.edges.len(), d2.edges.len());
    assert_eq!(d1.nodes.len(), d2.nodes.len());
    for (e1, e2) in d1.edges.iter().zip(d2.edges.iter()) {
        assert_eq!((e1.x1, e1.y1, e1.x2, e1.y2), (e2.x1, e2.y1, e2.x2, e2.y2));
    }
    for (n1, n2) in d1.nodes.iter().zip(d2.nodes.iter()) {
        assert_eq!((n1.x, n1.y, n1.label), (n2.x, n2.y, n2.label));
    }
}

#[test]
fn edges_join_consecutive_nodes() {
    let c = four_step_chain();
    let doc = c.compose_document(&stub_fragments(4), "ts".to_string());
    for (i, e) in doc.edges.iter().enumerate() {
        assert_eq!((e.x1, e.y1), (doc.nodes[i].x, doc.nodes[i].y));
        assert_eq!((e.x2, e.y2), (doc.nodes[i + 1].x, doc.nodes[i + 1].y));
    }
}

#[test]
fn first_node_sits_east_of_centre() {
    let mut c = ChainOfThought::new();
    for d in ["a", "b", "c", "d"] {
        c.add_step(d.to_string());
    }
    let doc = c.compose_document(&stub_fragments(4), "ts".to_string());
    // Step 0 sits at angle 0: due east of the centre on a radius-350 circle.
    assert_eq!((doc.nodes[0].x, doc.nodes[0].y), (850, 500));
    // Step 1 of 4 sits a quarter turn on, due south in canvas coordinates.
    assert_eq!((doc.nodes[1].x, doc.nodes[1].y), (500, 850));
    // Step 2 of 4 sits due west.
    assert_eq!((doc.nodes[2].x, doc.nodes[2].y), (150, 500));
}

#[test]
fn rendered_document_holds_every_part_once() {
    let c = four_step_chain();
    let svg = c.generate_svg_dream(&stub_fragments(4));
    assert_eq!(svg.matches("<line ").count(), 3);
    assert_eq!(svg.matches("<g transform=").count(), 4);
    assert_eq!(svg.matches("<circle cx=\"500\" cy=\"500\" r=\"20\"").count(), 1);
    assert_eq!(svg.matches("Generated: ").count(), 1);
    assert_eq!(svg.matches("font-size=\"24\"").count(), 1);
    assert!(svg.contains("Test Dream"));
    assert!(svg.starts_with("<svg width=\"1000\" height=\"1000\""));
    assert!(svg.ends_with("</svg>\n"));
}

#[test]
fn rendered_edges_carry_the_exact_coordinates() {
    let c = four_step_chain();
    let svg = c.generate_svg_dream(&stub_fragments(4));
    // The first edge joins the east node to the south node.
    assert!(svg.contains("<line x1=\"850\" y1=\"500\" x2=\"500\" y2=\"850\""));
    // The east node's group is offset by half the nominal fragment size.
    assert!(svg.contains("<g transform=\"translate(700, 350) scale(0.5)\">"));
}

#[test]
fn untitled_dream_renders_default_banner() {
    let mut c = ChainOfThought::new();
    c.add_step("a".to_string());
    let doc = c.compose_document(&stub_fragments(1), "ts".to_string());
    assert_eq!(doc.title, "AI Dreamcatcher");
}

#[test]
fn fragment_with_svg_element_is_passed_through() {
    let mut c = ChainOfThought::new();
    c.add_step("d".to_string());
    let frag = c
        .generate_svg_for_step(0, "noise <svg a><rect /></svg> trailing")
        .unwrap();
    assert_eq!(frag, "<svg a><rect /></svg>");
}

#[test]
fn fragment_missing_close_tag_gets_one() {
    let mut c = ChainOfThought::new();
    c.add_step("d".to_string());
    let frag = c.generate_svg_for_step(0, "x <svg a><rect />").unwrap();
    assert_eq!(frag, "<svg a><rect /></svg>");
}

#[test]
fn fragment_without_svg_falls_back_to_text_card() {
    let mut c = ChainOfThought::new();
    c.add_step("my topic".to_string());
    let frag = c.generate_svg_for_step(0, "sorry, no image").unwrap();
    assert!(frag.contains("Step 1: my topic"));
    assert!(frag.starts_with("<svg "));
    assert!(frag.ends_with("</svg>"));
}

#[test]
fn fragment_for_unknown_step_is_none() {
    let c = ChainOfThought::new();
    assert!(c.generate_svg_for_step(0, "<svg></svg>").is_none());
}

#[test]
fn mint_references_have_expected_shapes() {
    let c = ChainOfThought::new();
    let (cid, tx) = c.generate_dream_nft();
    assert_eq!(cid.len(), 34);
    assert!(cid.starts_with("Qm"));
    assert!(cid[2..].chars().all(|ch| ch.is_ascii_hexdigit() && !ch.is_ascii_uppercase()));
    assert_eq!(tx.len(), 66);
    assert!(tx.starts_with("0x"));
    assert!(tx[2..].chars().all(|ch| ch.is_ascii_hexdigit() && !ch.is_ascii_uppercase()));
}
