use vstd::prelude::*;
use vstd::string::StringExecFns;
use crate::chain::ChainOfThought;
use crate::num::{dec_str, int_str, push_dec_i64, push_dec_u64};
use crate::text::{
    chars_of, contains_seq, find_sub, first_index_of, last_index_of, lemma_first_index_is,
    lemma_last_index_is, rfind_sub, string_from_chars, vec_range,
};
use crate::trig::{max_layout_steps, node_x, node_y};

verus! {

// ---------------------------------------------------------------------------
// Fragment extraction
// ---------------------------------------------------------------------------

/// The stand-in fragment when a response holds no svg element at all: the
/// step's one-based index and description as plain text on a plain card.
pub open spec fn fallback_fragment(index: int, desc: Seq<char>) -> Seq<char> {
    "<svg width=\"300\" height=\"300\" xmlns=\"http://www.w3.org/2000/svg\">\n<rect width=\"100%\" height=\"100%\" fill=\"#2a2a2a\" />\n<text x=\"50%\" y=\"50%\" font-family=\"Arial\" font-size=\"14\" fill=\"white\" text-anchor=\"middle\">Step "@
        + dec_str(index + 1) + ": "@ + desc + "</text>\n</svg>"@
}

/// What fragment a model response yields: the text from the first `<svg` to
/// the end of the last `</svg>` after it; with no close tag after it, the
/// text to the end with a close tag appended; with no `<svg` at all, the
/// fallback fragment. A close tag standing only before the first `<svg` does
/// not count, so a malformed response can never fail the composer.
pub open spec fn extract_svg_spec(resp: Seq<char>, index: int, desc: Seq<char>) -> Seq<char> {
    if contains_seq(resp, "<svg"@) {
        let tail = resp.subrange(first_index_of(resp, "<svg"@), resp.len() as int);
        if contains_seq(tail, "</svg>"@) {
            tail.subrange(0, last_index_of(tail, "</svg>"@) + 6)
        } else {
            tail + "</svg>"@
        }
    } else {
        fallback_fragment(index, desc)
    }
}

/// The part of a fragment that is embedded: what stands between the first
/// `>` and the last `</svg>` after it; a fragment without both markers is
/// embedded whole.
pub open spec fn inner_of(svg: Seq<char>) -> Seq<char> {
    if contains_seq(svg, ">"@) {
        let rest = svg.subrange(first_index_of(svg, ">"@) + 1, svg.len() as int);
        if contains_seq(rest, "</svg>"@) {
            rest.subrange(0, last_index_of(rest, "</svg>"@))
        } else {
            svg
        }
    } else {
        svg
    }
}

/// The fragment a response yields for step `index` with description `desc`.
pub fn extract_svg_fragment(response: &str, index: usize, desc: &String) -> (r: String)
    requires
        index < usize::MAX,
    ensures
        r@ == extract_svg_spec(response@, index as int, desc@),
{
    let cs = chars_of(response);
    let open_tag = chars_of("<svg");
    match find_sub(&cs, &open_tag) {
        Some(s) => {
            proof {
                reveal_strlit("<svg");
                reveal_strlit("</svg>");
                lemma_first_index_is(response@, "<svg"@, s as int);
            }
            let tail = vec_range(&cs, s, cs.len());
            let close_tag = chars_of("</svg>");
            match rfind_sub(&tail, &close_tag) {
                Some(e) => {
                    proof {
                        reveal_strlit("</svg>");
                        lemma_last_index_is(tail@, "</svg>"@, e as int);
                    }
                    string_from_chars(&tail, 0, e + 6)
                },
                None => {
                    let mut out = string_from_chars(&tail, 0, tail.len());
                    out.append("</svg>");
                    proof {
                        assert(tail@.subrange(0, tail@.len() as int) =~= tail@);
                    }
                    out
                },
            }
        },
        None => {
            let mut out = String::from_str(
                "<svg width=\"300\" height=\"300\" xmlns=\"http://www.w3.org/2000/svg\">\n<rect width=\"100%\" height=\"100%\" fill=\"#2a2a2a\" />\n<text x=\"50%\" y=\"50%\" font-family=\"Arial\" font-size=\"14\" fill=\"white\" text-anchor=\"middle\">Step ",
            );
            push_dec_u64(&mut out, (index as u64) + 1);
            out.append(": ");
            out.append(desc.as_str());
            out.append("</text>\n</svg>");
            out
        },
    }
}

/// The embedded part of a fragment.
pub fn inner_fragment(svg: &String) -> (r: String)
    ensures
        r@ == inner_of(svg@),
{
    let cs = chars_of(svg.as_str());
    let gt = chars_of(">");
    match find_sub(&cs, &gt) {
        Some(s) => {
            proof {
                reveal_strlit(">");
                reveal_strlit("</svg>");
                lemma_first_index_is(svg@, ">"@, s as int);
            }
            let total = cs.len();
            let rest = vec_range(&cs, s + 1, total);
            let close_tag = chars_of("</svg>");
            match rfind_sub(&rest, &close_tag) {
                Some(e) => {
                    proof {
                        reveal_strlit("</svg>");
                        lemma_last_index_is(rest@, "</svg>"@, e as int);
                    }
                    string_from_chars(&rest, 0, e)
                },
                None => svg.clone(),
            }
        },
        None => svg.clone(),
    }
}

// ---------------------------------------------------------------------------
// The composed document
// ---------------------------------------------------------------------------

#[verifier::ext_equal]
pub struct SvgEdge {
    pub x1: i64,
    pub y1: i64,
    pub x2: i64,
    pub y2: i64,
}

pub struct SvgNode {
    pub x: i64,
    pub y: i64,
    pub label: usize,
    pub inner: String,
}

/// The composed visualization before rendering: one positioned node per
/// step, one edge per consecutive pair, a title, and a footer timestamp.
/// The central marker and the canvas are fixed by the rendering.
pub struct SvgDocument {
    pub title: String,
    pub edges: Vec<SvgEdge>,
    pub nodes: Vec<SvgNode>,
    pub timestamp: String,
}

/// Exactly one edge joins each consecutive pair of steps: `n - 1` edges for
/// two or more steps, none otherwise.
pub open spec fn edge_count(n: int) -> int {
    if n <= 1 {
        0
    } else {
        n - 1
    }
}

/// The layout contract: `doc` is what composing `chain` over these fragment
/// responses yields, whatever the timestamp. Node and edge positions are
/// functions of the step index and count alone, so two compositions of the
/// same chain agree on counts and positions, and can differ only in fragment
/// content.
pub open spec fn composed_from(
    chain: ChainOfThought,
    frags: Seq<Seq<char>>,
    doc: SvgDocument,
) -> bool {
    let n = chain.steps@.len() as int;
    &&& doc.nodes@.len() == n
    &&& doc.edges@.len() == edge_count(n)
    &&& forall|i: int| 0 <= i < n ==> {
        let nd = #[trigger] doc.nodes@[i];
        nd.x == node_x(i, n) && nd.y == node_y(i, n) && nd.label == i + 1 && nd.inner@
            == inner_of(extract_svg_spec(frags[i], i, chain.steps@[i].desc@))
    }
    &&& forall|i: int| 0 <= i < edge_count(n) ==> {
        let e = #[trigger] doc.edges@[i];
        e.x1 == node_x(i, n) && e.y1 == node_y(i, n) && e.x2 == node_x(i + 1, n) && e.y2
            == node_y(i + 1, n)
    }
    &&& doc.title@ == match chain.dream_title {
        Some(t) => t@,
        None => "AI Dreamcatcher"@,
    }
}

/// Every coordinate of the document sits on the canvas.
pub open spec fn doc_on_canvas(doc: SvgDocument) -> bool {
    &&& forall|i: int| 0 <= i < doc.nodes@.len() ==> {
        let nd = #[trigger] doc.nodes@[i];
        150 <= nd.x <= 850 && 150 <= nd.y <= 850
    }
    &&& forall|i: int| 0 <= i < doc.edges@.len() ==> {
        let e = #[trigger] doc.edges@[i];
        150 <= e.x1 <= 850 && 150 <= e.y1 <= 850 && 150 <= e.x2 <= 850 && 150 <= e.y2 <= 850
    }
}

impl ChainOfThought {
    /// The fragment for one step: the response's svg element, or the
    /// fallback card; an unknown step identifier yields nothing.
    pub fn generate_svg_for_step(&self, step_id: usize, response: &str) -> (r: Option<String>)
        requires
            self.wf(),
        ensures
            match r {
                Some(s) => step_id < self.steps@.len() && s@ == extract_svg_spec(
                    response@,
                    step_id as int,
                    self.steps@[step_id as int].desc@,
                ),
                None => step_id >= self.steps@.len(),
            },
    {
        if step_id < self.steps.len() {
            Some(extract_svg_fragment(response, step_id, &self.steps[step_id].desc))
        } else {
            None
        }
    }

    /// Lays the chain out: step `i` of `n` on the circle at angle
    /// `360 * i / n` degrees, an edge between each consecutive pair, the
    /// dream's title or its default, and the given timestamp as footer.
    pub fn compose_document(&self, fragments: &Vec<String>, timestamp: String) -> (doc:
        SvgDocument)
        requires
            self.wf(),
            fragments@.len() == self.steps@.len(),
            self.steps@.len() <= max_layout_steps(),
        ensures
            composed_from(*self, fragments@.map_values(|f: String| f@), doc),
            doc_on_canvas(doc),
            doc.timestamp == timestamp,
    {
        let ghost views = fragments@.map_values(|f: String| f@);
        let n = self.steps.len();
        let mut edges: Vec<SvgEdge> = Vec::new();
        if n > 1 {
            let m = n - 1;
            for i in 0..m
                invariant
                    m == n - 1,
                    n == self.steps@.len(),
                    n <= max_layout_steps(),
                    edges@.len() == i,
                    forall|j: int| 0 <= j < i ==> {
                        let e = #[trigger] edges@[j];
                        e.x1 == node_x(j, n as int) && e.y1 == node_y(j, n as int) && e.x2
                            == node_x(j + 1, n as int) && e.y2 == node_y(j + 1, n as int)
                    },
                    forall|j: int| 0 <= j < i ==> {
                        let e = #[trigger] edges@[j];
                        150 <= e.x1 <= 850 && 150 <= e.y1 <= 850 && 150 <= e.x2 <= 850 && 150
                            <= e.y2 <= 850
                    },
            {
                let (x1, y1) = crate::trig::node_position(i, n);
                let (x2, y2) = crate::trig::node_position(i + 1, n);
                edges.push(SvgEdge { x1, y1, x2, y2 });
            }
        }
        let mut nodes: Vec<SvgNode> = Vec::new();
        for i in 0..n
            invariant
                n == self.steps@.len(),
                n <= max_layout_steps(),
                n == fragments@.len(),
                views == fragments@.map_values(|f: String| f@),
                self.wf(),
                nodes@.len() == i,
                forall|j: int| 0 <= j < i ==> {
                    let nd = #[trigger] nodes@[j];
                    nd.x == node_x(j, n as int) && nd.y == node_y(j, n as int) && nd.label == j + 1
                        && nd.inner@ == inner_of(
                        extract_svg_spec(views[j], j, self.steps@[j].desc@),
                    )
                },
                forall|j: int| 0 <= j < i ==> {
                    let nd = #[trigger] nodes@[j];
                    150 <= nd.x <= 850 && 150 <= nd.y <= 850
                },
        {
            let (x, y) = crate::trig::node_position(i, n);
            let frag = extract_svg_fragment(fragments[i].as_str(), i, &self.steps[i].desc);
            let inner = inner_fragment(&frag);
            proof {
                assert(views[i as int] == fragments@[i as int]@);
            }
            nodes.push(SvgNode { x, y, label: i + 1, inner });
        }
        let title = match &self.dream_title {
            Some(t) => t.clone(),
            None => String::from_str("AI Dreamcatcher"),
        };
        SvgDocument { title, edges, nodes, timestamp }
    }
}

// ---------------------------------------------------------------------------
// Rendering
// ---------------------------------------------------------------------------

/// Canvas, dark background, and the opening of the title banner.
pub open spec fn svg_prelude() -> Seq<char> {
    "<svg width=\"1000\" height=\"1000\" xmlns=\"http://www.w3.org/2000/svg\">\n<rect width=\"100%\" height=\"100%\" fill=\"#121212\" />\n<text x=\"50%\" y=\"50\" font-family=\"Arial\" font-size=\"24\" fill=\"white\" text-anchor=\"middle\">"@
}

/// The central marker and the opening of the timestamp footer.
pub open spec fn svg_coda() -> Seq<char> {
    "<circle cx=\"500\" cy=\"500\" r=\"20\" fill=\"white\" fill-opacity=\"0.9\" stroke=\"gold\" stroke-width=\"2\" />\n<text x=\"50%\" y=\"980\" font-family=\"Arial\" font-size=\"12\" fill=\"#999999\" text-anchor=\"middle\">Generated: "@
}

pub open spec fn edge_text(e: SvgEdge) -> Seq<char> {
    "<line x1=\""@ + int_str(e.x1 as int) + "\" y1=\""@ + int_str(e.y1 as int) + "\" x2=\""@
        + int_str(e.x2 as int) + "\" y2=\""@ + int_str(e.y2 as int)
        + "\" stroke=\"white\" stroke-width=\"2\" stroke-opacity=\"0.6\" />\n"@
}

pub open spec fn edges_text(s: Seq<SvgEdge>) -> Seq<char>
    decreases s.len(),
{
    if s.len() == 0 {
        Seq::<char>::empty()
    } else {
        edges_text(s.drop_last()) + edge_text(s.last())
    }
}

pub open spec fn node_text(nd: SvgNode) -> Seq<char> {
    "<g transform=\"translate("@ + int_str(nd.x as int - 150) + ", "@ + int_str(
        nd.y as int - 150,
    ) + ") scale(0.5)\">"@ + nd.inner@ + "</g>\n<text x=\""@ + int_str(nd.x as int) + "\" y=\""@
        + int_str(nd.y as int - 155)
        + "\" font-family=\"Arial\" font-size=\"12\" fill=\"white\" text-anchor=\"middle\">"@
        + dec_str(nd.label as int) + "</text>\n"@
}

pub open spec fn nodes_text(s: Seq<SvgNode>) -> Seq<char>
    decreases s.len(),
{
    if s.len() == 0 {
        Seq::<char>::empty()
    } else {
        nodes_text(s.drop_last()) + node_text(s.last())
    }
}

/// The full text of a rendered document, to the letter.
pub open spec fn render_spec(doc: SvgDocument) -> Seq<char> {
    svg_prelude() + doc.title@ + "</text>\n"@ + edges_text(doc.edges@) + nodes_text(doc.nodes@)
        + svg_coda() + doc.timestamp@ + "</text>\n</svg>\n"@
}

/// Renders a composed document.
#[verifier::rlimit(60)]
pub fn render_svg(doc: &SvgDocument) -> (out: String)
    requires
        doc_on_canvas(*doc),
    ensures
        out@ == render_spec(*doc),
{
    let mut s = String::from_str(
        "<svg width=\"1000\" height=\"1000\" xmlns=\"http://www.w3.org/2000/svg\">\n<rect width=\"100%\" height=\"100%\" fill=\"#121212\" />\n<text x=\"50%\" y=\"50\" font-family=\"Arial\" font-size=\"24\" fill=\"white\" text-anchor=\"middle\">",
    );
    s.append(doc.title.as_str());
    s.append("</text>\n");
    let ghost head = svg_prelude() + doc.title@ + "</text>\n"@;
    proof {
        assert(s@ =~= head);
    }
    let ne = doc.edges.len();
    for i in 0..ne
        invariant
            ne == doc.edges@.len(),
            doc_on_canvas(*doc),
            s@ == head + edges_text(doc.edges@.subrange(0, i as int)),
    {
        let ghost before = s@;
        let e = &doc.edges[i];
        s.append("<line x1=\"");
        push_dec_i64(&mut s, e.x1);
        s.append("\" y1=\"");
        push_dec_i64(&mut s, e.y1);
        s.append("\" x2=\"");
        push_dec_i64(&mut s, e.x2);
        s.append("\" y2=\"");
        push_dec_i64(&mut s, e.y2);
        s.append("\" stroke=\"white\" stroke-width=\"2\" stroke-opacity=\"0.6\" />\n");
        proof {
            let pre = doc.edges@.subrange(0, i as int);
            let post = doc.edges@.subrange(0, i + 1 as int);
            assert(post.drop_last() =~= pre);
            assert(post.last() == doc.edges@[i as int]);
            assert(s@ =~= before + edge_text(doc.edges@[i as int]));
            assert(s@ =~= head + edges_text(post));
        }
    }
    proof {
        assert(doc.edges@.subrange(0, ne as int) =~= doc.edges@);
    }
    let ghost mid = head + edges_text(doc.edges@);
    let nn = doc.nodes.len();
    for i in 0..nn
        invariant
            nn == doc.nodes@.len(),
            doc_on_canvas(*doc),
            s@ == mid + nodes_text(doc.nodes@.subrange(0, i as int)),
    {
        let ghost before = s@;
        let nd = &doc.nodes[i];
        s.append("<g transform=\"translate(");
        push_dec_i64(&mut s, nd.x - 150);
        s.append(", ");
        push_dec_i64(&mut s, nd.y - 150);
        s.append(") scale(0.5)\">");
        s.append(nd.inner.as_str());
        s.append("</g>\n<text x=\"");
        push_dec_i64(&mut s, nd.x);
        s.append("\" y=\"");
        push_dec_i64(&mut s, nd.y - 155);
        s.append("\" font-family=\"Arial\" font-size=\"12\" fill=\"white\" text-anchor=\"middle\">");
        push_dec_u64(&mut s, nd.label as u64);
        s.append("</text>\n");
        proof {
            let pre = doc.nodes@.subrange(0, i as int);
            let post = doc.nodes@.subrange(0, i + 1 as int);
            assert(post.drop_last() =~= pre);
            assert(post.last() == doc.nodes@[i as int]);
            assert(s@ =~= before + node_text(doc.nodes@[i as int]));
            assert(s@ =~= mid + nodes_text(post));
        }
    }
    proof {
        assert(doc.nodes@.subrange(0, nn as int) =~= doc.nodes@);
    }
    s.append(
        "<circle cx=\"500\" cy=\"500\" r=\"20\" fill=\"white\" fill-opacity=\"0.9\" stroke=\"gold\" stroke-width=\"2\" />\n<text x=\"50%\" y=\"980\" font-family=\"Arial\" font-size=\"12\" fill=\"#999999\" text-anchor=\"middle\">Generated: ",
    );
    s.append(doc.timestamp.as_str());
    s.append("</text>\n</svg>\n");
    proof {
        assert(s@ =~= render_spec(*doc));
    }
    s
}

impl ChainOfThought {
    /// The whole composite image: composes the chain over the per-step
    /// fragment responses, stamps it with the clock's current text, and
    /// renders it. Everything but the timestamp is a function of the chain
    /// and the responses.
    pub fn generate_svg_dream(&self, fragments: &Vec<String>) -> (out: String)
        requires
            self.wf(),
            fragments@.len() == self.steps@.len(),
            self.steps@.len() <= max_layout_steps(),
        ensures
            exists|doc: SvgDocument|
                composed_from(*self, fragments@.map_values(|f: String| f@), doc) && out@
                    == render_spec(doc),
    {
        let timestamp = crate::trusted::now_timestamp();
        let doc = self.compose_document(fragments, timestamp);
        let out = render_svg(&doc);
        proof {
            assert(composed_from(*self, fragments@.map_values(|f: String| f@), doc) && out@
                == render_spec(doc));
        }
        out
    }
}

/// Two compositions of the same chain have the same edges, the same node
/// count, and the same node positions and labels; only fragment content can
/// differ between them.
pub proof fn lemma_compose_deterministic(
    chain: ChainOfThought,
    frags1: Seq<Seq<char>>,
    frags2: Seq<Seq<char>>,
    d1: SvgDocument,
    d2: SvgDocument,
)
    requires
        composed_from(chain, frags1, d1),
        composed_from(chain, frags2, d2),
    ensures
        d1.nodes@.len() == d2.nodes@.len(),
        d1.edges@ == d2.edges@,
        forall|i: int| 0 <= i < d1.nodes@.len() ==> (#[trigger] d1.nodes@[i]).x == d2.nodes@[i].x
            && d1.nodes@[i].y == d2.nodes@[i].y && d1.nodes@[i].label == d2.nodes@[i].label,
{
    let n = chain.steps@.len() as int;
    assert forall|i: int| 0 <= i < d1.edges@.len() implies d1.edges@[i] == d2.edges@[i] by {
        let e1 = d1.edges@[i];
        let e2 = d2.edges@[i];
        assert(e1.x1 == e2.x1 && e1.y1 == e2.y1 && e1.x2 == e2.x2 && e1.y2 == e2.y2);
    }
    assert(d1.edges@ =~= d2.edges@);
}

} // verus!
