use vstd::prelude::*;
use vstd::string::StringExecFns;
use crate::step::{ReasoningStep, anchored, evaluated};
use crate::text::{
    boolean_suffix, chars_of, contains_ci, contains_sub, find_sub_ci, keep_numeric,
    last_line_bounds, last_nonempty_line, occurs_ci_at, string_from_chars, trim_bounds,
    trim_spec, upper_seq, vec_range, contains_seq, filter_numeric,
};
use crate::num::{clamp_spec, hex_str_fixed, int_str, push_dec_i64, push_hex_fixed, token_value};

verus! {

// ---------------------------------------------------------------------------
// The decision rules of the four evaluation disciplines
// ---------------------------------------------------------------------------

/// The marker that introduces a conclusion in an open-ended response.
pub open spec fn conclusion_marker() -> Seq<char> {
    "conclusion:"@
}

/// The first position where the conclusion marker occurs, up to ASCII case.
pub open spec fn first_marker_index(resp: Seq<char>) -> int {
    choose|i: int|
        occurs_ci_at(resp, conclusion_marker(), i) && (forall|j: int|
            0 <= j < i ==> !occurs_ci_at(resp, conclusion_marker(), j))
}

/// What an open evaluation concludes: the trimmed text from the first
/// case-insensitive occurrence of the marker to the end, if the marker occurs.
pub open spec fn open_conclusion(resp: Seq<char>) -> Option<Seq<char>> {
    if contains_ci(resp, conclusion_marker()) {
        Some(trim_spec(resp.subrange(first_marker_index(resp), resp.len() as int)))
    } else {
        None
    }
}

proof fn lemma_first_marker_is(resp: Seq<char>, i: int)
    requires
        occurs_ci_at(resp, conclusion_marker(), i),
        forall|j: int| 0 <= j < i ==> !occurs_ci_at(resp, conclusion_marker(), j),
    ensures
        first_marker_index(resp) == i,
{
    let k = first_marker_index(resp);
    assert(occurs_ci_at(resp, conclusion_marker(), k) && (forall|j: int|
        0 <= j < k ==> !occurs_ci_at(resp, conclusion_marker(), j))) by {
        assert(occurs_ci_at(resp, conclusion_marker(), i) && (forall|j: int|
            0 <= j < i ==> !occurs_ci_at(resp, conclusion_marker(), j)));
    }
    if k < i {
        assert(occurs_ci_at(resp, conclusion_marker(), k));
        assert(false);
    }
    if i < k {
        assert(occurs_ci_at(resp, conclusion_marker(), i));
        assert(false);
    }
}

/// The boolean discipline's outcome: the trimmed response, upper-cased
/// character by character, ends with TRUE. A response ending in NOT TRUE also
/// counts as true: the rule is a plain suffix test, a known ambiguity.
pub open spec fn boolean_decision(resp: Seq<char>) -> bool {
    let t = upper_seq(trim_spec(resp));
    t.len() >= 4 && t.subrange(t.len() - 4, t.len() as int) == boolean_suffix()
}

/// The choice discipline's selection: the first option, in caller order, that
/// occurs verbatim anywhere in the response; a shorter option listed earlier
/// can shadow a later one. The sentinel is returned when none occurs.
pub open spec fn choice_selection(resp: Seq<char>, opts: Seq<Seq<char>>) -> Seq<char>
    decreases opts.len(),
{
    if opts.len() == 0 {
        no_selection_text()
    } else if contains_seq(resp, opts[0]) {
        opts[0]
    } else {
        choice_selection(resp, opts.drop_first())
    }
}

pub open spec fn no_selection_text() -> Seq<char> {
    "No clear selection"@
}

/// The numeric discipline's outcome: the digits and minus signs of the
/// response's last non-empty line make an integer, 0 when they make none,
/// which is then raised to `min` and lowered to `max`, in that order.
pub open spec fn numeric_decision(resp: Seq<char>, min: int, max: int) -> int {
    clamp_spec(token_value(keep_numeric(last_nonempty_line(resp))), min, max)
}

/// The text an anchor operation stores: 0x followed by sixteen lowercase hex
/// digits of a 64-bit value.
pub open spec fn anchor_text(v: int) -> Seq<char> {
    "0x"@ + hex_str_fixed(v, 16)
}

// ---------------------------------------------------------------------------
// The reasoning chain
// ---------------------------------------------------------------------------

/// One dream: an ordered, append-only sequence of reasoning steps together
/// with an optional title and theme.
pub struct ChainOfThought {
    pub steps: Vec<ReasoningStep>,
    pub current_step: usize,
    pub dream_title: Option<String>,
    pub dream_theme: Option<String>,
}

impl ChainOfThought {
    /// Step identifiers are exactly the contiguous range `[0, count)`, in
    /// insertion order, and the next identifier is the count.
    pub open spec fn wf(&self) -> bool {
        &&& self.current_step == self.steps@.len()
        &&& forall|i: int| 0 <= i < self.steps@.len() ==> #[trigger] self.steps@[i].step_id == i
    }

    /// Title and theme untouched by an operation.
    pub open spec fn same_context(&self, other: &ChainOfThought) -> bool {
        &&& self.dream_title == other.dream_title
        &&& self.dream_theme == other.dream_theme
    }

    pub fn new() -> (c: Self)
        ensures
            c.wf(),
            c.steps@.len() == 0,
            c.dream_title is None,
            c.dream_theme is None,
    {
        ChainOfThought { steps: Vec::new(), current_step: 0, dream_title: None, dream_theme: None }
    }

    /// Records the theme and the title that the completion capability
    /// produced for it; the step sequence is untouched.
    pub fn set_dream_context(&mut self, theme: &str, title: String)
        requires
            old(self).wf(),
        ensures
            final(self).wf(),
            final(self).steps@ == old(self).steps@,
            match final(self).dream_title {
                Some(t) => t == title,
                None => false,
            },
            match final(self).dream_theme {
                Some(t) => t@ == theme@,
                None => false,
            },
    {
        self.dream_title = Some(title);
        self.dream_theme = Some(theme.to_owned());
    }

    /// Appends a step and returns its identifier: always the current count,
    /// so successive calls hand out 0, 1, 2, ... in order, never reusing or
    /// reordering an identifier.
    pub fn add_step(&mut self, desc: String) -> (step_id: usize)
        requires
            old(self).wf(),
            old(self).steps@.len() < usize::MAX,
        ensures
            final(self).wf(),
            final(self).same_context(old(self)),
            step_id == old(self).steps@.len(),
            final(self).steps@.len() == old(self).steps@.len() + 1,
            forall|i: int| 0 <= i < old(self).steps@.len() ==> final(self).steps@[i] == old(
                self,
            ).steps@[i],
            final(self).steps@.last().step_id == step_id,
            final(self).steps@.last().desc == desc,
            final(self).steps@.last().reasoning@ == Seq::<char>::empty(),
            final(self).steps@.last().conclusion is None,
            final(self).steps@.last().tx_hash is None,
    {
        let step_id = self.current_step;
        self.steps.push(ReasoningStep::new(step_id, desc));
        self.current_step = self.current_step + 1;
        step_id
    }

    /// Replaces the step at `step_id`, leaving every other step alone.
    fn store_step(&mut self, step_id: usize, post: ReasoningStep)
        requires
            old(self).wf(),
            step_id < old(self).steps@.len(),
            post.step_id == step_id,
        ensures
            final(self).wf(),
            final(self).same_context(old(self)),
            final(self).steps@ == old(self).steps@.update(step_id as int, post),
    {
        self.steps[step_id] = post;
    }

    /// The open discipline: the raw response becomes the step's reasoning,
    /// and everything from a case-insensitive conclusion marker onward,
    /// trimmed, becomes its conclusion; without the marker the conclusion is
    /// left as it was. The response is handed back unchanged. An unknown
    /// step identifier changes nothing.
    pub fn process_step(&mut self, step_id: usize, response: String) -> (out: String)
        requires
            old(self).wf(),
        ensures
            final(self).wf(),
            final(self).same_context(old(self)),
            out == response,
            final(self).steps@.len() == old(self).steps@.len(),
            forall|j: int| 0 <= j < old(self).steps@.len() && j != step_id
                ==> final(self).steps@[j] == old(self).steps@[j],
            step_id < old(self).steps@.len() ==> evaluated(
                old(self).steps@[step_id as int],
                final(self).steps@[step_id as int],
                response@,
                open_conclusion(response@),
            ),
            step_id >= old(self).steps@.len() ==> final(self).steps@ == old(self).steps@,
    {
        let cs = chars_of(response.as_str());
        let marker = chars_of("conclusion:");
        let conclusion: Option<String> = match find_sub_ci(&cs, &marker) {
            Some(idx) => {
                proof {
                    lemma_first_marker_is(response@, idx as int);
                }
                let tail = vec_range(&cs, idx, cs.len());
                let (lo, hi) = trim_bounds(&tail);
                Some(string_from_chars(&tail, lo, hi))
            },
            None => None,
        };
        if step_id < self.steps.len() {
            let pre = &self.steps[step_id];
            let post = ReasoningStep {
                step_id: pre.step_id,
                desc: pre.desc.clone(),
                reasoning: response.clone(),
                conclusion: match (conclusion, &pre.conclusion) {
                    (Some(c), _) => Some(c),
                    (None, Some(c)) => Some(c.clone()),
                    (None, None) => None,
                },
                tx_hash: match &pre.tx_hash {
                    Some(h) => Some(h.clone()),
                    None => None,
                },
            };
            self.store_step(step_id, post);
        }
        response
    }

    /// The boolean discipline: true exactly when the trimmed, upper-cased
    /// response ends with TRUE; reasoning and a TRUE/FALSE conclusion are
    /// stored on the step. An unknown step identifier changes nothing but
    /// the decision is still returned.
    pub fn process_boolean_step(&mut self, step_id: usize, response: String) -> (decision: bool)
        requires
            old(self).wf(),
        ensures
            final(self).wf(),
            final(self).same_context(old(self)),
            decision == boolean_decision(response@),
            final(self).steps@.len() == old(self).steps@.len(),
            forall|j: int| 0 <= j < old(self).steps@.len() && j != step_id
                ==> final(self).steps@[j] == old(self).steps@[j],
            step_id < old(self).steps@.len() ==> evaluated(
                old(self).steps@[step_id as int],
                final(self).steps@[step_id as int],
                response@,
                Some(if boolean_decision(response@) { "TRUE"@ } else { "FALSE"@ }),
            ),
            step_id >= old(self).steps@.len() ==> final(self).steps@ == old(self).steps@,
    {
        let cs = chars_of(response.as_str());
        let (lo, hi) = trim_bounds(&cs);
        let decision = ends_with_true(&cs, lo, hi);
        let conclusion = if decision {
            String::from_str("TRUE")
        } else {
            String::from_str("FALSE")
        };
        if step_id < self.steps.len() {
            let pre = &self.steps[step_id];
            let post = ReasoningStep {
                step_id: pre.step_id,
                desc: pre.desc.clone(),
                reasoning: response,
                conclusion: Some(conclusion),
                tx_hash: match &pre.tx_hash {
                    Some(h) => Some(h.clone()),
                    None => None,
                },
            };
            self.store_step(step_id, post);
        }
        decision
    }

    /// The choice discipline: returns the first option, in caller order, that
    /// occurs verbatim in the response, or the sentinel text when none does,
    /// and stores reasoning and the selection as the step's conclusion.
    pub fn process_string_choice_step(
        &mut self,
        step_id: usize,
        response: String,
        options: &Vec<String>,
    ) -> (selected: String)
        requires
            old(self).wf(),
        ensures
            final(self).wf(),
            final(self).same_context(old(self)),
            selected@ == choice_selection(response@, options@.map_values(|o: String| o@)),
            final(self).steps@.len() == old(self).steps@.len(),
            forall|j: int| 0 <= j < old(self).steps@.len() && j != step_id
                ==> final(self).steps@[j] == old(self).steps@[j],
            step_id < old(self).steps@.len() ==> evaluated(
                old(self).steps@[step_id as int],
                final(self).steps@[step_id as int],
                response@,
                Some(choice_selection(response@, options@.map_values(|o: String| o@))),
            ),
            step_id >= old(self).steps@.len() ==> final(self).steps@ == old(self).steps@,
    {
        let selected = select_option(&response, options);
        if step_id < self.steps.len() {
            let pre = &self.steps[step_id];
            let post = ReasoningStep {
                step_id: pre.step_id,
                desc: pre.desc.clone(),
                reasoning: response,
                conclusion: Some(selected.clone()),
                tx_hash: match &pre.tx_hash {
                    Some(h) => Some(h.clone()),
                    None => None,
                },
            };
            self.store_step(step_id, post);
        }
        selected
    }

    /// The numeric discipline: reads the digits and minus signs of the
    /// response's last non-empty line as an integer, defaulting to 0, clamps
    /// it into `[min, max]` (the upper bound winning when the bounds cross),
    /// and stores reasoning and the clamped value's decimal text.
    pub fn process_numeric_step(
        &mut self,
        step_id: usize,
        response: String,
        min: i32,
        max: i32,
    ) -> (value: i32)
        requires
            old(self).wf(),
        ensures
            final(self).wf(),
            final(self).same_context(old(self)),
            value as int == numeric_decision(response@, min as int, max as int),
            final(self).steps@.len() == old(self).steps@.len(),
            forall|j: int| 0 <= j < old(self).steps@.len() && j != step_id
                ==> final(self).steps@[j] == old(self).steps@[j],
            step_id < old(self).steps@.len() ==> evaluated(
                old(self).steps@[step_id as int],
                final(self).steps@[step_id as int],
                response@,
                Some(int_str(numeric_decision(response@, min as int, max as int))),
            ),
            step_id >= old(self).steps@.len() ==> final(self).steps@ == old(self).steps@,
    {
        let cs = chars_of(response.as_str());
        let (lo, hi) = last_line_bounds(&cs);
        let token = filter_numeric(&cs, lo, hi);
        let value = crate::num::parse_clamped(&token, min, max);
        let mut conclusion = String::new();
        push_dec_i64(&mut conclusion, value as i64);
        if step_id < self.steps.len() {
            let pre = &self.steps[step_id];
            let post = ReasoningStep {
                step_id: pre.step_id,
                desc: pre.desc.clone(),
                reasoning: response,
                conclusion: Some(conclusion),
                tx_hash: match &pre.tx_hash {
                    Some(h) => Some(h.clone()),
                    None => None,
                },
            };
            self.store_step(step_id, post);
        }
        value
    }

    /// Anchors a step: a fresh 64-bit value is drawn and stored as
    /// `0x` followed by its sixteen hex digits, replacing any earlier
    /// reference on that step. The reference is returned either way.
    pub fn anchor_to_chain(&mut self, step_id: usize) -> (reference: String)
        requires
            old(self).wf(),
        ensures
            final(self).wf(),
            final(self).same_context(old(self)),
            exists|v: int| reference@ == anchor_text(v),
            reference@.len() == 18,
            final(self).steps@.len() == old(self).steps@.len(),
            forall|j: int| 0 <= j < old(self).steps@.len() && j != step_id
                ==> final(self).steps@[j] == old(self).steps@[j],
            step_id < old(self).steps@.len() ==> anchored(
                old(self).steps@[step_id as int],
                final(self).steps@[step_id as int],
                reference@,
            ),
            step_id >= old(self).steps@.len() ==> final(self).steps@ == old(self).steps@,
    {
        let v: u64 = rand::random();
        let mut reference = String::from_str("0x");
        push_hex_fixed(&mut reference, v, 16);
        proof {
            reveal_strlit("0x");
            crate::num::lemma_hex_str_fixed_len(v as int, 16);
            assert(reference@ == anchor_text(v as int));
        }
        if step_id < self.steps.len() {
            let pre = &self.steps[step_id];
            let post = ReasoningStep {
                step_id: pre.step_id,
                desc: pre.desc.clone(),
                reasoning: pre.reasoning.clone(),
                conclusion: match &pre.conclusion {
                    Some(c) => Some(c.clone()),
                    None => None,
                },
                tx_hash: Some(reference.clone()),
            };
            self.store_step(step_id, post);
        }
        reference
    }

    /// A read-only copy of the steps, in insertion order.
    pub fn get_steps(&self) -> (steps: Vec<ReasoningStep>)
        ensures
            steps@ == self.steps@,
    {
        let mut out: Vec<ReasoningStep> = Vec::new();
        let n = self.steps.len();
        for i in 0..n
            invariant
                n == self.steps@.len(),
                out@ == self.steps@.subrange(0, i as int),
        {
            out.push(self.steps[i].clone());
            assert(out@ =~= self.steps@.subrange(0, i + 1 as int));
        }
        assert(out@ =~= self.steps@);
        out
    }
}

/// The first option, in caller order, that occurs verbatim in the response,
/// or the sentinel text when none does.
#[verifier::loop_isolation(false)]
fn select_option(response: &String, options: &Vec<String>) -> (selected: String)
    ensures
        selected@ == choice_selection(response@, options@.map_values(|o: String| o@)),
{
    let cs = chars_of(response.as_str());
    let ghost views = options@.map_values(|o: String| o@);
    let n = options.len();
    proof {
        assert(views.skip(0) =~= views);
    }
    let mut k: usize = 0;
    while k < n
        invariant
            0 <= k <= n,
            choice_selection(response@, views) == choice_selection(
                response@,
                views.skip(k as int),
            ),
        decreases n - k,
    {
        let needle = chars_of(options[k].as_str());
        proof {
            assert(views[k as int] == options@[k as int]@);
            assert(views.skip(k as int)[0] == views[k as int]);
        }
        if contains_sub(&cs, &needle) {
            proof {
                assert(contains_seq(response@, views.skip(k as int)[0]));
                assert(choice_selection(response@, views.skip(k as int)) == views[k as int]);
            }
            return options[k].clone();
        }
        proof {
            let rest = views.skip(k as int);
            assert(!contains_seq(response@, rest[0]));
            assert(rest.drop_first() =~= views.skip(k as int + 1));
        }
        k += 1;
    }
    proof {
        assert(views.skip(n as int).len() == 0);
    }
    String::from_str("No clear selection")
}

/// Whether the trimmed region `v[lo..hi]` upper-cases to something ending in
/// TRUE.
fn ends_with_true(v: &Vec<char>, lo: usize, hi: usize) -> (r: bool)
    requires
        lo <= hi <= v@.len(),
        v@.subrange(lo as int, hi as int) == trim_spec(v@),
    ensures
        r == boolean_decision(v@),
{
    let ghost t = trim_spec(v@);
    if hi - lo < 4 {
        assert(upper_seq(t).len() < 4);
        return false;
    }
    let c0 = crate::text::upper_char_x(v[hi - 4]);
    let c1 = crate::text::upper_char_x(v[hi - 3]);
    let c2 = crate::text::upper_char_x(v[hi - 2]);
    let c3 = crate::text::upper_char_x(v[hi - 1]);
    let r = c0 == 'T' && c1 == 'R' && c2 == 'U' && c3 == 'E';
    proof {
        let u = upper_seq(t);
        assert(t[t.len() - 4] == v@[hi - 4]);
        assert(t[t.len() - 3] == v@[hi - 3]);
        assert(t[t.len() - 2] == v@[hi - 2]);
        assert(t[t.len() - 1] == v@[hi - 1]);
        let tail = u.subrange(u.len() - 4, u.len() as int);
        assert(tail[0] == crate::text::upper_char(t[t.len() - 4]));
        assert(tail[1] == crate::text::upper_char(t[t.len() - 3]));
        assert(tail[2] == crate::text::upper_char(t[t.len() - 2]));
        assert(tail[3] == crate::text::upper_char(t[t.len() - 1]));
        if r {
            assert(tail =~= boolean_suffix());
        } else {
            assert(tail != boolean_suffix());
        }
    }
    r
}

} // verus!
