use vstd::prelude::*;

verus! {

/// One reasoning unit within a dream: a description chosen when the step is
/// added, the raw model response once the step has been evaluated, an optional
/// conclusion extracted from that response, and an optional anchoring
/// reference written by an explicit anchor operation.
#[derive(Debug)]
pub struct ReasoningStep {
    pub step_id: usize,
    pub desc: String,
    pub reasoning: String,
    pub conclusion: Option<String>,
    pub tx_hash: Option<String>,
}

impl ReasoningStep {
    /// A fresh step: no reasoning, no conclusion, no anchor reference.
    pub fn new(step_id: usize, desc: String) -> (s: Self)
        ensures
            s.step_id == step_id,
            s.desc == desc,
            s.reasoning@ == Seq::<char>::empty(),
            s.conclusion is None,
            s.tx_hash is None,
    {
        Self { step_id, desc, reasoning: String::new(), conclusion: None, tx_hash: None }
    }
}

impl Clone for ReasoningStep {
    fn clone(&self) -> (r: Self)
        ensures
            r == *self,
    {
        let conclusion = match &self.conclusion {
            Some(c) => Some(c.clone()),
            None => None,
        };
        let tx_hash = match &self.tx_hash {
            Some(h) => Some(h.clone()),
            None => None,
        };
        ReasoningStep {
            step_id: self.step_id,
            desc: self.desc.clone(),
            reasoning: self.reasoning.clone(),
            conclusion,
            tx_hash,
        }
    }
}

/// How an evaluation rewrites one step: the raw response becomes its
/// reasoning, and `conclusion` describes the new conclusion (`None` means the
/// old conclusion is kept). Identity and anchor reference are untouched.
pub open spec fn evaluated(
    pre: ReasoningStep,
    post: ReasoningStep,
    reasoning: Seq<char>,
    conclusion: Option<Seq<char>>,
) -> bool {
    &&& post.step_id == pre.step_id
    &&& post.desc == pre.desc
    &&& post.reasoning@ == reasoning
    &&& match conclusion {
        Some(c) => match post.conclusion {
            Some(pc) => pc@ == c,
            None => false,
        },
        None => post.conclusion == pre.conclusion,
    }
    &&& post.tx_hash == pre.tx_hash
}

/// How anchoring rewrites one step: only the anchor reference changes, and it
/// is replaced, not accumulated.
pub open spec fn anchored(pre: ReasoningStep, post: ReasoningStep, reference: Seq<char>) -> bool {
    &&& post.step_id == pre.step_id
    &&& post.desc == pre.desc
    &&& post.reasoning == pre.reasoning
    &&& post.conclusion == pre.conclusion
    &&& match post.tx_hash {
        Some(h) => h@ == reference,
        None => false,
    }
}

} // verus!
