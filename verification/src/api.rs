use vstd::prelude::*;
use crate::chain::ChainOfThought;
use crate::step::ReasoningStep;

verus! {

// ---------------------------------------------------------------------------
// The wire shapes of the HTTP surface
// ---------------------------------------------------------------------------
// Plain data carried between the route layer and the core; the route layer
// itself lives outside this library.

pub struct NewDreamRequest {
    pub theme: String,
}

pub struct CompleteDreamRequest {
    pub theme: String,
    pub reasoning_steps: Option<Vec<String>>,
    pub auto_mint: Option<bool>,
}

pub struct StopDreamingRequest {
    pub id: String,
}

pub struct StepRequest {
    pub description: String,
    pub prompt: String,
}

pub struct BooleanStepRequest {
    pub description: String,
    pub prompt: String,
}

pub struct ChoiceStepRequest {
    pub description: String,
    pub prompt: String,
    pub options: Vec<String>,
}

pub struct NumericStepRequest {
    pub description: String,
    pub prompt: String,
    pub min: i32,
    pub max: i32,
}

pub struct DreamResponse {
    pub id: String,
    pub title: Option<String>,
    pub theme: Option<String>,
    pub steps: Vec<ReasoningStep>,
}

pub struct StepResponse {
    pub step_id: usize,
    pub description: String,
    pub reasoning: String,
    pub conclusion: Option<String>,
}

pub struct SvgResponse {
    pub svg: String,
}

pub struct NftResponse {
    pub ipfs_cid: String,
    pub transaction_hash: String,
}

impl DreamResponse {
    /// The snapshot of a dream that a lookup returns: its identifier, title,
    /// theme, and every step in insertion order.
    pub fn of(id: String, chain: &ChainOfThought) -> (r: Self)
        ensures
            r.id == id,
            r.title == chain.dream_title,
            r.theme == chain.dream_theme,
            r.steps@ == chain.steps@,
    {
        DreamResponse {
            id,
            title: match &chain.dream_title {
                Some(t) => Some(t.clone()),
                None => None,
            },
            theme: match &chain.dream_theme {
                Some(t) => Some(t.clone()),
                None => None,
            },
            steps: chain.get_steps(),
        }
    }
}

impl StepResponse {
    /// The detail of one step after an evaluation.
    pub fn of(step: &ReasoningStep) -> (r: Self)
        ensures
            r.step_id == step.step_id,
            r.description == step.desc,
            r.reasoning == step.reasoning,
            r.conclusion == step.conclusion,
    {
        StepResponse {
            step_id: step.step_id,
            description: step.desc.clone(),
            reasoning: step.reasoning.clone(),
            conclusion: match &step.conclusion {
                Some(c) => Some(c.clone()),
                None => None,
            },
        }
    }
}

} // verus!
