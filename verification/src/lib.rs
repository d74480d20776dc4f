pub mod api;
pub mod chain;
pub mod kinds;
pub mod mint;
pub mod num;
pub mod prompts;
pub mod registry;
pub mod sessions;
pub mod step;
pub mod svg;
pub mod text;
pub mod trig;
mod trusted;

pub use api::{
    BooleanStepRequest, ChoiceStepRequest, CompleteDreamRequest, DreamResponse, NewDreamRequest,
    NftResponse, NumericStepRequest, StepRequest, StepResponse, StopDreamingRequest, SvgResponse,
};
pub use chain::ChainOfThought;
pub use kinds::{EvalOutcome, StepKind};
pub use registry::DreamRegistry;
pub use sessions::ContinuousSessions;
pub use step::ReasoningStep;
pub use svg::{SvgDocument, SvgEdge, SvgNode};
