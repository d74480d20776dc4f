use vstd::prelude::*;
use vstd::string::StringExecFns;
use crate::chain::{
    boolean_decision, choice_selection, numeric_decision, open_conclusion, ChainOfThought,
};
use crate::num::int_str;
use crate::step::evaluated;

verus! {

// ---------------------------------------------------------------------------
// The four disciplines as one tagged variant
// ---------------------------------------------------------------------------

/// Exactly one discipline governs each evaluation: open text, a TRUE/FALSE
/// decision, a selection among caller-supplied options, or a bounded number.
pub enum StepKind {
    Open,
    Boolean,
    Choice(Vec<String>),
    Numeric(i32, i32),
}

/// What an evaluation yields, matching its discipline.
pub enum EvalOutcome {
    Text(String),
    Truth(bool),
    Selection(String),
    Number(i32),
}

impl ChainOfThought {
    /// One evaluation under the given discipline: dispatches the response to
    /// that discipline's parsing rule and stores its outcome on the step.
    pub fn evaluate(&mut self, step_id: usize, kind: StepKind, response: String) -> (outcome:
        EvalOutcome)
        requires
            old(self).wf(),
        ensures
            final(self).wf(),
            final(self).same_context(old(self)),
            final(self).steps@.len() == old(self).steps@.len(),
            forall|j: int| 0 <= j < old(self).steps@.len() && j != step_id
                ==> final(self).steps@[j] == old(self).steps@[j],
            step_id >= old(self).steps@.len() ==> final(self).steps@ == old(self).steps@,
            match kind {
                StepKind::Open => match outcome {
                    EvalOutcome::Text(t) => t == response && (step_id < old(self).steps@.len()
                        ==> evaluated(
                        old(self).steps@[step_id as int],
                        final(self).steps@[step_id as int],
                        response@,
                        open_conclusion(response@),
                    )),
                    _ => false,
                },
                StepKind::Boolean => match outcome {
                    EvalOutcome::Truth(b) => b == boolean_decision(response@) && (step_id < old(
                        self,
                    ).steps@.len() ==> evaluated(
                        old(self).steps@[step_id as int],
                        final(self).steps@[step_id as int],
                        response@,
                        Some(if b { "TRUE"@ } else { "FALSE"@ }),
                    )),
                    _ => false,
                },
                StepKind::Choice(opts) => match outcome {
                    EvalOutcome::Selection(s) => s@ == choice_selection(
                        response@,
                        opts@.map_values(|o: String| o@),
                    ) && (step_id < old(self).steps@.len() ==> evaluated(
                        old(self).steps@[step_id as int],
                        final(self).steps@[step_id as int],
                        response@,
                        Some(s@),
                    )),
                    _ => false,
                },
                StepKind::Numeric(lo, hi) => match outcome {
                    EvalOutcome::Number(v) => v as int == numeric_decision(
                        response@,
                        lo as int,
                        hi as int,
                    ) && (step_id < old(self).steps@.len() ==> evaluated(
                        old(self).steps@[step_id as int],
                        final(self).steps@[step_id as int],
                        response@,
                        Some(int_str(v as int)),
                    )),
                    _ => false,
                },
            },
    {
        match kind {
            StepKind::Open => EvalOutcome::Text(self.process_step(step_id, response)),
            StepKind::Boolean => EvalOutcome::Truth(self.process_boolean_step(step_id, response)),
            StepKind::Choice(opts) => EvalOutcome::Selection(
                self.process_string_choice_step(step_id, response, &opts),
            ),
            StepKind::Numeric(lo, hi) => EvalOutcome::Number(
                self.process_numeric_step(step_id, response, lo, hi),
            ),
        }
    }
}

// ---------------------------------------------------------------------------
// The canonical one-click pipeline
// ---------------------------------------------------------------------------

/// The option list of the canonical choice step.
pub open spec fn canonical_options_spec() -> Seq<Seq<char>> {
    seq![
        "Transaction optimization"@,
        "Smart contract enhancement"@,
        "Oracle improvements"@,
        "User experience"@,
    ]
}

/// The step descriptions a complete dream gets when the caller names none.
pub fn default_step_descriptions() -> (r: Vec<String>)
    ensures
        r@.len() == 4,
        r@[0]@ == "Current state analysis"@,
        r@[1]@ == "Future possibilities"@,
        r@[2]@ == "Integration potential"@,
        r@[3]@ == "Vision synthesis"@,
{
    let mut r: Vec<String> = Vec::new();
    r.push(String::from_str("Current state analysis"));
    r.push(String::from_str("Future possibilities"));
    r.push(String::from_str("Integration potential"));
    r.push(String::from_str("Vision synthesis"));
    r
}

/// The step descriptions a continuous session's first dream gets.
pub fn continuous_step_descriptions() -> (r: Vec<String>)
    ensures
        r@.len() == 4,
        r@[0]@ == "Analysis"@,
        r@[1]@ == "Possibilities"@,
        r@[2]@ == "Integration"@,
        r@[3]@ == "Vision"@,
{
    let mut r: Vec<String> = Vec::new();
    r.push(String::from_str("Analysis"));
    r.push(String::from_str("Possibilities"));
    r.push(String::from_str("Integration"));
    r.push(String::from_str("Vision"));
    r
}

/// The discipline the canonical pipeline applies to its `i`th step: open,
/// boolean, the fixed four-way choice, then a 1-to-10 number; steps past the
/// fourth are not evaluated.
pub fn canonical_kind(i: usize) -> (r: Option<StepKind>)
    ensures
        match r {
            Some(k) => i < 4 && match k {
                StepKind::Open => i == 0,
                StepKind::Boolean => i == 1,
                StepKind::Choice(opts) => i == 2 && opts@.map_values(|o: String| o@)
                    == canonical_options_spec(),
                StepKind::Numeric(lo, hi) => i == 3 && lo == 1 && hi == 10,
            },
            None => i >= 4,
        },
{
    if i == 0 {
        Some(StepKind::Open)
    } else if i == 1 {
        Some(StepKind::Boolean)
    } else if i == 2 {
        let mut opts: Vec<String> = Vec::new();
        opts.push(String::from_str("Transaction optimization"));
        opts.push(String::from_str("Smart contract enhancement"));
        opts.push(String::from_str("Oracle improvements"));
        opts.push(String::from_str("User experience"));
        proof {
            assert(opts@.map_values(|o: String| o@) =~= canonical_options_spec());
        }
        Some(StepKind::Choice(opts))
    } else if i == 3 {
        Some(StepKind::Numeric(1, 10))
    } else {
        None
    }
}

/// The question the canonical pipeline asks at its `i`th step.
pub fn canonical_prompt(i: usize) -> (r: Option<String>)
    ensures
        match r {
            Some(p) => i < 4 && (i == 0 ==> p@
                == "What is the current state of Metis L2 technology in terms of scalability, security, and adoption?"@)
                && (i == 1 ==> p@
                == "Is AI enhancement essential for the future growth of Metis L2 solutions?"@) && (
            i == 2 ==> p@
                == "Which area of integration offers the most immediate value for Metis L2?"@) && (
            i == 3 ==> p@
                == "In how many years will AI-enhanced blockchain solutions become mainstream on Metis?"@),
            None => i >= 4,
        },
{
    if i == 0 {
        Some(String::from_str(
            "What is the current state of Metis L2 technology in terms of scalability, security, and adoption?",
        ))
    } else if i == 1 {
        Some(String::from_str(
            "Is AI enhancement essential for the future growth of Metis L2 solutions?",
        ))
    } else if i == 2 {
        Some(String::from_str(
            "Which area of integration offers the most immediate value for Metis L2?",
        ))
    } else if i == 3 {
        Some(String::from_str(
            "In how many years will AI-enhanced blockchain solutions become mainstream on Metis?",
        ))
    } else {
        None
    }
}

} // verus!
