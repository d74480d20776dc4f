use vstd::prelude::*;
use vstd::string::StringExecFns;
use crate::chain::ChainOfThought;
use crate::num::{int_str, push_dec_i64};

verus! {

// The exact texts sent to the completion capability, one builder per
// discipline. Each contract spells the prompt out as a concatenation, so a
// caller knows the full text to the letter.

/// The comma-separated option list, as the choice prompt embeds it.
pub open spec fn join_comma(items: Seq<Seq<char>>) -> Seq<char>
    decreases items.len(),
{
    if items.len() == 0 {
        Seq::<char>::empty()
    } else if items.len() == 1 {
        items[0]
    } else {
        join_comma(items.drop_last()) + ", "@ + items.last()
    }
}

pub fn join_options(options: &Vec<String>) -> (r: String)
    ensures
        r@ == join_comma(options@.map_values(|o: String| o@)),
{
    let ghost views = options@.map_values(|o: String| o@);
    let mut r = String::new();
    let n = options.len();
    proof {
        assert(views.subrange(0, 0) =~= Seq::<Seq<char>>::empty());
    }
    for i in 0..n
        invariant
            n == options@.len(),
            views == options@.map_values(|o: String| o@),
            r@ == join_comma(views.subrange(0, i as int)),
    {
        if i > 0 {
            r.append(", ");
        }
        r.append(options[i].as_str());
        proof {
            let pre = views.subrange(0, i as int);
            let post = views.subrange(0, i + 1 as int);
            assert(post.drop_last() =~= pre);
            assert(post.last() == views[i as int]);
            assert(views[i as int] == options@[i as int]@);
            if i == 0 {
                assert(post.len() == 1);
                assert(r@ =~= join_comma(post));
            } else {
                assert(join_comma(post) == join_comma(pre) + ", "@ + views[i as int]);
                assert(r@ =~= join_comma(post));
            }
        }
    }
    proof {
        assert(views.subrange(0, n as int) =~= views);
    }
    r
}

/// The prompt that asks for a dream title on a theme.
pub fn title_prompt(theme: &str) -> (r: String)
    ensures
        r@ == "Generate a poetic, creative title for an AI's dream visualization about: "@
            + theme@ + ". Respond with ONLY the title, no explanation."@,
{
    let mut s = String::from_str(
        "Generate a poetic, creative title for an AI's dream visualization about: ",
    );
    s.append(theme);
    s.append(". Respond with ONLY the title, no explanation.");
    s
}

/// The prompt of the boolean discipline.
pub fn boolean_prompt(prompt: &str) -> (r: String)
    ensures
        r@ == "Please reason step-by-step to determine if the following statement is TRUE or FALSE: \n\n"@
            + prompt@
            + "\n\nAfter your reasoning, conclude with ONLY the word 'TRUE' or 'FALSE'."@,
{
    let mut s = String::from_str(
        "Please reason step-by-step to determine if the following statement is TRUE or FALSE: \n\n",
    );
    s.append(prompt);
    s.append("\n\nAfter your reasoning, conclude with ONLY the word 'TRUE' or 'FALSE'.");
    s
}

/// The prompt of the choice discipline: the options first, then the question.
pub fn choice_prompt(prompt: &str, options: &Vec<String>) -> (r: String)
    ensures
        r@ == "Please reason step-by-step to select the BEST option from the following choices: "@
            + join_comma(options@.map_values(|o: String| o@)) + "\n\nQuestion: "@ + prompt@
            + "\n\nAfter your reasoning, conclude with ONLY one of the listed options."@,
{
    let mut s = String::from_str(
        "Please reason step-by-step to select the BEST option from the following choices: ",
    );
    let joined = join_options(options);
    s.append(joined.as_str());
    s.append("\n\nQuestion: ");
    s.append(prompt);
    s.append("\n\nAfter your reasoning, conclude with ONLY one of the listed options.");
    s
}

/// The prompt of the numeric discipline, with both bounds rendered in
/// decimal.
pub fn numeric_prompt(prompt: &str, min: i32, max: i32) -> (r: String)
    ensures
        r@ == "Please reason step-by-step to determine a numeric value between "@
            + int_str(min as int) + " and "@ + int_str(max as int) + " (inclusive):\n\n"@
            + prompt@ + "\n\nAfter your reasoning, conclude with ONLY the final number."@,
{
    let mut s = String::from_str(
        "Please reason step-by-step to determine a numeric value between ",
    );
    push_dec_i64(&mut s, min as i64);
    s.append(" and ");
    push_dec_i64(&mut s, max as i64);
    s.append(" (inclusive):\n\n");
    s.append(prompt);
    s.append("\n\nAfter your reasoning, conclude with ONLY the final number.");
    s
}

/// The description the open prompt embeds: the step's own, or a placeholder
/// for an unknown identifier.
pub open spec fn step_desc_or_unknown(chain: &ChainOfThought, step_id: int) -> Seq<char> {
    if 0 <= step_id < chain.steps@.len() {
        chain.steps@[step_id].desc@
    } else {
        "Unknown"@
    }
}

/// The prompt that asks for a step's visual fragment, embedding its
/// description and reasoning; an unknown step identifier yields nothing.
pub fn svg_step_prompt(chain: &ChainOfThought, step_id: usize) -> (r: Option<String>)
    requires
        chain.wf(),
    ensures
        match r {
            Some(p) => step_id < chain.steps@.len() && p@
                == "Based on the following reasoning step, create SVG code that visualizes this thinking process:\n\nTopic: "@
                + chain.steps@[step_id as int].desc@ + "\nReasoning: "@
                + chain.steps@[step_id as int].reasoning@
                + "\n\nGenerate valid SVG code that artistically represents this reasoning as a dream-like image. Use colors, shapes, and patterns that reflect the thought process. The SVG should be 300x300 pixels, creative, and abstract. Respond ONLY with valid SVG code, starting with <svg and ending with </svg>."@,
            None => step_id >= chain.steps@.len(),
        },
{
    if step_id < chain.steps.len() {
        let mut s = String::from_str(
            "Based on the following reasoning step, create SVG code that visualizes this thinking process:\n\nTopic: ",
        );
        s.append(chain.steps[step_id].desc.as_str());
        s.append("\nReasoning: ");
        s.append(chain.steps[step_id].reasoning.as_str());
        s.append(
            "\n\nGenerate valid SVG code that artistically represents this reasoning as a dream-like image. Use colors, shapes, and patterns that reflect the thought process. The SVG should be 300x300 pixels, creative, and abstract. Respond ONLY with valid SVG code, starting with <svg and ending with </svg>.",
        );
        Some(s)
    } else {
        None
    }
}

/// The prompt of the open discipline: the step's description and the
/// caller's instructions in the step-by-step template.
pub fn step_prompt(chain: &ChainOfThought, step_id: usize, prompt: &str) -> (r: String)
    requires
        chain.wf(),
    ensures
        r@ == "Please think through this step-by-step:\n\nStep: "@
            + step_desc_or_unknown(chain, step_id as int) + "\nInstructions: "@ + prompt@
            + "\n\nFirst, break down the problem. Then analyze each part thoroughly. Finally, provide a conclusion."@,
{
    let mut s = String::from_str("Please think through this step-by-step:\n\nStep: ");
    if step_id < chain.steps.len() {
        s.append(chain.steps[step_id].desc.as_str());
    } else {
        s.append("Unknown");
    }
    s.append("\nInstructions: ");
    s.append(prompt);
    s.append(
        "\n\nFirst, break down the problem. Then analyze each part thoroughly. Finally, provide a conclusion.",
    );
    s
}

} // verus!
