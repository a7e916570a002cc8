//! The language model that writes summaries.

use crate::text::same_text;
use vstd::prelude::*;
use vstd::string::StringExecFns;

verus! {

/// The middle model. A model goes by the name of its series, a hyphen, and this.
pub const MODEL_SONNET: &'static str = "sonnet-4-6";

/// The small model.
pub const MODEL_HAIKU: &'static str = "haiku-4-5-20251001";

/// The large model.
pub const MODEL_OPUS: &'static str = "opus-4-7";

/// The whole name of a model of a series.
pub open spec fn whole_name(series: Seq<char>, model: Seq<char>) -> Seq<char> {
    series + "-"@ + model
}

/// The whole name of a model of a series.
pub fn model_name(series: &str, model: &str) -> (r: String)
    ensures
        r@ == whole_name(series@, model@),
{
    let mut out: String = series.to_owned();
    out.append("-");
    out.append(model);
    out
}

/// What a million tokens cost in whole dollars: those that are read and those that
/// are written. A model that is not one of the series counts as the middle one.
pub open spec fn price_of(series: Seq<char>, model: Seq<char>) -> (u32, u32) {
    if model == whole_name(series, MODEL_HAIKU@) {
        (1, 5)
    } else if model == whole_name(series, MODEL_SONNET@) {
        (3, 15)
    } else if model == whole_name(series, MODEL_OPUS@) {
        (15, 75)
    } else {
        (3, 15)
    }
}

/// What a million tokens cost in whole dollars.
pub fn price_per_million(series: &str, model: &str) -> (r: (u32, u32))
    ensures
        r == price_of(series@, model@),
{
    if same_text(model, model_name(series, MODEL_HAIKU).as_str()) {
        (1, 5)
    } else if same_text(model, model_name(series, MODEL_SONNET).as_str()) {
        (3, 15)
    } else if same_text(model, model_name(series, MODEL_OPUS).as_str()) {
        (15, 75)
    } else {
        (3, 15)
    }
}

/// What a question costs in millionths of a dollar.
pub fn cost_in_millionths(series: &str, model: &str, input_tokens: u64, output_tokens: u64) -> (r:
    u128)
    ensures
        r == input_tokens * price_of(series@, model@).0 + output_tokens * price_of(
            series@,
            model@,
        ).1,
{
    let (input_price, output_price) = price_per_million(series, model);
    assert(0 <= input_tokens * input_price <= u64::MAX * 75) by (nonlinear_arith)
        requires
            0 <= input_tokens <= u64::MAX,
            0 <= input_price <= 75,
    ;
    assert(0 <= output_tokens * output_price <= u64::MAX * 75) by (nonlinear_arith)
        requires
            0 <= output_tokens <= u64::MAX,
            0 <= output_price <= 75,
    ;
    input_tokens as u128 * input_price as u128 + output_tokens as u128 * output_price as u128
}

/// A part of an answer.
#[derive(Debug)]
pub struct ContentBlock {
    /// What kind of part this is; texts are of the kind `text`.
    pub block_type: String,
    pub text: Option<String>,
}

/// The texts of the first `n` parts of an answer, one after the other.
pub open spec fn answer_text(blocks: Seq<ContentBlock>, n: int) -> Seq<char>
    decreases n,
{
    if n <= 0 {
        Seq::empty()
    } else {
        let before = answer_text(blocks, n - 1);
        match blocks[n - 1].text {
            Some(t) => if blocks[n - 1].block_type@ == "text"@ {
                before + t@
            } else {
                before
            },
            None => before,
        }
    }
}

/// Puts the text of an answer together; none where there is no text.
pub fn join_text_blocks(blocks: &Vec<ContentBlock>) -> (r: Option<String>)
    ensures
        match r {
            Some(s) => s@ == answer_text(blocks@, blocks@.len() as int) && s@.len() > 0,
            None => answer_text(blocks@, blocks@.len() as int).len() == 0,
        },
{
    let mut out = String::new();
    let mut i: usize = 0;
    assert(out@ =~= Seq::empty());
    while i < blocks.len()
        invariant
            i <= blocks@.len(),
            out@ == answer_text(blocks@, i as int),
        decreases blocks@.len() - i,
    {
        if let Some(t) = &blocks[i].text {
            if same_text(blocks[i].block_type.as_str(), "text") {
                out.append(t.as_str());
            }
        }
        i = i + 1;
    }
    if out.as_str().is_empty() {
        None
    } else {
        Some(out)
    }
}

/// What the model answered, and how many tokens it took.
#[derive(Debug)]
pub struct CompletionResult {
    pub text: String,
    pub input_tokens: u64,
    pub output_tokens: u64,
}

/// Takes the answer of the model in; none where it has no text.
pub fn completion(blocks: &Vec<ContentBlock>, input_tokens: u64, output_tokens: u64) -> (r: Option<
    CompletionResult,
>)
    ensures
        match r {
            Some(c) => {
                &&& c.text@ == answer_text(blocks@, blocks@.len() as int)
                &&& c.text@.len() > 0
                &&& c.input_tokens == input_tokens
                &&& c.output_tokens == output_tokens
            },
            None => answer_text(blocks@, blocks@.len() as int).len() == 0,
        },
{
    match join_text_blocks(blocks) {
        Some(text) => Some(CompletionResult { text, input_tokens, output_tokens }),
        None => None,
    }
}

} // verus!
