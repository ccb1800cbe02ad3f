//! What goes to the grammar engine and what comes back from it.
//!
//! The engine itself is called by the user of this library: the text of a
//! statement is made here, and the engine's answer is taken here as plain
//! values.

use vstd::prelude::*;
use std::ops::Range;
use crate::parser::Parser;
use crate::token::text_of;

verus! {

/// The tag that the engine gives to a node that is the root of a statement.
/// The engine defines this number.
pub const TOP_LEVEL: i32 = 1;

/// The engine's answer to the text of one statement.
#[derive(Debug, PartialEq, Eq)]
pub enum EngineOutcome {
    /// The engine parsed the text. `tags` holds the tag of each node of the
    /// tree it made, in the engine's order.
    Parsed { tags: Vec<i32> },
    /// The engine rejected the text, with this message.
    Rejected { message: String },
}

/// Index of the first tag from `from` on that is `TOP_LEVEL`; the number of
/// tags if there is none.
pub open spec fn first_top_level(tags: Seq<i32>, from: int) -> int
    decreases tags.len() - from,
{
    if from < 0 || from >= tags.len() || tags[from] == TOP_LEVEL {
        from
    } else {
        first_top_level(tags, from + 1)
    }
}

/// Index of the node that is the root of the statement: the first one
/// tagged `TOP_LEVEL`.
pub open spec fn root_of(tags: Seq<i32>) -> Option<usize> {
    if first_top_level(tags, 0) < tags.len() {
        Some(first_top_level(tags, 0) as usize)
    } else {
        None
    }
}

/// What is recorded for a statement that the engine parsed into a tree
/// without a root.
pub open spec fn missing_root_message() -> Seq<char> {
    "the grammar engine returned no top-level node"@
}

/// What the engine's answer comes to: the index of the root node, or the
/// message to record.
pub open spec fn judged(outcome: EngineOutcome) -> Result<usize, Seq<char>> {
    match outcome {
        EngineOutcome::Parsed { tags } => match root_of(tags@) {
            Some(root) => Ok(root),
            None => Err(missing_root_message()),
        },
        EngineOutcome::Rejected { message } => Err(message@),
    }
}

/// Selects the root of the statement among the engine's nodes.
pub fn select_root(tags: &Vec<i32>) -> (root: Option<usize>)
    ensures
        root == root_of(tags@),
        root matches Some(i) ==> i < tags.len() && tags[i as int] == TOP_LEVEL,
        forall|i: int|
            0 <= i < tags.len() && tags[i] == TOP_LEVEL ==> root is Some && root->0 <= i,
{
    let mut i: usize = 0;
    while i < tags.len()
        invariant
            0 <= i <= tags.len(),
            first_top_level(tags@, i as int) == first_top_level(tags@, 0),
            forall|k: int| 0 <= k < i ==> tags[k] != TOP_LEVEL,
        decreases tags.len() - i,
    {
        if tags[i] == TOP_LEVEL {
            return Some(i);
        }
        i = i + 1;
    }
    None
}

/// Turns the engine's answer into the index of the root node or the message
/// to record.
pub fn judge(outcome: EngineOutcome) -> (verdict: Result<usize, String>)
    ensures
        verdict is Ok <==> judged(outcome) is Ok,
        verdict matches Ok(root) ==> judged(outcome) == Ok::<usize, Seq<char>>(root),
        verdict matches Err(message) ==> judged(outcome) == Err::<usize, Seq<char>>(message@),
{
    match outcome {
        EngineOutcome::Parsed { tags } => match select_root(&tags) {
            Some(root) => Ok(root),
            None => Err("the grammar engine returned no top-level node".to_owned()),
        },
        EngineOutcome::Rejected { message } => Err(message),
    }
}

/// The text of the tokens in `range`, trivia included: what the engine is
/// given. Indices past the last token stand for no token.
pub fn statement_text(parser: &Parser, range: &Range<usize>) -> (text: String)
    ensures
        text@ == text_of(
            parser@.tokens,
            range.start as int,
            if range.end <= parser@.tokens.len() {
                range.end as int
            } else {
                parser@.tokens.len() as int
            },
        ),
{
    let tokens = parser.tokens();
    let end = if range.end <= tokens.len() {
        range.end
    } else {
        tokens.len()
    };
    let mut text = String::new();
    let mut i: usize = range.start;
    while i < end
        invariant
            end <= tokens.len(),
            range.start <= i,
            range.start <= end ==> i <= end,
            range.start > end ==> i == range.start,
            text@ == text_of(tokens@, range.start as int, i as int),
        decreases end - i,
    {
        text.append(tokens[i].text.as_str());
        i = i + 1;
    }
    text
}

} // verus!
