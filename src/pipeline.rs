use vstd::prelude::*;
use crate::classify::{classify_all, valueize_all, LispVal, ValueView};
use crate::group::{generate_stacks, group_fold, groups_view, head_view};
use crate::lexer::{is_lexing, tokenize, TokenView};

verus! {

/// Why the pipeline produced nothing.
#[derive(Clone, Copy, Debug, PartialEq, Eq)]
pub enum SourceError {
    /// The source text could not be read.
    SourceUnavailable,
}

/// `head` and `groups` are what grouping the classified lexing of `s` yields.
/// A text has one lexing only (`lemma_lexing_unique`), so this fixes both.
pub open spec fn parses_to(
    s: Seq<char>,
    head: Option<ValueView>,
    groups: Seq<Seq<ValueView>>,
) -> bool {
    exists|ts: Seq<TokenView>|
        #[trigger] is_lexing(ts, s) && group_fold(classify_all(ts)).head == head && group_fold(
            classify_all(ts),
        ).groups == groups
}

/// Lexes, classifies and groups `s`.
pub fn parse_text(s: String) -> (r: (Option<LispVal>, Vec<Vec<LispVal>>))
    ensures
        parses_to(s@, head_view(r.0), groups_view(r.1@)),
{
    let tokens = tokenize(s);
    let values = valueize_all(tokens);
    let r = generate_stacks(values);
    r
}

/// The pipeline's entry point: an absent source is reported as
/// [`SourceError::SourceUnavailable`] and nothing is lexed; a present one is
/// lexed, classified and grouped.
pub fn parse_source(source: Option<String>) -> (r: Result<
    (Option<LispVal>, Vec<Vec<LispVal>>),
    SourceError,
>)
    ensures
        source is None <==> r is Err,
        r is Err ==> r->Err_0 == SourceError::SourceUnavailable,
        source is Some ==> parses_to(
            source->Some_0@,
            head_view((r->Ok_0).0),
            groups_view((r->Ok_0).1@),
        ),
{
    match source {
        Some(s) => Ok(parse_text(s)),
        None => Err(SourceError::SourceUnavailable),
    }
}

/// An owned copy of `s`.
pub fn str(s: &str) -> (r: String)
    ensures
        r@ == s@,
{
    s.to_owned()
}

} // verus!
