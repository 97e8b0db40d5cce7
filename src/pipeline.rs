//! The course of one search request, as a state machine.
//!
//! The caller performs the outside work that each action asks for (parsing
//! the query, embedding its target, searching the index, measuring
//! similarities) and hands the outcome back as the next event. The machine
//! decides everything else: when the request fails and with which error, how
//! many candidates to ask for, how candidates are decoded and which snippets
//! make up the answer.
use vstd::prelude::*;

use crate::dedupe::{dedupe, is_greedy_selection, is_square, keys_of, picked};
use crate::snippet::{decode_all, decoded, first_decode_error, DecodeError, RawCandidate, Snippet};

verus! {

/// How many candidates are asked of the index for each snippet returned.
pub const DEFAULT_OVERFETCH: u64 = 4;

/// The category of a failed request.
#[derive(Clone, Copy, PartialEq, Eq, Structural, Debug)]
pub enum ErrorKind {
    /// The deployment has no vector index.
    Configuration,
    /// The query cannot be served as written.
    User,
    /// A collaborator failed or the index holds malformed data.
    Internal,
}

/// Why a request failed.
#[derive(Clone, Copy, PartialEq, Eq, Structural, Debug)]
pub enum SearchError {
    /// No vector index is configured.
    NotConfigured,
    /// The query could not be parsed.
    InvalidQuery,
    /// The query has no text to search for.
    EmptySearch,
    /// The query's target could not be embedded.
    EmbeddingFailed,
    /// The index could not be searched.
    IndexFailed,
    /// A candidate returned by the index could not be decoded.
    Decode(DecodeError),
    /// The similarities handed back do not match the candidates.
    SimilarityMismatch,
    /// An event arrived that the current stage does not expect.
    UnexpectedEvent,
}

/// The category of each error.
pub open spec fn kind_of(e: SearchError) -> ErrorKind {
    match e {
        SearchError::NotConfigured => ErrorKind::Configuration,
        SearchError::InvalidQuery | SearchError::EmptySearch => ErrorKind::User,
        _ => ErrorKind::Internal,
    }
}

impl SearchError {
    /// The category of this error.
    pub fn kind(&self) -> (r: ErrorKind)
        ensures
            r == kind_of(*self),
    {
        match self {
            SearchError::NotConfigured => ErrorKind::Configuration,
            SearchError::InvalidQuery | SearchError::EmptySearch => ErrorKind::User,
            _ => ErrorKind::Internal,
        }
    }
}

/// Where a request stands.
#[derive(Clone, Copy, PartialEq, Eq, Structural, Debug)]
pub enum Stage {
    /// Waiting to learn whether an index is configured.
    Start,
    /// Waiting for the parsed query.
    Resolving,
    /// Waiting for the embedding of the query's target.
    Searching,
    /// Waiting for the index's candidates.
    Decoding,
    /// Waiting for the similarities of the decoded snippets.
    Deduplicating,
    /// The answer has been given.
    Done,
    /// The request has failed.
    Failed,
}

/// The outcome of the outside work that the last action asked for.
pub enum Event {
    /// Whether a vector index is configured.
    Configured(bool),
    /// The query could not be parsed.
    ParseFailed,
    /// The parsed query, with its target text if it has one.
    Parsed(Option<String>),
    /// Whether the target was embedded.
    Embedded(bool),
    /// The candidates found by the index, or `None` when the search failed.
    Fetched(Option<Vec<RawCandidate>>),
    /// For each decoded snippet, the bit pattern of its similarity to the
    /// query's embedding, and for each pair of snippets whether they are
    /// near-duplicates.
    Measured { similarity_bits: Vec<u32>, close: Vec<Vec<bool>> },
}

/// What the caller is to do next.
pub enum Action {
    /// Parse the query.
    Parse,
    /// Embed this target text.
    Embed(String),
    /// Search the index for this many candidates near the embedding.
    Search(u64),
    /// Measure the similarities of the decoded snippets.
    Measure,
    /// Answer with these snippets.
    Respond(Vec<Snippet>),
    /// Fail the request with this error.
    Fail(SearchError),
}

/// The state of one request.
pub struct Pipeline {
    pub stage: Stage,
    pub limit: u64,
    pub overfetch: u64,
    pub snippets: Vec<Snippet>,
}

/// The number of candidates asked of the index: `overfetch` times the limit,
/// capped at the largest `u64`.
pub open spec fn fetch_count(limit: u64, overfetch: u64) -> u64 {
    if limit * overfetch > u64::MAX {
        u64::MAX
    } else {
        (limit * overfetch) as u64
    }
}

/// The limit as a `usize`, capped at the largest one.
pub open spec fn output_limit(limit: u64) -> usize {
    if limit > usize::MAX {
        usize::MAX
    } else {
        limit as usize
    }
}

/// `r` is the deduplicated selection of `cands` at most `limit` long.
pub open spec fn is_deduplication(
    r: Seq<Snippet>,
    cands: Seq<Snippet>,
    similarity_bits: Seq<u32>,
    close: Seq<Vec<bool>>,
    limit: usize,
) -> bool {
    exists|picks: Seq<usize>|
        is_greedy_selection(keys_of(similarity_bits), close, limit as int, picks)
            && r.map_values(|s: Snippet| s@) == picked(cands, picks)
}

/// The similarities handed back fit the snippets: one per snippet, and a
/// square matrix of flags.
pub open spec fn measures_fit(n: int, similarity_bits: Seq<u32>, close: Seq<Vec<bool>>) -> bool {
    similarity_bits.len() == n && is_square(close, n)
}

impl Pipeline {
    /// A request for at most `limit` snippets, asking the index for
    /// `overfetch` times as many candidates.
    pub fn new(limit: u64, overfetch: u64) -> (r: Pipeline)
        ensures
            r.stage == Stage::Start,
            r.limit == limit,
            r.overfetch == overfetch,
            r.snippets@.len() == 0,
    {
        Pipeline { stage: Stage::Start, limit, overfetch, snippets: Vec::new() }
    }

    /// Takes the outcome of the last action and says what to do next.
    pub fn step(&mut self, event: Event) -> (action: Action)
        ensures
            final(self).limit == old(self).limit,
            final(self).overfetch == old(self).overfetch,
            match (old(self).stage, event) {
                (Stage::Start, Event::Configured(true)) => final(self).stage == Stage::Resolving
                    && action == Action::Parse,
                (Stage::Start, Event::Configured(false)) => final(self).stage == Stage::Failed
                    && action == Action::Fail(SearchError::NotConfigured),
                (Stage::Resolving, Event::ParseFailed) => final(self).stage == Stage::Failed
                    && action == Action::Fail(SearchError::InvalidQuery),
                (Stage::Resolving, Event::Parsed(target)) => match target {
                    Some(t) if t@.len() > 0 => final(self).stage == Stage::Searching
                        && action == Action::Embed(t),
                    _ => final(self).stage == Stage::Failed
                        && action == Action::Fail(SearchError::EmptySearch),
                },
                (Stage::Searching, Event::Embedded(true)) => final(self).stage == Stage::Decoding
                    && action == Action::Search(fetch_count(old(self).limit, old(self).overfetch)),
                (Stage::Searching, Event::Embedded(false)) => final(self).stage == Stage::Failed
                    && action == Action::Fail(SearchError::EmbeddingFailed),
                (Stage::Decoding, Event::Fetched(None)) => final(self).stage == Stage::Failed
                    && action == Action::Fail(SearchError::IndexFailed),
                (Stage::Decoding, Event::Fetched(Some(cs))) => match first_decode_error(cs@) {
                    Some(e) => final(self).stage == Stage::Failed
                        && action == Action::Fail(SearchError::Decode(e)),
                    None => {
                        &&& final(self).stage == Stage::Deduplicating
                        &&& action is Measure
                        &&& final(self).snippets@.len() == cs@.len()
                        &&& forall|i: int|
                            0 <= i < cs@.len() ==> #[trigger] final(self).snippets@[i]@ == decoded(cs@[i])
                    },
                },
                (Stage::Deduplicating, Event::Measured { similarity_bits, close }) =>
                    if measures_fit(old(self).snippets@.len() as int, similarity_bits@, close@) {
                        &&& final(self).stage == Stage::Done
                        &&& action is Respond
                        &&& is_deduplication(
                            action->Respond_0@,
                            old(self).snippets@,
                            similarity_bits@,
                            close@,
                            output_limit(old(self).limit),
                        )
                    } else {
                        final(self).stage == Stage::Failed
                            && action == Action::Fail(SearchError::SimilarityMismatch)
                    },
                _ => final(self).stage == Stage::Failed
                    && action == Action::Fail(SearchError::UnexpectedEvent),
            },
    {
        let stage = self.stage;
        match (stage, event) {
            (Stage::Start, Event::Configured(configured)) => {
                if configured {
                    self.stage = Stage::Resolving;
                    Action::Parse
                } else {
                    self.stage = Stage::Failed;
                    Action::Fail(SearchError::NotConfigured)
                }
            },
            (Stage::Resolving, Event::ParseFailed) => {
                self.stage = Stage::Failed;
                Action::Fail(SearchError::InvalidQuery)
            },
            (Stage::Resolving, Event::Parsed(target)) => match target {
                Some(t) if t.as_str().is_empty() == false => {
                    self.stage = Stage::Searching;
                    Action::Embed(t)
                },
                _ => {
                    self.stage = Stage::Failed;
                    Action::Fail(SearchError::EmptySearch)
                },
            },
            (Stage::Searching, Event::Embedded(embedded)) => {
                if embedded {
                    self.stage = Stage::Decoding;
                    let count = match self.limit.checked_mul(self.overfetch) {
                        Some(c) => c,
                        None => u64::MAX,
                    };
                    Action::Search(count)
                } else {
                    self.stage = Stage::Failed;
                    Action::Fail(SearchError::EmbeddingFailed)
                }
            },
            (Stage::Decoding, Event::Fetched(fetched)) => match fetched {
                None => {
                    self.stage = Stage::Failed;
                    Action::Fail(SearchError::IndexFailed)
                },
                Some(cs) => match decode_all(cs) {
                    Err(e) => {
                        self.stage = Stage::Failed;
                        Action::Fail(SearchError::Decode(e))
                    },
                    Ok(v) => {
                        self.snippets = v;
                        self.stage = Stage::Deduplicating;
                        Action::Measure
                    },
                },
            },
            (Stage::Deduplicating, Event::Measured { similarity_bits, close }) => {
                let n = self.snippets.len();
                let mut fits = similarity_bits.len() == n && close.len() == n;
                let mut i: usize = 0;
                while fits && i < close.len()
                    invariant
                        n == self.snippets@.len(),
                        fits ==> similarity_bits@.len() == n,
                        fits ==> close@.len() == n,
                        fits ==> forall|k: int| 0 <= k < i ==> (#[trigger] close@[k])@.len() == n,
                        !fits ==> !is_square(close@, n as int) || similarity_bits@.len() != n,
                    decreases close@.len() - i + (if fits { 1int } else { 0int }),
                {
                    if close[i].len() != n {
                        fits = false;
                    } else {
                        i = i + 1;
                    }
                }
                if !fits {
                    self.stage = Stage::Failed;
                    return Action::Fail(SearchError::SimilarityMismatch);
                }
                let limit: usize = if self.limit > usize::MAX as u64 {
                    usize::MAX
                } else {
                    self.limit as usize
                };
                let mut cands: Vec<Snippet> = Vec::new();
                std::mem::swap(&mut cands, &mut self.snippets);
                let chosen = dedupe(cands, &similarity_bits, &close, limit);
                self.stage = Stage::Done;
                Action::Respond(chosen)
            },
            _ => {
                self.stage = Stage::Failed;
                Action::Fail(SearchError::UnexpectedEvent)
            },
        }
    }
}

} // verus!
