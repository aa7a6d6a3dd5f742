//! A search request: the pattern, its matching mode, and the filter flags,
//! fixed for the lifetime of one traversal.
//!
//! An uncompilable regex pattern is rejected when the request is built,
//! once, before any traversal begins; it is never a per-entry error.

use vstd::prelude::*;
use crate::matcher::mask_matches;
use crate::matcher::match_mask;
use crate::text::chars_of;
use crate::text::contains_seq;
use crate::text::contains_chars;

verus! {

/// How a candidate name is tested against the pattern.
#[derive(Clone, Copy, Debug, PartialEq, Eq, Structural)]
pub enum MatchMode {
    /// Case-sensitive containment, no normalization.
    Substring,
    /// The `*`/`?` mask language of [`mask_matches`].
    Mask,
    /// A regular expression, matched anywhere in the candidate unless the
    /// pattern itself anchors.
    Regex,
}

/// Why a request could not be built.
#[derive(Clone, Copy, Debug, PartialEq, Eq, Structural)]
pub enum SearchError {
    /// The pattern does not compile as a regular expression.
    InvalidPattern,
}

/// Whether the regex engine accepts this pattern.
pub uninterp spec fn regex_compiles(pattern: Seq<char>) -> bool;

/// Whether the compiled pattern matches anywhere in the text.
pub uninterp spec fn regex_accepts(pattern: Seq<char>, text: Seq<char>) -> bool;

/// Relies on regex::Regex::new: whether a pattern compiles is a function of
/// the pattern string alone.
#[verifier::external_body]
fn regex_pattern_ok(pattern: &str) -> (r: bool)
    ensures
        r == regex_compiles(pattern@),
{
    regex::Regex::new(pattern).is_ok()
}

/// Relies on regex::Regex::new and regex::Regex::is_match: whether the
/// compiled pattern matches anywhere in the text is a function of the two
/// strings alone. The pattern is one that compiles, so the error arm is
/// never taken.
#[verifier::external_body]
fn regex_find(pattern: &str, text: &str) -> (r: bool)
    requires
        regex_compiles(pattern@),
    ensures
        r == regex_accepts(pattern@, text@),
{
    match regex::Regex::new(pattern) {
        Ok(re) => re.is_match(text),
        Err(_) => false,
    }
}

/// What one search looks for, immutable for the traversal's lifetime.
pub struct SearchRequest {
    /// The directory the walk starts from.
    pub root: String,
    /// The pattern, read under `mode`.
    pub pattern: String,
    /// How candidates are tested.
    pub mode: MatchMode,
    /// Whether entries on hidden paths are considered at all.
    pub include_hidden: bool,
    /// Whether candidates keep their extension, or are matched by bare stem.
    pub match_against_extension: bool,
}

/// The pattern accepts this candidate under this mode.
pub open spec fn candidate_matches(mode: MatchMode, pattern: Seq<char>, text: Seq<char>) -> bool {
    match mode {
        MatchMode::Substring => contains_seq(text, pattern),
        MatchMode::Mask => mask_matches(text, pattern),
        MatchMode::Regex => regex_accepts(pattern, text),
    }
}

impl SearchRequest {
    /// The request's pattern is usable: in regex mode it compiles.
    pub open spec fn wf(&self) -> bool {
        self.mode is Regex ==> regex_compiles(self.pattern@)
    }

    /// Build and validate a request. The one way to fail is a regex-mode
    /// pattern that does not compile; that aborts the whole search here,
    /// rather than silently matching nothing per entry.
    pub fn new(
        root: String,
        pattern: String,
        mode: MatchMode,
        include_hidden: bool,
        match_against_extension: bool,
    ) -> (r: Result<SearchRequest, SearchError>)
        ensures
            (r is Ok) <==> (mode is Regex ==> regex_compiles(pattern@)),
            r matches Ok(req) ==> {
                &&& req.wf()
                &&& req.root@ == root@
                &&& req.pattern@ == pattern@
                &&& req.mode == mode
                &&& req.include_hidden == include_hidden
                &&& req.match_against_extension == match_against_extension
            },
            r matches Err(e) ==> e is InvalidPattern,
    {
        if mode == MatchMode::Regex {
            if !regex_pattern_ok(pattern.as_str()) {
                return Err(SearchError::InvalidPattern);
            }
        }
        Ok(
            SearchRequest {
                root,
                pattern,
                mode,
                include_hidden,
                match_against_extension,
            },
        )
    }

    /// Test one candidate name against the request's pattern.
    pub fn matches(&self, text: &str) -> (r: bool)
        requires
            self.wf(),
        ensures
            r == candidate_matches(self.mode, self.pattern@, text@),
    {
        match self.mode {
            MatchMode::Substring => {
                let tv = chars_of(text);
                let pv = chars_of(self.pattern.as_str());
                contains_chars(&tv, &pv)
            },
            MatchMode::Mask => match_mask(text, self.pattern.as_str()),
            MatchMode::Regex => regex_find(self.pattern.as_str(), text),
        }
    }
}

} // verus!
