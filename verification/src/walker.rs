//! The cancellable directory walker.
//!
//! The walk visits every entry under the request's root (the traversal
//! order is not part of the contract), skips the root itself, applies the
//! hidden-path filter, tests the candidate name under the request's mode,
//! and collects an entry for every accepted name. The walker consults its
//! cancellation token once per step; observing a set token ends the walk
//! at once, as a normal early exit, and clears the token.
//!
//! Entries the filesystem will not let the walk read are skipped silently:
//! per-entry errors are never fatal and never surfaced.

use vstd::prelude::*;
use vstd::string::StrSliceExecFns;
use crate::cancel::CancelSignal;
use crate::request::MatchMode;
use crate::request::SearchError;
use crate::request::SearchRequest;
use crate::request::candidate_matches;
use crate::request::regex_compiles;
use crate::text::chars_of;
use crate::text::ext_of;
use crate::text::hidden_path;
use crate::text::is_hidden_path;
use crate::text::name_extension;
use crate::text::split_point;
use crate::text::stem_of;

verus! {

/// One accepted filesystem entry, as published to the result sink.
pub struct DiscoveredEntry {
    pub is_folder: bool,
    pub name: String,
    pub path: String,
    pub extension: String,
}

/// The candidate string an entry is matched by: the full filename, or the
/// bare stem with the extension stripped.
pub open spec fn spec_candidate(match_against_extension: bool, name: Seq<char>) -> Seq<char> {
    if match_against_extension {
        name
    } else {
        stem_of(name)
    }
}

/// The walker publishes an entry exactly when all three filters pass: the
/// entry is not the search root itself, it is not on a hidden path (unless
/// hidden entries are included), and its candidate name matches.
pub open spec fn entry_accepted(req: SearchRequest, name: Seq<char>, path: Seq<char>) -> bool {
    &&& path != req.root@
    &&& req.include_hidden || !hidden_path(path)
    &&& candidate_matches(
        req.mode,
        req.pattern@,
        spec_candidate(req.match_against_extension, name),
    )
}

/// A published entry is sound for the request: its name and path passed
/// the filters and its extension is the one its name carries.
pub open spec fn entry_ok(req: SearchRequest, e: DiscoveredEntry) -> bool {
    &&& entry_accepted(req, e.name@, e.path@)
    &&& e.extension@ == ext_of(e.name@)
}

/// With hidden entries excluded, nothing on a hidden path is ever
/// accepted, whatever its name and however well it matches.
pub proof fn lemma_hidden_excluded(req: SearchRequest, name: Seq<char>, path: Seq<char>)
    requires
        !req.include_hidden,
        hidden_path(path),
    ensures
        !entry_accepted(req, name, path),
{
}

/// The search root itself is never accepted, even when its own name
/// matches the pattern.
pub proof fn lemma_root_excluded(req: SearchRequest, name: Seq<char>)
    ensures
        !entry_accepted(req, name, req.root@),
{
}

/// Decide one entry: `Some` with the publishable record exactly when the
/// request accepts the entry, `None` otherwise.
pub fn evaluate_entry(req: &SearchRequest, name: &str, path: &str, is_folder: bool) -> (r: Option<
    DiscoveredEntry,
>)
    requires
        req.wf(),
    ensures
        (r is Some) == entry_accepted(*req, name@, path@),
        r matches Some(e) ==> {
            &&& e.is_folder == is_folder
            &&& e.name@ == name@
            &&& e.path@ == path@
            &&& e.extension@ == ext_of(name@)
        },
{
    let pv = chars_of(path);
    let rv = chars_of(req.root.as_str());
    if eq_chars(&pv, &rv) {
        return None;
    }
    if !req.include_hidden && is_hidden_path(&pv) {
        return None;
    }
    let nv = chars_of(name);
    let n = nv.len();
    let sp = split_point(&nv);
    let stem_end: usize = match sp {
        Some(i) => i,
        None => n,
    };
    let candidate: &str = if req.match_against_extension {
        name
    } else {
        name.substring_char(0, stem_end)
    };
    proof {
        assert(name@.subrange(0, stem_end as int) =~= name@.take(stem_end as int));
        assert(name@.take(n as int) =~= name@);
        assert(candidate@ == spec_candidate(req.match_against_extension, name@));
    }
    if req.matches(candidate) {
        let extension: String = name_extension(name);
        Some(
            DiscoveredEntry {
                is_folder,
                name: name.to_owned(),
                path: path.to_owned(),
                extension,
            },
        )
    } else {
        None
    }
}

/// Element-wise equality of two character vectors.
fn eq_chars(a: &Vec<char>, b: &Vec<char>) -> (r: bool)
    ensures
        r == (a@ == b@),
{
    let n = a.len();
    if n != b.len() {
        return false;
    }
    let mut i: usize = 0;
    while i < n
        invariant
            i <= n,
            n == a@.len(),
            n == b@.len(),
            forall|k: int| 0 <= k < i ==> a@[k] == b@[k],
        decreases n - i,
    {
        if a[i] != b[i] {
            return false;
        }
        i += 1;
    }
    assert(a@ =~= b@);
    true
}

#[verifier::external_type_specification]
#[verifier::external_body]
pub struct ExWalkDirIntoIter(walkdir::IntoIter);

#[verifier::external_type_specification]
#[verifier::external_body]
pub struct ExWalkDirEntry(walkdir::DirEntry);

// walkdir::Error appears in the Iterator impl of walkdir::IntoIter, which
// Verus reads once IntoIter is declared, so the error type must be
// declared too even though no signature here carries it.
#[verifier::external_type_specification]
#[verifier::external_body]
pub struct ExWalkDirError(walkdir::Error);

/// Relies on walkdir::WalkDir::new, WalkDir::follow_links and
/// WalkDir::into_iter: starts a recursive walk of the directory tree
/// rooted at the given path, following symbolic links; the root itself is
/// yielded too.
#[verifier::external_body]
fn walk_begin(root: &str) -> (it: walkdir::IntoIter) {
    walkdir::WalkDir::new(root).follow_links(true).into_iter()
}

/// Relies on walkdir::IntoIter::next: the next visited entry. The outer
/// `None` means the walk is exhausted; the inner `None` stands for an
/// entry the walk could not read. What comes back depends on the
/// filesystem, so nothing is promised of the value.
#[verifier::external_body]
fn walk_next(it: &mut walkdir::IntoIter) -> (r: Option<Option<walkdir::DirEntry>>) {
    match it.next() {
        None => None,
        Some(Ok(e)) => Some(Some(e)),
        Some(Err(_)) => Some(None),
    }
}

/// Relies on walkdir::DirEntry::file_name and str conversion: the entry's
/// bare name, or `None` when it is not valid Unicode (such an entry is
/// treated as unreadable and skipped).
#[verifier::external_body]
fn entry_name(e: &walkdir::DirEntry) -> (r: Option<String>) {
    e.file_name().to_str().map(|s| s.to_owned())
}

/// Relies on walkdir::DirEntry::path and str conversion: the entry's full
/// path, or `None` when it is not valid Unicode.
#[verifier::external_body]
fn entry_path_string(e: &walkdir::DirEntry) -> (r: Option<String>) {
    e.path().to_str().map(|s| s.to_owned())
}

/// Relies on walkdir::DirEntry::file_type: whether the entry is a
/// directory.
#[verifier::external_body]
fn entry_is_dir(e: &walkdir::DirEntry) -> (r: bool) {
    e.file_type().is_dir()
}

/// Walk the tree under the request's root and collect every accepted
/// entry.
///
/// Every collected entry passed the filters; a stop requested before the
/// walk begins yields no entries at all; and the token always reads false
/// afterwards, whether or not it was set (observing is what clears it).
/// Which entries exist is the filesystem's business, so the contract pins
/// the published records, not the visited set.
pub fn search(req: &SearchRequest, signal: &mut CancelSignal) -> (out: Vec<DiscoveredEntry>)
    requires
        req.wf(),
    ensures
        forall|i: int| 0 <= i < out@.len() ==> entry_ok(*req, #[trigger] out@[i]),
        old(signal).is_requested() ==> out@.len() == 0,
        !final(signal).is_requested(),
{
    let mut out: Vec<DiscoveredEntry> = Vec::new();
    let mut it = walk_begin(req.root.as_str());
    // the walk's length is the filesystem's business; the step budget only
    // bounds the loop for the termination argument
    let mut steps: usize = usize::MAX;
    while steps > 0
        invariant_except_break
            req.wf(),
            forall|i: int| 0 <= i < out@.len() ==> entry_ok(*req, #[trigger] out@[i]),
            old(signal).is_requested() ==> (signal.is_requested() && out@.len() == 0),
            steps == usize::MAX || !old(signal).is_requested(),
            steps == usize::MAX || !signal.is_requested(),
        ensures
            forall|i: int| 0 <= i < out@.len() ==> entry_ok(*req, #[trigger] out@[i]),
            old(signal).is_requested() ==> out@.len() == 0,
            !signal.is_requested(),
        decreases steps,
    {
        steps = steps - 1;
        if signal.observe_and_clear() {
            break;
        }
        match walk_next(&mut it) {
            None => {
                break;
            },
            Some(found) => {
                match found {
                    None => {},  // unreadable entry: skipped, never fatal
                    Some(e) => {
                        let name_opt = entry_name(&e);
                        let path_opt = entry_path_string(&e);
                        let is_folder = entry_is_dir(&e);
                        if let Some(name) = name_opt {
                            if let Some(path) = path_opt {
                                let ghost out0 = out@;
                                match evaluate_entry(req, name.as_str(), path.as_str(), is_folder) {
                                    Some(d) => {
                                        out.push(d);
                                        proof {
                                            assert forall|i: int|
                                                0 <= i < out@.len() implies entry_ok(
                                                *req,
                                                #[trigger] out@[i],
                                            ) by {
                                                if i < out@.len() - 1 {
                                                    assert(out@[i] == out0[i]);
                                                }
                                            }
                                        }
                                    },
                                    None => {},
                                }
                            }
                        }
                    },
                }
            },
        }
    }
    out
}

/// Start-to-finish search: validate the request, then walk.
///
/// The one request-level error is a regex-mode pattern that does not
/// compile; it is reported before any traversal, and the token is left
/// untouched. On success every collected entry is one the request
/// accepts.
pub fn run_search(
    root: String,
    pattern: String,
    mode: MatchMode,
    include_hidden: bool,
    match_against_extension: bool,
    signal: &mut CancelSignal,
) -> (r: Result<Vec<DiscoveredEntry>, SearchError>)
    ensures
        (r is Ok) <==> (mode is Regex ==> regex_compiles(pattern@)),
        r matches Ok(out) ==> {
            &&& forall|i: int|
                0 <= i < out@.len() ==> entry_ok(
                    (SearchRequest {
                        root,
                        pattern,
                        mode,
                        include_hidden,
                        match_against_extension,
                    }),
                    #[trigger] out@[i],
                )
            &&& (old(signal).is_requested() ==> out@.len() == 0)
            &&& !final(signal).is_requested()
        },
        r is Err ==> *final(signal) == *old(signal),
{
    match SearchRequest::new(root, pattern, mode, include_hidden, match_against_extension) {
        Ok(req) => {
            let out = search(&req, signal);
            Ok(out)
        },
        Err(e) => Err(e),
    }
}

} // verus!
