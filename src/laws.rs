//! What holds of every request, stated over the decisions of `serve`.

use vstd::prelude::*;

use crate::path::{within, PathView};
use crate::serve::{
    bare, call_spec, existence_spec, served, target, ActionView, ResponseView, ServeDirView, Status,
};

verus! {

/// A request whose target lies within the served directory, at a path
/// where a regular file stands, is answered with success and exactly the
/// file's bytes.
pub proof fn lemma_existing_file_is_served(
    s: ServeDirView,
    url_path: Seq<char>,
    files: Map<PathView, Seq<u8>>,
)
    requires
        within(target(s, url_path), s.dir),
        files.contains_key(target(s, url_path)),
    ensures
        served(s, url_path, files) == (ResponseView {
            status: Status::Success,
            body: Some(files[target(s, url_path)]),
        }),
{
}

/// A request whose target lies outside the served directory is forbidden
/// by the first decision, before any filesystem query, whatever the
/// directory holds.
pub proof fn lemma_escape_is_forbidden(s: ServeDirView, url_path: Seq<char>, files: Map<PathView, Seq<u8>>)
    requires
        !within(target(s, url_path), s.dir),
    ensures
        call_spec(s, url_path) == ActionView::Respond(bare(Status::Forbidden)),
        served(s, url_path, files) == bare(Status::Forbidden),
{
}

/// A request whose target lies within the served directory, at a path
/// where no regular file stands, is not found.
pub proof fn lemma_missing_file_is_not_found(
    s: ServeDirView,
    url_path: Seq<char>,
    files: Map<PathView, Seq<u8>>,
)
    requires
        within(target(s, url_path), s.dir),
        !files.contains_key(target(s, url_path)),
    ensures
        served(s, url_path, files) == bare(Status::NotFound),
{
}

/// The response depends on the request and on what stands at its target
/// alone: two directories that agree there answer the same request alike,
/// so a request repeated against an unchanged directory gets the same
/// response.
pub proof fn lemma_response_depends_on_target_alone(
    s: ServeDirView,
    url_path: Seq<char>,
    files1: Map<PathView, Seq<u8>>,
    files2: Map<PathView, Seq<u8>>,
)
    requires
        files1.contains_key(target(s, url_path)) == files2.contains_key(target(s, url_path)),
        files1.contains_key(target(s, url_path)) ==> files1[target(s, url_path)]
            == files2[target(s, url_path)],
    ensures
        served(s, url_path, files1) == served(s, url_path, files2),
{
}

/// No path outside the served directory is ever checked for existence or
/// read: every filesystem query that the decisions ask for is within it.
pub proof fn lemma_queries_stay_within(s: ServeDirView, url_path: Seq<char>, exists: bool)
    ensures
        call_spec(s, url_path) matches ActionView::CheckExists(p) ==> within(p, s.dir),
        call_spec(s, url_path) !is ReadFile,
        call_spec(s, url_path) matches ActionView::CheckExists(p) ==> (existence_spec(p, exists) matches ActionView::ReadFile(q) ==> within(q, s.dir)),
{
}

} // verus!
