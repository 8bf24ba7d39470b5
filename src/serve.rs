//! The directory server: from a request's URL path to a response, in three
//! decisions around the two filesystem queries that the caller performs.

use vstd::prelude::*;

use crate::path::{lexical_fold, split_slash, strip_repeated, trim_start_position, well_formed, within, FilePath,
    PathView};

verus! {

/// The statuses that a directory server answers with.
#[derive(Clone, Copy, Debug, PartialEq, Eq, Structural)]
pub enum Status {
    Success,
    Forbidden,
    NotFound,
}

pub open spec fn status_code(s: Status) -> u16 {
    match s {
        Status::Success => 200,
        Status::Forbidden => 403,
        Status::NotFound => 404,
    }
}

impl Status {
    /// The HTTP status code.
    pub fn code(&self) -> (r: u16)
        ensures
            r == status_code(*self),
    {
        match self {
            Status::Success => 200,
            Status::Forbidden => 403,
            Status::NotFound => 404,
        }
    }
}

/// A response: a status and, on success, the bytes of the file served.
#[derive(Clone, Debug, PartialEq, Eq)]
pub struct Response {
    pub status: Status,
    pub body: Option<Vec<u8>>,
}

pub ghost struct ResponseView {
    pub status: Status,
    pub body: Option<Seq<u8>>,
}

impl View for Response {
    type V = ResponseView;

    open spec fn view(&self) -> ResponseView {
        ResponseView {
            status: self.status,
            body: match self.body {
                Some(b) => Some(b@),
                None => None,
            },
        }
    }
}

/// What the caller is to do next on behalf of a request.
#[derive(Clone, Debug, PartialEq, Eq)]
pub enum Action {
    /// The request is answered.
    Respond(Response),
    /// Find out whether a regular file stands at this path.
    CheckExists(FilePath),
    /// Read the whole file at this path.
    ReadFile(FilePath),
}

pub ghost enum ActionView {
    Respond(ResponseView),
    CheckExists(PathView),
    ReadFile(PathView),
}

impl View for Action {
    type V = ActionView;

    open spec fn view(&self) -> ActionView {
        match self {
            Action::Respond(r) => ActionView::Respond(r@),
            Action::CheckExists(p) => ActionView::CheckExists(p@),
            Action::ReadFile(p) => ActionView::ReadFile(p@),
        }
    }
}

/// A response with no body.
pub open spec fn bare(status: Status) -> ResponseView {
    ResponseView { status, body: None }
}

/// Serves the files under one directory to requests under a URL prefix.
pub struct ServeDir {
    prefix: String,
    dir: FilePath,
}

pub ghost struct ServeDirView {
    pub prefix: Seq<char>,
    pub dir: PathView,
}

impl View for ServeDir {
    type V = ServeDirView;

    closed spec fn view(&self) -> ServeDirView {
        ServeDirView { prefix: self.prefix@, dir: self.dir@ }
    }
}

/// The request path relative to the served directory: the URL path with
/// the prefix trimmed from its front as often as it occurs there, then all
/// leading `/`.
pub open spec fn relative_spec(prefix: Seq<char>, url_path: Seq<char>) -> Seq<char> {
    strip_repeated(strip_repeated(url_path, prefix), seq!['/'])
}

/// The path that a request names: the served directory with the relative
/// request path resolved onto it lexically.
pub open spec fn target(s: ServeDirView, url_path: Seq<char>) -> PathView {
    PathView {
        absolute: s.dir.absolute,
        parts: lexical_fold(s.dir.parts, split_slash(relative_spec(s.prefix, url_path))),
    }
}

/// The first decision: a target outside the directory is forbidden at
/// once; one inside is checked for existence.
pub open spec fn call_spec(s: ServeDirView, url_path: Seq<char>) -> ActionView {
    if within(target(s, url_path), s.dir) {
        ActionView::CheckExists(target(s, url_path))
    } else {
        ActionView::Respond(bare(Status::Forbidden))
    }
}

/// The second decision: a path at which no file stands is not found; one
/// at which a file stands is read.
pub open spec fn existence_spec(path: PathView, exists: bool) -> ActionView {
    if exists {
        ActionView::ReadFile(path)
    } else {
        ActionView::Respond(bare(Status::NotFound))
    }
}

/// The last decision: the contents read are served.
pub open spec fn read_spec(contents: Seq<u8>) -> ResponseView {
    ResponseView { status: Status::Success, body: Some(contents) }
}

/// The response to a request when the directory holds, as regular files,
/// exactly the paths of `files` with their contents: the three decisions
/// in turn, each fed what the filesystem answers.
pub open spec fn served(s: ServeDirView, url_path: Seq<char>, files: Map<PathView, Seq<u8>>) -> ResponseView {
    match call_spec(s, url_path) {
        ActionView::Respond(r) => r,
        ActionView::CheckExists(p) => match existence_spec(p, files.contains_key(p)) {
            ActionView::Respond(r) => r,
            ActionView::CheckExists(q) => bare(Status::NotFound),
            ActionView::ReadFile(q) => read_spec(files[q]),
        },
        ActionView::ReadFile(p) => read_spec(files[p]),
    }
}

impl ServeDir {
    /// A server for the files under `dir`, mounted at `prefix`. Nothing is
    /// checked here: `dir` need not exist yet.
    pub fn new(prefix: String, dir: FilePath) -> (r: ServeDir)
        ensures
            r@ == (ServeDirView { prefix: prefix@, dir: dir@ }),
    {
        ServeDir { prefix, dir }
    }

    /// The request path relative to the served directory.
    pub fn relative_path(&self, url_path: &str) -> (r: String)
        ensures
            r@ == relative_spec(self@.prefix, url_path@),
    {
        let n = url_path.unicode_len();
        let start = trim_start_position(url_path, self.prefix.as_str());
        let rest = url_path.substring_char(start, n);
        let slash = "/";
        proof {
            reveal_strlit("/");
        }
        assert(slash@ =~= seq!['/']);
        let m = rest.unicode_len();
        let from = trim_start_position(rest, slash);
        String::from_str(rest.substring_char(from, m))
    }

    /// The path that a request names, whether or not it lies within the
    /// served directory.
    pub fn resolve(&self, url_path: &str) -> (r: FilePath)
        ensures
            r@ == target(self@, url_path@),
            well_formed(self@.dir) ==> well_formed(r@),
    {
        let rel = self.relative_path(url_path);
        self.dir.join_lexical(rel.as_str())
    }

    /// Handles a request for `url_path`: forbids a target outside the
    /// served directory without touching the filesystem, and otherwise
    /// asks whether a file stands at the target.
    pub fn call(&self, url_path: &str) -> (r: Action)
        ensures
            r@ == call_spec(self@, url_path@),
    {
        let file_path = self.resolve(url_path);
        if file_path.starts_with(&self.dir) {
            Action::CheckExists(file_path)
        } else {
            Action::Respond(Response { status: Status::Forbidden, body: None })
        }
    }
}

/// Goes on once the caller knows whether a regular file stands at `path`.
pub fn after_existence_check(path: FilePath, exists: bool) -> (r: Action)
    ensures
        r@ == existence_spec(path@, exists),
{
    if exists {
        Action::ReadFile(path)
    } else {
        Action::Respond(Response { status: Status::NotFound, body: None })
    }
}

/// Finishes once the caller has read the file's contents.
pub fn after_read(contents: Vec<u8>) -> (r: Response)
    ensures
        r@ == read_spec(contents@),
{
    Response { status: Status::Success, body: Some(contents) }
}

} // verus!
