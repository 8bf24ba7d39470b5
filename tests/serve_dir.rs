use serve_dir::path::{split_segments, trim_start_position, FilePath};
use serve_dir::serve::{after_existence_check, after_read, Action, Response, ServeDir, Status};

/// A directory of regular files, each given by its full path and contents.
struct Files(Vec<(FilePath, Vec<u8>)>);

impl Files {
    fn contents(&self, p: &FilePath) -> Option<Vec<u8>> {
        self.0.iter().find(|(q, _)| q == p).map(|(_, c)| c.clone())
    }
}

/// Runs the decisions against `files`, recording every path queried.
fn handle(sd: &ServeDir, url_path: &str, files: &Files, queried: &mut Vec<FilePath>) -> Response {
    let mut action = sd.call(url_path);
    loop {
        action = match action {
            Action::Respond(r) => return r,
            Action::CheckExists(p) => {
                queried.push(p.clone());
                let exists = files.contents(&p).is_some();
                after_existence_check(p, exists)
            }
            Action::ReadFile(p) => {
                queried.push(p.clone());
                return after_read(files.contents(&p).unwrap());
            }
        }
    }
}

fn static_setup() -> (ServeDir, Files) {
    let dir = FilePath::parse("/tmp/work/static");
    let foo = FilePath::parse("/tmp/work/static/foo");
    let sd = ServeDir::new("/static/".to_string(), dir);
    (sd, Files(vec![(foo, b"Foobar".to_vec())]))
}

fn parts(p: &FilePath) -> Vec<&str> {
    p.parts.iter().map(|s| s.as_str()).collect()
}

#[test]
fn ok() {
    let (sd, files) = static_setup();
    let mut queried = Vec::new();
    let resp = handle(&sd, "/static/foo", &files, &mut queried);
    assert_eq!(resp.status.code(), 200);
    assert_eq!(String::from_utf8(resp.body.unwrap()).unwrap(), "Foobar");
}

#[test]
fn not_found() {
    let (sd, files) = static_setup();
    let mut queried = Vec::new();
    let resp = handle(&sd, "/static/bar", &files, &mut queried);
    assert_eq!(resp.status.code(), 404);
    assert_eq!(resp.body, None);
}

#[test]
fn escape_is_forbidden_without_queries() {
    let (sd, files) = static_setup();
    let mut queried = Vec::new();
    let resp = handle(&sd, "/static/../../etc/passwd", &files, &mut queried);
    assert_eq!(resp.status, Status::Forbidden);
    assert_eq!(resp.status.code(), 403);
    assert_eq!(resp.body, None);
    assert!(queried.is_empty());
}

#[test]
fn single_parent_leaves_directory() {
    let (sd, files) = static_setup();
    let mut queried = Vec::new();
    let resp = handle(&sd, "/static/..", &files, &mut queried);
    assert_eq!(resp.status.code(), 403);
    assert!(queried.is_empty());
}

#[test]
fn deep_parents_are_not_clamped() {
    let (sd, _) = static_setup();
    let p = sd.resolve("/static/../../../../../../x");
    assert!(p.absolute);
    assert_eq!(parts(&p), vec!["x"]);
    assert!(matches!(sd.call("/static/../../../../../../x"), Action::Respond(_)));
}

#[test]
fn dot_segment_resolves_as_without_it() {
    let (sd, files) = static_setup();
    let mut queried = Vec::new();
    let resp = handle(&sd, "/static/./foo", &files, &mut queried);
    assert_eq!(resp.status.code(), 200);
    assert_eq!(resp.body.unwrap(), b"Foobar".to_vec());
    assert_eq!(sd.resolve("/static/./foo"), sd.resolve("/static/foo"));
}

#[test]
fn parent_that_comes_back_inside_is_served() {
    let (sd, files) = static_setup();
    let mut queried = Vec::new();
    let resp = handle(&sd, "/static/../static/foo", &files, &mut queried);
    assert_eq!(resp.status.code(), 200);
    assert_eq!(resp.body.unwrap(), b"Foobar".to_vec());
    assert_eq!(queried.len(), 2);
    assert_eq!(queried[0], FilePath::parse("/tmp/work/static/foo"));
}

#[test]
fn sibling_with_common_text_prefix_is_forbidden() {
    let sd = ServeDir::new("/".to_string(), FilePath::parse("/srv/base"));
    let p = sd.resolve("/../base-evil/secret");
    assert_eq!(parts(&p), vec!["srv", "base-evil", "secret"]);
    assert!(!p.starts_with(&FilePath::parse("/srv/base")));
    assert_eq!(sd.call("/../base-evil/secret"), Action::Respond(Response { status: Status::Forbidden, body: None }));
}

#[test]
fn repeated_requests_give_the_same_response() {
    let (sd, files) = static_setup();
    for url in ["/static/foo", "/static/bar", "/static/../../etc/passwd"] {
        let mut q1 = Vec::new();
        let mut q2 = Vec::new();
        let r1 = handle(&sd, url, &files, &mut q1);
        let r2 = handle(&sd, url, &files, &mut q2);
        assert_eq!(r1, r2);
        assert_eq!(q1, q2);
    }
}

#[test]
fn directory_itself_is_checked_then_not_found() {
    let (sd, files) = static_setup();
    assert_eq!(sd.call("/static/"), Action::CheckExists(FilePath::parse("/tmp/work/static")));
    let mut queried = Vec::new();
    assert_eq!(handle(&sd, "/static/", &files, &mut queried).status, Status::NotFound);
}

#[test]
fn prefix_is_trimmed_repeatedly_then_slashes() {
    let (sd, _) = static_setup();
    assert_eq!(sd.relative_path("/static/foo"), "foo");
    assert_eq!(sd.relative_path("/static//static/foo"), "foo");
    assert_eq!(sd.relative_path("///a/b"), "a/b");
    assert_eq!(sd.relative_path("/other/foo"), "other/foo");
    assert_eq!(sd.relative_path(""), "");
}

#[test]
fn empty_prefix_trims_only_slashes() {
    let sd = ServeDir::new(String::new(), FilePath::parse("srv"));
    assert_eq!(sd.relative_path("//x/y"), "x/y");
    let p = sd.resolve("//x//y/");
    assert!(!p.absolute);
    assert_eq!(parts(&p), vec!["srv", "x", "y"]);
}

#[test]
fn relative_base_directory() {
    let sd = ServeDir::new("/s/".to_string(), FilePath::parse("./public/"));
    let p = sd.resolve("/s/a/../b");
    assert!(!p.absolute);
    assert_eq!(parts(&p), vec!["public", "b"]);
    assert!(matches!(sd.call("/s/a/../b"), Action::CheckExists(_)));
    assert!(matches!(sd.call("/s/../../b"), Action::Respond(_)));
}

#[test]
fn non_ascii_names_are_kept() {
    let sd = ServeDir::new("/ö/".to_string(), FilePath::parse("/dätä"));
    let p = sd.resolve("/ö/ünï/çödé.txt");
    assert_eq!(parts(&p), vec!["dätä", "ünï", "çödé.txt"]);
}

#[test]
fn parse_drops_empty_and_dot_components() {
    let p = FilePath::parse("/a//./b/../c/");
    assert!(p.absolute);
    assert_eq!(parts(&p), vec!["a", "b", "..", "c"]);
    let r = FilePath::parse("");
    assert!(!r.absolute);
    assert!(r.parts.is_empty());
}

#[test]
fn join_lexical_pops_past_root_without_effect() {
    let p = FilePath::parse("/a").join_lexical("../../../b/./c");
    assert!(p.absolute);
    assert_eq!(parts(&p), vec!["b", "c"]);
}

#[test]
fn starts_with_is_component_wise() {
    let base = FilePath::parse("/srv/www");
    assert!(FilePath::parse("/srv/www").starts_with(&base));
    assert!(FilePath::parse("/srv/www/a/b").starts_with(&base));
    assert!(!FilePath::parse("/srv/wwwx").starts_with(&base));
    assert!(!FilePath::parse("/srv").starts_with(&base));
    assert!(!FilePath::parse("srv/www/a").starts_with(&base));
}

#[test]
fn split_keeps_empty_pieces() {
    assert_eq!(split_segments(""), vec![String::new()]);
    assert_eq!(split_segments("a//b/"), vec!["a".to_string(), String::new(), "b".to_string(), String::new()]);
}

#[test]
fn trim_position_counts_characters() {
    assert_eq!(trim_start_position("ababc", "ab"), 4);
    assert_eq!(trim_start_position("abc", ""), 0);
    assert_eq!(trim_start_position("éé/x", "é"), 2);
    assert_eq!(trim_start_position("ab", "abc"), 0);
}

#[test]
fn status_codes() {
    assert_eq!(Status::Success.code(), 200);
    assert_eq!(Status::Forbidden.code(), 403);
    assert_eq!(Status::NotFound.code(), 404);
}

#[test]
fn steps_after_the_first() {
    let p = FilePath::parse("/d/f");
    assert_eq!(after_existence_check(p.clone(), true), Action::ReadFile(p.clone()));
    assert_eq!(
        after_existence_check(p, false),
        Action::Respond(Response { status: Status::NotFound, body: None })
    );
    let r = after_read(vec![1, 2, 3]);
    assert_eq!(r.status, Status::Success);
    assert_eq!(r.body, Some(vec![1, 2, 3]));
    assert_eq!(after_read(Vec::new()).body, Some(Vec::new()));
}
