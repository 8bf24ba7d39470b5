//! Lexical file paths: splitting on `/`, trimming, and the interpretation
//! of `.` and `..` segments without consulting any filesystem.

use vstd::prelude::*;

verus! {

/// Removes `p` from the front of `s` as many times as it occurs there.
/// An empty `p` removes nothing.
pub open spec fn strip_repeated(s: Seq<char>, p: Seq<char>) -> Seq<char>
    decreases s.len(),
{
    if p.len() > 0 && p.len() <= s.len() && s.subrange(0, p.len() as int) == p {
        strip_repeated(s.subrange(p.len() as int, s.len() as int), p)
    } else {
        s
    }
}

/// Does `p` occur in `s` at position `pos`?
fn occurs_at(s: &str, pos: usize, p: &str, s_len: usize, p_len: usize) -> (r: bool)
    requires
        s_len == s@.len(),
        p_len == p@.len(),
        pos <= s_len,
    ensures
        r == (pos + p@.len() <= s@.len() && s@.subrange(pos as int, pos + p@.len()) == p@),
{
    if p_len > s_len - pos {
        return false;
    }
    let mut i: usize = 0;
    while i < p_len
        invariant
            s_len == s@.len(),
            p_len == p@.len(),
            pos + p_len <= s_len,
            i <= p_len,
            forall|k: int| 0 <= k < i ==> s@[pos + k] == p@[k],
        decreases p_len - i,
    {
        if s.get_char(pos + i) != p.get_char(i) {
            assert(s@.subrange(pos as int, pos + p@.len())[i as int] != p@[i as int]);
            return false;
        }
        i = i + 1;
    }
    assert(s@.subrange(pos as int, pos + p@.len()) =~= p@);
    true
}

/// The position in `s` at which the text left by `strip_repeated(s@, p@)`
/// starts, as `str::trim_start_matches` would leave it.
pub fn trim_start_position(s: &str, p: &str) -> (r: usize)
    ensures
        r <= s@.len(),
        s@.subrange(r as int, s@.len() as int) == strip_repeated(s@, p@),
{
    let s_len = s.unicode_len();
    let p_len = p.unicode_len();
    let mut pos: usize = 0;
    if p_len == 0 {
        assert(s@.subrange(0, s@.len() as int) =~= s@);
        return 0;
    }
    assert(s@.subrange(0, s_len as int) =~= s@);
    loop
        invariant
            s_len == s@.len(),
            p_len == p@.len(),
            p_len > 0,
            pos <= s_len,
            strip_repeated(s@.subrange(pos as int, s_len as int), p@) == strip_repeated(s@, p@),
        decreases s_len - pos,
    {
        let ghost rest = s@.subrange(pos as int, s_len as int);
        if !occurs_at(s, pos, p, s_len, p_len) {
            assert(p@.len() > rest.len() || rest.subrange(0, p@.len() as int) != p@) by {
                if p@.len() <= rest.len() {
                    assert(rest.subrange(0, p@.len() as int) =~= s@.subrange(pos as int, pos + p@.len()));
                }
            }
            return pos;
        }
        assert(rest.subrange(0, p@.len() as int) =~= s@.subrange(pos as int, pos + p@.len()));
        assert(rest.subrange(p@.len() as int, rest.len() as int) =~= s@.subrange(pos + p_len, s_len as int));
        pos = pos + p_len;
    }
}

/// The views of a sequence of strings.
pub open spec fn views(v: Seq<String>) -> Seq<Seq<char>> {
    v.map_values(|x: String| x@)
}

/// `s` split at every `/`, empty pieces included, as `str::split('/')`
/// splits it: `""` gives one empty piece and `"a//b"` three.
pub open spec fn split_slash(s: Seq<char>) -> Seq<Seq<char>>
    decreases s.len(),
{
    if s.len() == 0 {
        seq![Seq::empty()]
    } else {
        let before = split_slash(s.drop_last());
        if s.last() == '/' {
            before.push(Seq::empty())
        } else {
            before.drop_last().push(before.last().push(s.last()))
        }
    }
}

/// There is always at least one piece.
pub proof fn lemma_split_slash_nonempty(s: Seq<char>)
    ensures
        split_slash(s).len() >= 1,
    decreases s.len(),
{
    if s.len() > 0 {
        lemma_split_slash_nonempty(s.drop_last());
    }
}

pub open spec fn no_slash(seg: Seq<char>) -> bool {
    forall|i: int| 0 <= i < seg.len() ==> seg[i] != '/'
}

/// No piece holds a `/`.
pub proof fn lemma_split_slash_pieces(s: Seq<char>)
    ensures
        forall|k: int| 0 <= k < split_slash(s).len() ==> no_slash(#[trigger] split_slash(s)[k]),
    decreases s.len(),
{
    if s.len() > 0 {
        lemma_split_slash_pieces(s.drop_last());
        lemma_split_slash_nonempty(s.drop_last());
        let before = split_slash(s.drop_last());
        if s.last() != '/' {
            let grown = before.last().push(s.last());
            assert(no_slash(before[before.len() - 1]));
            assert forall|i: int| 0 <= i < grown.len() implies grown[i] != '/' by {
                if i < grown.len() - 1 {
                    assert(grown[i] == before.last()[i]);
                }
            }
        }
    }
}

/// Splits `s` at every `/`.
pub fn split_segments(s: &str) -> (r: Vec<String>)
    ensures
        views(r@) == split_slash(s@),
{
    let n = s.unicode_len();
    let mut out: Vec<String> = Vec::new();
    let mut start: usize = 0;
    let mut i: usize = 0;
    assert(s@.subrange(0, 0) =~= Seq::<char>::empty());
    assert(views(out@) + seq![s@.subrange(0, 0)] =~= split_slash(s@.subrange(0, 0)));
    while i < n
        invariant
            n == s@.len(),
            start <= i <= n,
            views(out@).push(s@.subrange(start as int, i as int)) == split_slash(
                s@.subrange(0, i as int),
            ),
        decreases n - i,
    {
        let ghost t = s@.subrange(0, i + 1);
        assert(t.drop_last() =~= s@.subrange(0, i as int));
        let c = s.get_char(i);
        if c == '/' {
            let piece = String::from_str(s.substring_char(start, i));
            proof {
                lemma_split_slash_nonempty(s@.subrange(0, i as int));
            }
            let ghost before = out@;
            out.push(piece);
            start = i + 1;
            assert(s@.subrange(start as int, i + 1) =~= Seq::<char>::empty());
            assert(views(out@) =~= views(before).push(piece@));
        } else {
            assert(s@.subrange(start as int, i + 1) =~= s@.subrange(start as int, i as int).push(c));
        }
        i = i + 1;
    }
    let last = String::from_str(s.substring_char(start, n));
    let ghost before = out@;
    out.push(last);
    assert(views(out@) =~= views(before).push(last@));
    assert(s@.subrange(0, n as int) =~= s@);
    out
}

/// A path as an absolute flag and a list of components. A well-formed
/// path has no component that is empty, is `.` or holds a `/`.
#[derive(Clone, Debug, PartialEq, Eq)]
pub struct FilePath {
    pub absolute: bool,
    pub parts: Vec<String>,
}

/// What a `FilePath` denotes.
pub ghost struct PathView {
    pub absolute: bool,
    pub parts: Seq<Seq<char>>,
}

impl View for FilePath {
    type V = PathView;

    open spec fn view(&self) -> PathView {
        PathView { absolute: self.absolute, parts: views(self.parts@) }
    }
}

/// A name that can stand as one component of a path.
pub open spec fn is_component(seg: Seq<char>) -> bool {
    seg.len() > 0 && !is_dot(seg) && no_slash(seg)
}

pub open spec fn well_formed(p: PathView) -> bool {
    forall|k: int| 0 <= k < p.parts.len() ==> is_component(#[trigger] p.parts[k])
}

pub open spec fn is_dot(seg: Seq<char>) -> bool {
    seg == seq!['.']
}

pub open spec fn is_dot_dot(seg: Seq<char>) -> bool {
    seg == seq!['.', '.']
}

/// The components that the pieces `segs` of a written path name:
/// empty pieces and `.` name none; `..` is kept, as nothing is known of
/// what lies above.
pub open spec fn components(segs: Seq<Seq<char>>) -> Seq<Seq<char>>
    decreases segs.len(),
{
    if segs.len() == 0 {
        Seq::empty()
    } else {
        let before = components(segs.drop_last());
        let seg = segs.last();
        if seg.len() == 0 || is_dot(seg) {
            before
        } else {
            before.push(seg)
        }
    }
}

/// One step of lexical resolution: `.` and empty segments do nothing,
/// `..` removes the last component if there is one, and any other segment
/// is appended.
pub open spec fn lexical_step(parts: Seq<Seq<char>>, seg: Seq<char>) -> Seq<Seq<char>> {
    if seg.len() == 0 || is_dot(seg) {
        parts
    } else if is_dot_dot(seg) {
        if parts.len() > 0 {
            parts.drop_last()
        } else {
            parts
        }
    } else {
        parts.push(seg)
    }
}

/// `base` with the segments `segs` resolved onto it in order.
pub open spec fn lexical_fold(base: Seq<Seq<char>>, segs: Seq<Seq<char>>) -> Seq<Seq<char>>
    decreases segs.len(),
{
    if segs.len() == 0 {
        base
    } else {
        lexical_step(lexical_fold(base, segs.drop_last()), segs.last())
    }
}

/// `p` lies within `base`: both are absolute or both relative, and the
/// components of `base` begin those of `p`.
pub open spec fn within(p: PathView, base: PathView) -> bool {
    &&& p.absolute == base.absolute
    &&& base.parts.len() <= p.parts.len()
    &&& p.parts.subrange(0, base.parts.len() as int) == base.parts
}

fn seg_is_dot(seg: &String) -> (r: bool)
    ensures
        r == is_dot(seg@),
{
    let s = seg.as_str();
    let n = s.unicode_len();
    if n != 1 {
        return false;
    }
    let c = s.get_char(0);
    assert(c == '.' ==> seg@ =~= seq!['.']);
    c == '.'
}

fn seg_is_dot_dot(seg: &String) -> (r: bool)
    ensures
        r == is_dot_dot(seg@),
{
    let s = seg.as_str();
    let n = s.unicode_len();
    if n != 2 {
        return false;
    }
    let c0 = s.get_char(0);
    let c1 = s.get_char(1);
    assert(c0 == '.' && c1 == '.' ==> seg@ =~= seq!['.', '.']);
    c0 == '.' && c1 == '.'
}

impl FilePath {
    /// The path written as `s`: absolute when it starts with `/`, with the
    /// components that its `/`-separated pieces name.
    pub fn parse(s: &str) -> (r: FilePath)
        ensures
            r@.absolute == (s@.len() > 0 && s@[0] == '/'),
            r@.parts == components(split_slash(s@)),
            well_formed(r@),
    {
        let n = s.unicode_len();
        let absolute = n > 0 && s.get_char(0) == '/';
        let segs = split_segments(s);
        proof {
            lemma_split_slash_pieces(s@);
        }
        let mut parts: Vec<String> = Vec::new();
        let mut i: usize = 0;
        assert(segs@.subrange(0, 0) =~= Seq::<String>::empty());
        assert(views(segs@.subrange(0, 0)) =~= Seq::<Seq<char>>::empty());
        while i < segs.len()
            invariant
                i <= segs@.len(),
                views(parts@) == components(views(segs@.subrange(0, i as int))),
                forall|k: int| 0 <= k < segs@.len() ==> no_slash(#[trigger] views(segs@)[k]),
                forall|k: int| 0 <= k < parts@.len() ==> is_component(#[trigger] views(parts@)[k]),
            decreases segs@.len() - i,
        {
            let ghost done = views(segs@.subrange(0, i + 1));
            assert(done.drop_last() =~= views(segs@.subrange(0, i as int)));
            assert(done.last() == segs@[i as int]@);
            let seg = &segs[i];
            if seg.as_str().unicode_len() != 0 && !seg_is_dot(seg) {
                assert(views(segs@)[i as int] == seg@);
                let ghost before = parts@;
                parts.push(seg.clone());
                assert(views(parts@) =~= views(before).push(seg@));
            }
            i = i + 1;
        }
        assert(segs@.subrange(0, segs@.len() as int) =~= segs@);
        let r = FilePath { absolute, parts };
        assert(well_formed(r@)) by {
            assert forall|k: int| 0 <= k < r@.parts.len() implies is_component(#[trigger] r@.parts[k]) by {
                assert(r@.parts[k] == views(parts@)[k]);
            }
        }
        r
    }

    /// This path with `rel` resolved onto it segment by segment, without
    /// consulting any filesystem. `..` may climb above where it started.
    pub fn join_lexical(&self, rel: &str) -> (r: FilePath)
        ensures
            r@.absolute == self@.absolute,
            r@.parts == lexical_fold(self@.parts, split_slash(rel@)),
            well_formed(self@) ==> well_formed(r@),
    {
        let segs = split_segments(rel);
        proof {
            lemma_split_slash_pieces(rel@);
        }
        let mut parts: Vec<String> = self.parts.clone();
        assert(views(parts@) =~= views(self.parts@)) by {
            assert forall|k: int| 0 <= k < parts@.len() implies parts@[k]@ == self.parts@[k]@ by {
                assert(cloned::<String>(self.parts@[k], parts@[k]));
            }
        }
        assert(well_formed(self@) ==> forall|k: int|
            0 <= k < parts@.len() ==> is_component(#[trigger] views(parts@)[k])) by {
            if well_formed(self@) {
                assert forall|k: int| 0 <= k < parts@.len() implies is_component(#[trigger] views(parts@)[k]) by {
                    assert(views(parts@)[k] == self@.parts[k]);
                }
            }
        }
        let mut i: usize = 0;
        assert(views(segs@.subrange(0, 0)) =~= Seq::<Seq<char>>::empty());
        while i < segs.len()
            invariant
                i <= segs@.len(),
                views(parts@) == lexical_fold(views(self.parts@), views(segs@.subrange(0, i as int))),
                forall|k: int| 0 <= k < segs@.len() ==> no_slash(#[trigger] views(segs@)[k]),
                well_formed(self@) ==> forall|k: int|
                    0 <= k < parts@.len() ==> is_component(#[trigger] views(parts@)[k]),
            decreases segs@.len() - i,
        {
            let ghost done = views(segs@.subrange(0, i + 1));
            assert(done.drop_last() =~= views(segs@.subrange(0, i as int)));
            assert(done.last() == segs@[i as int]@);
            let seg = &segs[i];
            let ghost before = parts@;
            if seg.as_str().unicode_len() == 0 || seg_is_dot(seg) {
            } else if seg_is_dot_dot(seg) {
                if parts.len() > 0 {
                    parts.pop();
                    assert(views(parts@) =~= views(before).drop_last());
                }
            } else {
                assert(views(segs@)[i as int] == seg@);
                parts.push(seg.clone());
                assert(views(parts@) =~= views(before).push(seg@));
            }
            i = i + 1;
        }
        assert(segs@.subrange(0, segs@.len() as int) =~= segs@);
        let r = FilePath { absolute: self.absolute, parts };
        assert(well_formed(self@) ==> well_formed(r@)) by {
            if well_formed(self@) {
                assert forall|k: int| 0 <= k < r@.parts.len() implies is_component(#[trigger] r@.parts[k]) by {
                    assert(r@.parts[k] == views(parts@)[k]);
                }
            }
        }
        r
    }

    /// Does this path lie within `base`, component by component?
    pub fn starts_with(&self, base: &FilePath) -> (r: bool)
        ensures
            r == within(self@, base@),
    {
        if self.absolute != base.absolute || base.parts.len() > self.parts.len() {
            return false;
        }
        let mut i: usize = 0;
        while i < base.parts.len()
            invariant
                base.parts@.len() <= self.parts@.len(),
                i <= base.parts@.len(),
                forall|k: int| 0 <= k < i ==> self.parts@[k]@ == base.parts@[k]@,
            decreases base.parts@.len() - i,
        {
            if self.parts[i] != base.parts[i] {
                assert(views(self.parts@).subrange(0, base.parts@.len() as int)[i as int]
                    != views(base.parts@)[i as int]);
                return false;
            }
            i = i + 1;
        }
        assert(views(self.parts@).subrange(0, base.parts@.len() as int) =~= views(base.parts@));
        true
    }
}

} // verus!
