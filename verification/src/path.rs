//! File paths as sequences of components.

use crate::order::is_text_less;
use crate::text::{same_text, split_runs, to_chars};
use vstd::prelude::*;

verus! {

broadcast use vstd::string::group_string_axioms;

/// The mathematical value of a path component.
pub enum PartView {
    Root,
    Current,
    Parent,
    Name(Seq<char>),
}

/// One component of a path.
#[derive(Debug)]
pub enum Part {
    /// The root directory, at the start of an absolute path.
    Root,
    /// `.`, at the start of a relative path.
    Current,
    /// `..`
    Parent,
    /// An ordinary name.
    Name(String),
}

impl View for Part {
    type V = PartView;

    open spec fn view(&self) -> PartView {
        match *self {
            Part::Root => PartView::Root,
            Part::Current => PartView::Current,
            Part::Parent => PartView::Parent,
            Part::Name(s) => PartView::Name(s@),
        }
    }
}

/// A path, as its components.
#[derive(Debug)]
pub struct FilePath {
    pub parts: Vec<Part>,
}

impl View for FilePath {
    type V = Seq<PartView>;

    open spec fn view(&self) -> Seq<PartView> {
        Seq::new(self.parts@.len(), |i: int| self.parts@[i]@)
    }
}

/// The components that the non-empty segments of a path stand for. A `.`
/// counts only as the first segment of a relative path.
pub open spec fn segment_parts(segments: Seq<Seq<char>>, absolute: bool) -> Seq<PartView>
    decreases segments.len(),
{
    if segments.len() == 0 {
        if absolute {
            seq![PartView::Root]
        } else {
            Seq::empty()
        }
    } else {
        let before = segment_parts(segments.drop_last(), absolute);
        let segment = segments.last();
        if segment == "."@ {
            if segments.len() == 1 && !absolute {
                before.push(PartView::Current)
            } else {
                before
            }
        } else if segment == ".."@ {
            before.push(PartView::Parent)
        } else {
            before.push(PartView::Name(segment))
        }
    }
}

/// The components of a path that is written with slashes.
pub open spec fn path_parts(s: Seq<char>) -> Seq<PartView> {
    segment_parts(
        crate::text::runs(s, |c: char| c != '/'),
        s.len() > 0 && s[0] == '/',
    )
}

proof fn lemma_runs_of_one_segment(s: Seq<char>)
    requires
        s.len() > 0,
        forall|i: int| 0 <= i < s.len() ==> s[i] != '/',
    ensures
        crate::text::runs(s, |c: char| c != '/') == seq![s],
    decreases s.len(),
{
    let keep = |c: char| c != '/';
    let before = s.drop_last();
    assert(s =~= before.push(s.last()));
    if s.len() == 1 {
        assert(crate::text::runs(before, keep) =~= Seq::empty());
        assert(s =~= seq![s.last()]);
        assert(crate::text::runs(s, keep) =~= seq![s]);
    } else {
        lemma_runs_of_one_segment(before);
        assert(keep(s[s.len() - 2]));
        assert(crate::text::runs(s, keep) =~= seq![s]);
    }
}

/// A text without slashes that is neither `.` nor `..` is a single name.
pub proof fn lemma_single_name(s: Seq<char>)
    requires
        s.len() > 0,
        forall|i: int| 0 <= i < s.len() ==> s[i] != '/',
        s != "."@,
        s != ".."@,
    ensures
        path_parts(s) == seq![PartView::Name(s)],
{
    lemma_runs_of_one_segment(s);
    assert(seq![s].drop_last() =~= Seq::<Seq<char>>::empty());
    assert(segment_parts(Seq::<Seq<char>>::empty(), false) =~= Seq::empty());
    assert(path_parts(s) =~= seq![PartView::Name(s)]);
}

/// The name of the file that a path leads to; nothing where it ends in no
/// name.
pub open spec fn file_name(path: Seq<PartView>) -> Option<Seq<char>> {
    if path.len() == 0 {
        None
    } else {
        match path.last() {
            PartView::Name(n) => Some(n),
            _ => None,
        }
    }
}

/// Whether the file that a path leads to has the extension `md`. A leading dot
/// starts no extension.
pub open spec fn is_markdown_path(path: Seq<PartView>) -> bool {
    file_name(path) matches Some(n) && n.len() > 3 && n.subrange(n.len() - 3, n.len() as int)
        == ".md"@
}

/// The rank of a component's kind.
pub open spec fn part_rank(p: PartView) -> int {
    match p {
        PartView::Root => 0,
        PartView::Current => 1,
        PartView::Parent => 2,
        PartView::Name(_) => 3,
    }
}

/// The order of components: by kind, and names by their text.
pub open spec fn part_less(a: PartView, b: PartView) -> bool {
    match (a, b) {
        (PartView::Name(x), PartView::Name(y)) => crate::order::text_less(x, y),
        _ => part_rank(a) < part_rank(b),
    }
}

/// The order of paths: component by component.
pub open spec fn path_less(a: Seq<PartView>, b: Seq<PartView>) -> bool {
    crate::order::lex_less(a, b, |p: PartView, q: PartView| part_less(p, q))
}

/// The order of paths is a strict total order.
pub proof fn lemma_path_less()
    ensures
        crate::order::strict_total(|a: Seq<PartView>, b: Seq<PartView>| path_less(a, b)),
{
    let lt = |p: PartView, q: PartView| part_less(p, q);
    let text = |a: Seq<char>, b: Seq<char>| crate::order::text_less(a, b);
    crate::order::lemma_text_less();
    assert forall|a: PartView| !#[trigger] lt(a, a) by {
        match a {
            PartView::Name(x) => {
                assert(!text(x, x));
            },
            _ => {},
        }
    }
    assert forall|a: PartView, b: PartView| a != b implies #[trigger] lt(a, b) || lt(b, a) by {
        match (a, b) {
            (PartView::Name(x), PartView::Name(y)) => {
                assert(text(x, y) || text(y, x));
            },
            _ => {},
        }
    }
    assert forall|a: PartView, b: PartView, c: PartView| #[trigger]
        lt(a, b) && #[trigger] lt(b, c) implies lt(a, c) by {
        match (a, b, c) {
            (PartView::Name(x), PartView::Name(y), PartView::Name(z)) => {
                assert(text(x, y) && text(y, z));
                assert(text(x, z));
            },
            _ => {},
        }
    }
    crate::order::lemma_lex_strict_total(lt);
    let f = |a: Seq<PartView>, b: Seq<PartView>| crate::order::lex_less(a, b, lt);
    let g = |a: Seq<PartView>, b: Seq<PartView>| path_less(a, b);
    assert(f =~= g);
}

impl Part {
    /// Whether two components are the same.
    pub fn same(&self, other: &Part) -> (r: bool)
        ensures
            r == (self@ == other@),
    {
        match (self, other) {
            (Part::Root, Part::Root) => true,
            (Part::Current, Part::Current) => true,
            (Part::Parent, Part::Parent) => true,
            (Part::Name(a), Part::Name(b)) => same_text(a.as_str(), b.as_str()),
            _ => false,
        }
    }

    fn rank(&self) -> (r: u8)
        ensures
            r == part_rank(self@),
    {
        match self {
            Part::Root => 0,
            Part::Current => 1,
            Part::Parent => 2,
            Part::Name(_) => 3,
        }
    }

    /// Whether `self` comes strictly before `other`.
    fn is_less(&self, other: &Part) -> (r: bool)
        ensures
            r == part_less(self@, other@),
    {
        match (self, other) {
            (Part::Name(a), Part::Name(b)) => is_text_less(a.as_str(), b.as_str()),
            _ => self.rank() < other.rank(),
        }
    }

    fn copied(&self) -> (r: Part)
        ensures
            r@ == self@,
    {
        match self {
            Part::Root => Part::Root,
            Part::Current => Part::Current,
            Part::Parent => Part::Parent,
            Part::Name(s) => Part::Name(s.clone()),
        }
    }
}

impl FilePath {
    /// The path that a text with slashes denotes: repeated and trailing
    /// slashes and inner `.` segments do not count.
    pub fn parse(s: &str) -> (r: FilePath)
        ensures
            r@ == path_parts(s@),
    {
        let cs = to_chars(s);
        let absolute = cs.len() > 0 && cs[0] == '/';
        let not_slash = |c: char| -> (b: bool)
            ensures
                b == (c != '/'),
            { c != '/' };
        let segments = split_runs(&cs, not_slash, Ghost(|c: char| c != '/'));
        let ghost all = crate::text::texts(segments@);
        let mut path = FilePath { parts: Vec::new() };
        if absolute {
            path.parts.push(Part::Root);
        }
        let mut i: usize = 0;
        assert(all.take(0) =~= Seq::empty());
        assert(path@ =~= segment_parts(all.take(0), absolute));
        while i < segments.len()
            invariant
                i <= segments.len(),
                all == crate::text::texts(segments@),
                path@ == segment_parts(all.take(i as int), absolute),
            decreases segments.len() - i,
        {
            let ghost after = all.take(i + 1);
            let ghost before = path@;
            assert(after.drop_last() =~= all.take(i as int));
            assert(after.last() == segments@[i as int]@);
            let segment = segments[i].as_str();
            if same_text(segment, ".") {
                if i == 0 && !absolute {
                    path.parts.push(Part::Current);
                    assert(path@ =~= before.push(PartView::Current));
                }
            } else if same_text(segment, "..") {
                path.parts.push(Part::Parent);
                assert(path@ =~= before.push(PartView::Parent));
            } else {
                path.parts.push(Part::Name(segment.to_owned()));
                assert(path@ =~= before.push(PartView::Name(segment@)));
            }
            i += 1;
        }
        assert(all.take(i as int) =~= all);
        path
    }

    /// Whether the path lies at or below `base`: whether its first components
    /// are those of `base`.
    pub fn starts_with(&self, base: &FilePath) -> (r: bool)
        ensures
            r == base@.is_prefix_of(self@),
    {
        if base.parts.len() > self.parts.len() {
            return false;
        }
        let mut i: usize = 0;
        while i < base.parts.len()
            invariant
                i <= base.parts.len() <= self.parts.len(),
                forall|j: int| 0 <= j < i ==> base@[j] == self@[j],
            decreases base.parts.len() - i,
        {
            if !base.parts[i].same(&self.parts[i]) {
                assert(base@[i as int] != self@[i as int]);
                assert(self@.subrange(0, base@.len() as int)[i as int] == self@[i as int]);
                return false;
            }
            i += 1;
        }
        assert(base@ =~= self@.subrange(0, base@.len() as int));
        true
    }

    /// Whether two paths have the same components.
    pub fn same(&self, other: &FilePath) -> (r: bool)
        ensures
            r == (self@ == other@),
    {
        if self.parts.len() != other.parts.len() {
            assert(self@.len() != other@.len());
            return false;
        }
        let mut i: usize = 0;
        while i < self.parts.len()
            invariant
                i <= self.parts.len(),
                self.parts.len() == other.parts.len(),
                forall|j: int| 0 <= j < i ==> self@[j] == other@[j],
            decreases self.parts.len() - i,
        {
            if !self.parts[i].same(&other.parts[i]) {
                assert(self@[i as int] != other@[i as int]);
                return false;
            }
            i += 1;
        }
        assert(self@ =~= other@);
        true
    }

    /// Whether `self` comes strictly before `other` in the order of paths.
    pub fn is_less(&self, other: &FilePath) -> (r: bool)
        ensures
            r == path_less(self@, other@),
    {
        let ghost lt = |p: PartView, q: PartView| part_less(p, q);
        let mut i: usize = 0;
        while i < self.parts.len() && i < other.parts.len() && self.parts[i].same(
            &other.parts[i],
        )
            invariant
                i <= self.parts.len(),
                i <= other.parts.len(),
                forall|j: int| 0 <= j < i ==> self@[j] == other@[j],
            decreases self.parts.len() - i,
        {
            i += 1;
        }
        proof {
            crate::order::lemma_lex_at(self@, other@, i as int, lt);
        }
        if i == other.parts.len() {
            false
        } else if i == self.parts.len() {
            true
        } else {
            assert(self@[i as int] != other@[i as int]);
            self.parts[i].is_less(&other.parts[i])
        }
    }

    /// The name of the file that the path leads to; nothing for the root, `.`
    /// and `..`.
    pub fn file_name(&self) -> (r: Option<String>)
        ensures
            crate::text::opt_text(r) == file_name(self@),
    {
        if self.parts.len() == 0 {
            return None;
        }
        match &self.parts[self.parts.len() - 1] {
            Part::Name(n) => Some(n.clone()),
            _ => None,
        }
    }

    /// Whether the file that the path leads to has the extension `md`.
    pub fn is_markdown(&self) -> (r: bool)
        ensures
            r == is_markdown_path(self@),
    {
        proof {
            reveal_strlit(".md");
        }
        match self.file_name() {
            Some(name) => {
                let cs = to_chars(name.as_str());
                let n = cs.len();
                if n <= 3 {
                    return false;
                }
                let r = cs[n - 3] == '.' && cs[n - 2] == 'm' && cs[n - 1] == 'd';
                proof {
                    let end = cs@.subrange(n - 3, n as int);
                    assert(end[0] == cs@[n - 3] && end[1] == cs@[n - 2] && end[2] == cs@[n - 1]);
                    if r {
                        assert(end =~= ".md"@);
                    }
                }
                r
            },
            None => false,
        }
    }

    /// The path of an entry of this directory.
    pub fn join_name(&self, name: &str) -> (r: FilePath)
        ensures
            r@ == self@.push(PartView::Name(name@)),
    {
        let mut r = self.copied();
        let ghost before = r@;
        r.parts.push(Part::Name(name.to_owned()));
        assert(r@ =~= before.push(PartView::Name(name@)));
        r
    }

    /// A copy of the path.
    pub fn copied(&self) -> (r: FilePath)
        ensures
            r@ == self@,
    {
        let mut parts: Vec<Part> = Vec::new();
        let mut i: usize = 0;
        while i < self.parts.len()
            invariant
                i <= self.parts.len(),
                parts.len() == i,
                forall|j: int| 0 <= j < i ==> (#[trigger] parts@[j])@ == self@[j],
            decreases self.parts.len() - i,
        {
            parts.push(self.parts[i].copied());
            i += 1;
        }
        let r = FilePath { parts };
        assert(r@ =~= self@);
        r
    }
}

} // verus!
