//! Paths inside a package.

use typst::syntax::VirtualPath as TypstPath;
use vstd::prelude::*;
use vstd::string::*;
use crate::collections::join_items;
use crate::text::{joined, views};

verus! {

/// An absolute and normalized path inside a project or a package, as the list
/// of its components below the root.
#[derive(Debug)]
pub struct VirtualPath {
    pub segments: Vec<String>,
}

impl View for VirtualPath {
    type V = Seq<Seq<char>>;

    open spec fn view(&self) -> Seq<Seq<char>> {
        views(self.segments@)
    }
}

/// The position of the first `sep`, or the length of the text.
pub open spec fn sep_at(s: Seq<char>, sep: char) -> int
    decreases s.len(),
{
    if s.len() == 0 || s[0] == sep {
        0
    } else {
        1 + sep_at(s.skip(1), sep)
    }
}

proof fn lemma_sep_at(s: Seq<char>, sep: char)
    ensures
        0 <= sep_at(s, sep) <= s.len(),
        sep_at(s, sep) < s.len() <==> s.contains(sep),
    decreases s.len(),
{
    if s.len() > 0 && s[0] != sep {
        lemma_sep_at(s.skip(1), sep);
        if s.contains(sep) {
            let i = s.index_of(sep);
            assert(s.skip(1)[i - 1] == sep);
        }
        if s.skip(1).contains(sep) {
            let i = s.skip(1).index_of(sep);
            assert(s[i + 1] == sep);
        }
    }
}

/// The pieces of a text between the separators.
pub open spec fn split_at_sep(s: Seq<char>, sep: char) -> Seq<Seq<char>>
    decreases s.len(),
{
    let n = sep_at(s, sep);
    if 0 <= n < s.len() {
        seq![s.take(n)] + split_at_sep(s.skip(n + 1), sep)
    } else {
        seq![s]
    }
}

/// Where one gets from `at` by following the components one by one. Empty
/// components and `.` stay, and `..` goes up unless there is nothing to leave.
pub open spec fn followed(at: Seq<Seq<char>>, components: Seq<Seq<char>>) -> Seq<Seq<char>>
    decreases components.len(),
{
    if components.len() == 0 {
        at
    } else {
        let next = components[0];
        let here = if next.len() == 0 || next == seq!['.'] {
            at
        } else if next == seq!['.', '.'] && at.len() > 0 && at.last() != seq!['.', '.'] {
            at.drop_last()
        } else {
            at.push(next)
        };
        followed(here, components.skip(1))
    }
}

/// Whether a path means the same on every platform: it uses neither the
/// separator nor the prefixes that only some platforms know.
pub open spec fn portable(path: Seq<char>) -> bool {
    &&& !path.contains('\\')
    &&& !path.contains(':')
    &&& !(path.len() >= 2 && path[0] == '/' && path[1] == '/')
}

/// Whether the components are those of a normalized path that means the same
/// on every platform.
pub open spec fn settled(segments: Seq<Seq<char>>) -> bool {
    &&& followed(Seq::empty(), segments) == segments
    &&& forall|i: int|
        0 <= i < segments.len() ==> portable(#[trigger] segments[i]) && !segments[i].contains('/')
}

/// `typst::syntax::VirtualPath::new`: the components of the path, followed
/// from the root. Nothing is said of a path whose components depend on the
/// platform.
#[verifier::external_body]
fn virtual_path(path: &str) -> (segments: Vec<String>)
    ensures
        portable(path@) ==> views(segments@) == followed(
            Seq::empty(),
            split_at_sep(path@, '/'),
        ),
{
    let path = TypstPath::new(path);
    let components = path.as_rootless_path().components();
    components.map(|part| part.as_os_str().to_string_lossy().into_owned()).collect()
}

/// `typst::syntax::VirtualPath::join`: the components of the path, followed
/// from the directory of the base, or from the root if the path begins with a
/// slash. Nothing is said of components that depend on the platform.
#[verifier::external_body]
fn virtual_join(base: &Vec<String>, path: &str) -> (segments: Vec<String>)
    ensures
        settled(views(base@)) && portable(path@) ==> views(segments@) == followed(
            if base@.len() == 0 || (path@.len() > 0 && path@[0] == '/') {
                Seq::empty()
            } else {
                views(base@).drop_last()
            },
            split_at_sep(path@, '/'),
        ),
{
    let path = TypstPath::new(base.join("/")).join(path);
    let components = path.as_rootless_path().components();
    components.map(|part| part.as_os_str().to_string_lossy().into_owned()).collect()
}

/// The components of a path from a slash onwards, joined by slashes.
pub open spec fn slashed(segments: Seq<Seq<char>>) -> Seq<char> {
    seq!['/'] + joined(segments, seq!['/'])
}

/// A copy of some texts.
pub fn copy_texts(texts: &Vec<String>) -> (copy: Vec<String>)
    ensures
        copy@ =~= texts@,
{
    let mut copy: Vec<String> = Vec::new();
    let mut i: usize = 0;
    while i < texts.len()
        invariant
            i <= texts.len(),
            copy@ =~= texts@.take(i as int),
        decreases texts.len() - i,
    {
        copy.push(texts[i].clone());
        i = i + 1;
    }
    copy
}

impl VirtualPath {
    /// The virtual path that a path inside a package stands for.
    pub fn new(path: &str) -> (res: VirtualPath)
        ensures
            portable(path@) ==> res@ == followed(Seq::empty(), split_at_sep(path@, '/')),
    {
        VirtualPath { segments: virtual_path(path) }
    }

    /// The virtual path that a path stands for in the directory of this one.
    pub fn join(&self, path: &str) -> (res: VirtualPath)
        ensures
            settled(self@) && portable(path@) ==> res@ == followed(
                if self@.len() == 0 || (path@.len() > 0 && path@[0] == '/') {
                    Seq::empty()
                } else {
                    self@.drop_last()
                },
                split_at_sep(path@, '/'),
            ),
    {
        VirtualPath { segments: virtual_join(&self.segments, path) }
    }

    /// The path from the root, with slashes.
    pub fn unix_slash(&self) -> (res: String)
        ensures
            res@ == slashed(self@),
    {
        let tail: String = join_items(self.segments.as_slice(), "/");
        let mut res: String = String::new();
        res.push('/');
        res.append(tail.as_str());
        proof {
            reveal_strlit("/");
            assert("/"@ =~= seq!['/']);
            assert(res@ =~= slashed(self@));
        }
        res
    }

    /// A copy of the path.
    pub fn copy(&self) -> (res: VirtualPath)
        ensures
            res@ == self@,
    {
        VirtualPath { segments: copy_texts(&self.segments) }
    }

    /// Whether two paths have the same components.
    pub fn same(&self, other: &VirtualPath) -> (same: bool)
        ensures
            same == (self@ == other@),
    {
        if self.segments.len() != other.segments.len() {
            assert(self@.len() != other@.len());
            return false;
        }
        let mut i: usize = 0;
        while i < self.segments.len()
            invariant
                i <= self.segments.len(),
                self.segments.len() == other.segments.len(),
                forall|j: int| 0 <= j < i ==> self@[j] == other@[j],
            decreases self.segments.len() - i,
        {
            if !self.segments[i].eq(&other.segments[i]) {
                assert(self@[i as int] != other@[i as int]);
                return false;
            }
            assert(self@[i as int] == other@[i as int]);
            i = i + 1;
        }
        assert(self@ =~= other@);
        true
    }
}

/// A path without a slash is the name of a file in the root.
pub proof fn lemma_single_component(path: Seq<char>)
    requires
        path.len() > 0,
        !path.contains('/'),
        path != seq!['.'],
        path != seq!['.', '.'],
    ensures
        followed(Seq::empty(), split_at_sep(path, '/')) == seq![path],
{
    lemma_sep_at(path, '/');
    assert(split_at_sep(path, '/') == seq![path]);
    assert(seq![path].skip(1) =~= Seq::<Seq<char>>::empty());
    assert(Seq::<Seq<char>>::empty().push(path) =~= seq![path]);
    reveal_with_fuel(followed, 2);
}

} // verus!
