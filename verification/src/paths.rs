//! The path model: a platform-independent picture of a filesystem path,
//! and the blacklist rules that keep build/dependency/cache directories
//! and hidden directories out of discovery and watcher classification.

use vstd::prelude::*;
use vstd::string::StrSliceExecFns;
use vstd::string::StringExecFns;

verus! {

/// A filesystem path as the library sees it: whether it is anchored at the
/// filesystem root, and its directory/file name components in order.
pub struct WsPath {
    pub absolute: bool,
    pub parts: Vec<String>,
}

/// The mathematical value of a [`WsPath`].
#[verifier::ext_equal]
pub struct WsPathView {
    pub absolute: bool,
    pub parts: Seq<Seq<char>>,
}

impl View for WsPath {
    type V = WsPathView;

    open spec fn view(&self) -> WsPathView {
        WsPathView { absolute: self.absolute, parts: self.parts.deep_view() }
    }
}

impl DeepView for WsPath {
    type V = WsPathView;

    open spec fn deep_view(&self) -> WsPathView {
        self.view()
    }
}

/// Copies a component list; the copy has the same mathematical value.
pub fn clone_parts(v: &Vec<String>) -> (r: Vec<String>)
    ensures
        r.deep_view() == v.deep_view(),
{
    let r = v.clone();
    proof {
        assert forall|i: int| 0 <= i < v.len() implies r.deep_view()[i] == v.deep_view()[i] by {
            assert(cloned::<String>(v[i], r[i]));
        }
        assert(r.deep_view() =~= v.deep_view());
    }
    r
}

/// Component-wise equality of component lists, by mathematical value.
pub fn same_parts(a: &Vec<String>, b: &Vec<String>) -> (r: bool)
    ensures
        r == (a.deep_view() == b.deep_view()),
{
    if a.len() != b.len() {
        assert(a.deep_view().len() != b.deep_view().len());
        return false;
    }
    let n = a.len();
    let mut i: usize = 0;
    while i < n
        invariant
            n == a.len() == b.len(),
            a.deep_view().len() == n,
            b.deep_view().len() == n,
            0 <= i <= n,
            forall|j: int| 0 <= j < i ==> a.deep_view()[j] == b.deep_view()[j],
        decreases n - i,
    {
        if !(a[i] == b[i]) {
            assert(a.deep_view()[i as int] != b.deep_view()[i as int]);
            return false;
        }
        i += 1;
    }
    proof {
        assert(a.deep_view() =~= b.deep_view());
    }
    true
}

impl WsPath {
    /// A copy with the same mathematical value.
    pub fn duplicate(&self) -> (r: WsPath)
        ensures
            r@ == self@,
    {
        WsPath { absolute: self.absolute, parts: clone_parts(&self.parts) }
    }

    /// The path one level below `self`, reached through entry `name`.
    pub fn child(&self, name: String) -> (r: WsPath)
        ensures
            r@.absolute == self@.absolute,
            r@.parts == self@.parts.push(name@),
    {
        let mut parts = clone_parts(&self.parts);
        parts.push(name);
        proof {
            assert(parts.deep_view() =~= self@.parts.push(name@));
        }
        WsPath { absolute: self.absolute, parts }
    }
}

/// Copies a list of paths; the copy has the same mathematical value.
pub fn clone_paths(v: &Vec<WsPath>) -> (r: Vec<WsPath>)
    ensures
        r.deep_view() == v.deep_view(),
{
    let n = v.len();
    let mut out: Vec<WsPath> = Vec::new();
    let mut i: usize = 0;
    while i < n
        invariant
            n == v@.len(),
            0 <= i <= n,
            out@.len() == i,
            out.deep_view() == v.deep_view().take(i as int),
        decreases n - i,
    {
        out.push(v[i].duplicate());
        proof {
            assert(out.deep_view() =~= v.deep_view().take(i + 1));
        }
        i += 1;
    }
    proof {
        assert(out.deep_view() =~= v.deep_view());
    }
    out
}

/// Whole-path equality, by mathematical value.
pub fn same_path(a: &WsPath, b: &WsPath) -> (r: bool)
    ensures
        r == (a@ == b@),
{
    let r = a.absolute == b.absolute && same_parts(&a.parts, &b.parts);
    proof {
        if a@.absolute == b@.absolute && a@.parts == b@.parts {
            assert(a@ =~= b@);
        }
    }
    r
}

/// Directory names that never take part in discovery or re-indexing:
/// build outputs, dependency caches, scratch space and the like.
pub open spec fn blacklisted_name(name: Seq<char>) -> bool {
    ||| name == "target"@
    ||| name == "node_modules"@
    ||| name == "vendor"@
    ||| name == "build"@
    ||| name == "dist"@
    ||| name == "bin"@
    ||| name == "pkg"@
    ||| name == "lib"@
    ||| name == "lib64"@
    ||| name == "obj"@
    ||| name == "out"@
    ||| name == "venv"@
    ||| name == "env"@
    ||| name == "tmp"@
    ||| name == "temp"@
    ||| name == "logs"@
    ||| name == "coverage"@
    ||| name == "backup"@
}

/// A hidden directory by the leading-dot convention.
pub open spec fn hidden_name(name: Seq<char>) -> bool {
    name.len() > 0 && name[0] == '.'
}

/// A directory with this name is skipped outright.
pub open spec fn skip_dir_name(name: Seq<char>) -> bool {
    blacklisted_name(name) || hidden_name(name)
}

pub fn is_blacklisted_name(name: &String) -> (r: bool)
    ensures
        r == blacklisted_name(name@),
{
    *name == String::from_str("target")
        || *name == String::from_str("node_modules")
        || *name == String::from_str("vendor")
        || *name == String::from_str("build")
        || *name == String::from_str("dist")
        || *name == String::from_str("bin")
        || *name == String::from_str("pkg")
        || *name == String::from_str("lib")
        || *name == String::from_str("lib64")
        || *name == String::from_str("obj")
        || *name == String::from_str("out")
        || *name == String::from_str("venv")
        || *name == String::from_str("env")
        || *name == String::from_str("tmp")
        || *name == String::from_str("temp")
        || *name == String::from_str("logs")
        || *name == String::from_str("coverage")
        || *name == String::from_str("backup")
}

pub fn is_hidden_name(name: &String) -> (r: bool)
    ensures
        r == hidden_name(name@),
{
    if name.as_str().is_empty() {
        false
    } else {
        name.as_str().get_char(0) == '.'
    }
}

pub fn is_skipped_dir_name(name: &String) -> (r: bool)
    ensures
        r == skip_dir_name(name@),
{
    is_blacklisted_name(name) || is_hidden_name(name)
}

/// Whether some ancestor directory of the path (every component except the
/// last) carries a blacklisted or hidden name.
pub open spec fn inside_blacklisted_spec(parts: Seq<Seq<char>>) -> bool {
    exists|i: int| 0 <= i < parts.len() - 1 && skip_dir_name(parts[i])
}

/// A path whose ancestors include a blacklisted or hidden directory is
/// invisible to discovery and to watcher classification, whatever the
/// validity predicate would say about the file itself.
pub fn is_this_inside_blacklisted_dir(path: &WsPath) -> (r: bool)
    ensures
        r == inside_blacklisted_spec(path@.parts),
{
    let n = path.parts.len();
    if n == 0 {
        return false;
    }
    let mut i: usize = 0;
    while i < n - 1
        invariant
            1 <= n == path@.parts.len(),
            0 <= i <= n - 1,
            forall|j: int| 0 <= j < i ==> !skip_dir_name(path@.parts[j]),
        decreases n - i,
    {
        if is_skipped_dir_name(&path.parts[i]) {
            assert(inside_blacklisted_spec(path@.parts)) by {
                assert(0 <= i < path@.parts.len() - 1 && skip_dir_name(path@.parts[i as int]));
            }
            return true;
        }
        i += 1;
    }
    false
}

/// A component that survives canonicalization: non-empty and not the
/// no-op `.` component.
pub open spec fn keep_part(p: Seq<char>) -> bool {
    p.len() > 0 && p != "."@
}

/// The canonical component list: the no-op components removed.
pub open spec fn canon_parts(parts: Seq<Seq<char>>) -> Seq<Seq<char>>
    decreases parts.len(),
{
    if parts.len() == 0 {
        Seq::empty()
    } else {
        let rest = canon_parts(parts.drop_last());
        if keep_part(parts.last()) {
            rest.push(parts.last())
        } else {
            rest
        }
    }
}

/// Every component of a canonical list survives canonicalization.
pub proof fn lemma_canon_parts_kept(parts: Seq<Seq<char>>)
    ensures
        forall|i: int| 0 <= i < canon_parts(parts).len() ==> keep_part(#[trigger] canon_parts(parts)[i]),
    decreases parts.len(),
{
    if parts.len() > 0 {
        lemma_canon_parts_kept(parts.drop_last());
        let rest = canon_parts(parts.drop_last());
        assert forall|i: int| 0 <= i < canon_parts(parts).len() implies keep_part(
            canon_parts(parts)[i],
        ) by {
            if keep_part(parts.last()) {
                if i < rest.len() {
                    assert(canon_parts(parts)[i] == rest[i]);
                } else {
                    assert(canon_parts(parts)[i] == parts.last());
                }
            } else {
                assert(canon_parts(parts)[i] == rest[i]);
            }
        }
    }
}

/// Canonicalization leaves an already canonical list unchanged.
pub proof fn lemma_canon_parts_identity(parts: Seq<Seq<char>>)
    requires
        forall|i: int| 0 <= i < parts.len() ==> keep_part(#[trigger] parts[i]),
    ensures
        canon_parts(parts) == parts,
    decreases parts.len(),
{
    if parts.len() == 0 {
        assert(canon_parts(parts) =~= parts);
    } else {
        lemma_canon_parts_identity(parts.drop_last());
        assert(canon_parts(parts) =~= parts);
    }
}

/// Canonicalization is idempotent.
pub proof fn lemma_canon_parts_idempotent(parts: Seq<Seq<char>>)
    ensures
        canon_parts(canon_parts(parts)) == canon_parts(parts),
{
    lemma_canon_parts_kept(parts);
    lemma_canon_parts_identity(canon_parts(parts));
}

/// The canonical form of a component list.
pub fn canonical_parts(parts: &Vec<String>) -> (r: Vec<String>)
    ensures
        r.deep_view() == canon_parts(parts.deep_view()),
{
    let n = parts.len();
    let mut out: Vec<String> = Vec::new();
    let mut i: usize = 0;
    while i < n
        invariant
            n == parts.len(),
            0 <= i <= n,
            out.deep_view() == canon_parts(parts.deep_view().take(i as int)),
        decreases n - i,
    {
        proof {
            assert(parts.deep_view().take(i + 1).drop_last() =~= parts.deep_view().take(
                i as int,
            ));
            assert(parts.deep_view().take(i + 1).last() == parts.deep_view()[i as int]);
        }
        let p = &parts[i];
        if !p.as_str().is_empty() && !(*p == String::from_str(".")) {
            out.push(p.clone());
            proof {
                assert(out.deep_view() =~= canon_parts(parts.deep_view().take(i + 1)));
            }
        } else {
            assert(out.deep_view() == canon_parts(parts.deep_view().take(i + 1)));
        }
        i += 1;
    }
    proof {
        assert(parts.deep_view().take(n as int) =~= parts.deep_view());
    }
    out
}

/// The textual form of a root-anchored path: `/` for the root itself,
/// otherwise `/` before each component.
pub open spec fn path_string(parts: Seq<Seq<char>>) -> Seq<char> {
    if parts.len() == 0 {
        "/"@
    } else {
        joined_from_root(parts)
    }
}

pub open spec fn joined_from_root(parts: Seq<Seq<char>>) -> Seq<char>
    decreases parts.len(),
{
    if parts.len() == 0 {
        Seq::empty()
    } else {
        joined_from_root(parts.drop_last()) + "/"@ + parts.last()
    }
}

/// Renders a path as its root-anchored textual form.
pub fn join_components(path: &WsPath) -> (r: String)
    ensures
        r@ == path_string(path@.parts),
{
    let n = path.parts.len();
    if n == 0 {
        return String::from_str("/");
    }
    let mut s = String::new();
    let mut i: usize = 0;
    while i < n
        invariant
            n == path.parts.len(),
            n == path@.parts.len(),
            0 <= i <= n,
            s@ == joined_from_root(path@.parts.take(i as int)),
        decreases n - i,
    {
        proof {
            assert(path@.parts.take(i + 1).drop_last() =~= path@.parts.take(i as int));
            assert(path@.parts.take(i + 1).last() == path@.parts[i as int]);
        }
        s.append("/");
        s.append(path.parts[i].as_str());
        i += 1;
    }
    proof {
        assert(path@.parts.take(n as int) =~= path@.parts);
    }
    s
}

/// Splitting a character sequence on a separator; the separator itself is
/// dropped, empty pieces are kept.
pub open spec fn split_char(s: Seq<char>, sep: char) -> Seq<Seq<char>>
    decreases s.len(),
{
    if s.len() == 0 {
        seq![Seq::empty()]
    } else {
        let rest = split_char(s.drop_last(), sep);
        if s.last() == sep {
            rest.push(Seq::empty())
        } else {
            rest.update(rest.len() - 1, rest.last().push(s.last()))
        }
    }
}

proof fn lemma_split_char_len(s: Seq<char>, sep: char)
    ensures
        split_char(s, sep).len() >= 1,
    decreases s.len(),
{
    if s.len() > 0 {
        lemma_split_char_len(s.drop_last(), sep);
    }
}

/// Splits a string on a separator character, exactly as [`split_char`] says.
pub fn split_string(s: &str, sep: char) -> (r: Vec<String>)
    ensures
        r.deep_view() == split_char(s@, sep),
{
    let n = s.unicode_len();
    let mut r: Vec<String> = Vec::new();
    let mut start: usize = 0;
    let mut i: usize = 0;
    proof {
        assert(s@.subrange(0, 0) =~= Seq::<char>::empty());
        assert(s@.take(0) =~= Seq::<char>::empty());
        assert(r.deep_view().push(s@.subrange(0, 0)) =~= split_char(s@.take(0), sep));
    }
    while i < n
        invariant
            n == s@.len(),
            0 <= start <= i <= n,
            r.deep_view().push(s@.subrange(start as int, i as int)) == split_char(
                s@.take(i as int),
                sep,
            ),
        decreases n - i,
    {
        proof {
            assert(s@.take(i + 1).drop_last() =~= s@.take(i as int));
            assert(s@.take(i + 1).last() == s@[i as int]);
            lemma_split_char_len(s@.take(i as int), sep);
        }
        let c = s.get_char(i);
        if c == sep {
            r.push(String::from_str(s.substring_char(start, i)));
            proof {
                assert(r.deep_view() =~= split_char(s@.take(i as int), sep));
                assert(s@.subrange(i + 1, i + 1) =~= Seq::<char>::empty());
                assert(r.deep_view().push(s@.subrange(i + 1, i + 1)) =~= split_char(
                    s@.take(i + 1),
                    sep,
                ));
            }
            start = i + 1;
        } else {
            proof {
                let prev = split_char(s@.take(i as int), sep);
                assert(prev.last() == s@.subrange(start as int, i as int));
                assert(prev.drop_last() =~= r.deep_view());
                assert(s@.subrange(start as int, i as int).push(s@[i as int]) =~= s@.subrange(
                    start as int,
                    i + 1,
                ));
                assert(r.deep_view().push(s@.subrange(start as int, i + 1)) =~= split_char(
                    s@.take(i + 1),
                    sep,
                ));
            }
        }
        i += 1;
    }
    r.push(String::from_str(s.substring_char(start, n)));
    proof {
        assert(s@.take(n as int) =~= s@);
        assert(r.deep_view() =~= split_char(s@, sep));
    }
    r
}

} // verus!
