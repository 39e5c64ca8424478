//! The path/identity resolver: turns a filesystem path into the canonical,
//! location-independent identifier under which a file is tracked everywhere.

use vstd::prelude::*;

use crate::paths::WsPath;
use crate::paths::WsPathView;
use crate::paths::canon_parts;
use crate::paths::canonical_parts;
use crate::paths::clone_parts;
use crate::paths::join_components;
use crate::paths::keep_part;
use crate::paths::lemma_canon_parts_idempotent;
use crate::paths::lemma_canon_parts_kept;
use crate::paths::path_string;
use crate::paths::same_parts;

verus! {

/// The file URL the `url` crate builds for a given root-anchored path
/// string.  The encoding is a pure function of the path text.
pub uninterp spec fn file_url_of(path: Seq<char>) -> Seq<char>;

/// Whether the platform accepts a file URL for a given root-anchored path
/// string; like the encoding itself, a pure function of the path text.
pub uninterp spec fn file_url_ok(path: Seq<char>) -> bool;

/// Relies on `url::Url::from_file_path` (and `Url::as_str`): on the
/// platform this binary is built for, both the URL built from a path and
/// whether the conversion is accepted at all are pure functions of the
/// path text; another target may encode or accept the same text
/// differently.
#[verifier::external_body]
fn encode_file_url(path: &str) -> (r: Option<String>)
    ensures
        r matches Some(u) ==> u@ == file_url_of(path@),
        r is Some <==> file_url_ok(path@),
{
    match url::Url::from_file_path(std::path::Path::new(path)) {
        Ok(u) => Some(u.as_str().to_owned()),
        Err(_) => None,
    }
}

/// A canonical, platform-normalized identifier for a file: the file URL
/// under which it is tracked, together with the canonical absolute path it
/// was derived from.
pub struct FileIdentity {
    pub url: String,
    pub path: WsPath,
}

/// The mathematical value of a [`FileIdentity`].
#[verifier::ext_equal]
pub struct FileIdentityView {
    pub url: Seq<char>,
    pub parts: Seq<Seq<char>>,
}

impl View for FileIdentity {
    type V = FileIdentityView;

    open spec fn view(&self) -> FileIdentityView {
        FileIdentityView { url: self.url@, parts: self.path@.parts }
    }
}

impl DeepView for FileIdentity {
    type V = FileIdentityView;

    open spec fn deep_view(&self) -> FileIdentityView {
        self.view()
    }
}

/// Well-formedness: the path is absolute and canonical, and the URL is
/// exactly the encoding of that path.
pub open spec fn identity_wf(v: FileIdentityView) -> bool {
    &&& forall|i: int| 0 <= i < v.parts.len() ==> keep_part(#[trigger] v.parts[i])
    &&& v.url == file_url_of(path_string(v.parts))
}

/// The identity every resolution of a path arrives at.
pub open spec fn identity_of(parts: Seq<Seq<char>>) -> FileIdentityView {
    FileIdentityView {
        url: file_url_of(path_string(canon_parts(parts))),
        parts: canon_parts(parts),
    }
}

/// The path could not be turned into a canonical identity: it cannot be
/// made absolute, or the platform forbids a file URL for it.
#[derive(Clone, Copy, PartialEq, Eq, Structural, Debug)]
pub struct UnresolvableDomainError;

/// The absolute component list a resolution starts from.
pub open spec fn absolute_parts_of(path: WsPathView, cwd: Option<WsPathView>) -> Seq<Seq<char>> {
    if path.absolute {
        path.parts
    } else {
        cwd->Some_0.parts + path.parts
    }
}

/// Whether the path can be made absolute at all.
pub open spec fn resolvable(path: WsPathView, cwd: Option<WsPathView>) -> bool {
    path.absolute || (cwd matches Some(c) && c.absolute)
}

/// Exactly when resolution returns an identity: the path can be made
/// absolute, and the platform accepts a file URL for its canonical form.
pub open spec fn resolution_succeeds(path: WsPathView, cwd: Option<WsPathView>) -> bool {
    resolvable(path, cwd) && file_url_ok(
        path_string(canon_parts(absolute_parts_of(path, cwd))),
    )
}

pub open spec fn opt_path_view(cwd: Option<&WsPath>) -> Option<WsPathView> {
    match cwd {
        Some(c) => Some(c@),
        None => None,
    }
}

/// Resolves a path to its canonical identity.  A relative path is anchored
/// at the given working directory; with none, or with a working directory
/// that is itself not absolute, resolution fails.  Resolution is
/// deterministic, success included: whether an identity comes back, and
/// which, are functions of the inputs alone.
pub fn resolve(path: &WsPath, cwd: Option<&WsPath>) -> (r: Result<
    FileIdentity,
    UnresolvableDomainError,
>)
    ensures
        r matches Ok(id) ==> {
            &&& id@ == identity_of(absolute_parts_of(path@, opt_path_view(cwd)))
            &&& identity_wf(id@)
            &&& id.path@.absolute
        },
        r is Ok <==> resolution_succeeds(path@, opt_path_view(cwd)),
{
    let abs_parts: Vec<String> = if path.absolute {
        clone_parts(&path.parts)
    } else {
        match cwd {
            Some(c) => {
                if !c.absolute {
                    return Err(UnresolvableDomainError);
                }
                let mut v = clone_parts(&c.parts);
                let mut rel = clone_parts(&path.parts);
                v.append(&mut rel);
                proof {
                    assert(v.deep_view() =~= c@.parts + path@.parts);
                }
                v
            },
            None => {
                return Err(UnresolvableDomainError);
            },
        }
    };
    let canon = canonical_parts(&abs_parts);
    let p = WsPath { absolute: true, parts: canon };
    let s = join_components(&p);
    proof {
        lemma_canon_parts_kept(abs_parts.deep_view());
    }
    match encode_file_url(s.as_str()) {
        Some(u) => Ok(FileIdentity { url: u, path: p }),
        None => Err(UnresolvableDomainError),
    }
}

impl FileIdentity {
    /// A copy with the same mathematical value.
    pub fn duplicate(&self) -> (r: FileIdentity)
        ensures
            r@ == self@,
            r.path@ == self.path@,
    {
        FileIdentity { url: self.url.clone(), path: self.path.duplicate() }
    }

    /// The path an identity stands for.  Resolving it again yields the
    /// identical identity.
    pub fn to_path(&self) -> (r: WsPath)
        ensures
            r@ == self.path@,
    {
        self.path.duplicate()
    }
}

/// Identity equality, by the tracked path.  For well-formed identities the
/// URL is determined by the path, so this decides equality of the whole
/// mathematical value.
pub fn same_identity(a: &FileIdentity, b: &FileIdentity) -> (r: bool)
    ensures
        r == (a@.parts == b@.parts),
{
    same_parts(&a.path.parts, &b.path.parts)
}

/// Round trip: resolving the path behind an identity reaches the very same
/// identity, whatever component list the original resolution started from
/// — and that second resolution succeeds exactly when the first encoding
/// was accepted, so an identity's path always resolves again.
pub proof fn lemma_resolve_round_trip(parts: Seq<Seq<char>>)
    ensures
        identity_of(identity_of(parts).parts) == identity_of(parts),
        resolution_succeeds(
            (WsPathView { absolute: true, parts: identity_of(parts).parts }),
            None,
        ) == file_url_ok(path_string(canon_parts(parts))),
{
    lemma_canon_parts_idempotent(parts);
}

} // verus!
