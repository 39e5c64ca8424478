//! Documents: an editor buffer overlay (`Document`) and the unit passed
//! between components (`DocumentInfo`), a file identity plus, when the file
//! is open in an editor, its in-memory content.

use vstd::prelude::*;
use vstd::string::StringExecFns;

use crate::identity::FileIdentity;
use crate::identity::FileIdentityView;
use crate::identity::UnresolvableDomainError;
use crate::identity::identity_of;
use crate::identity::resolution_succeeds;
use crate::identity::resolve;
use crate::paths::WsPath;

verus! {

#[verifier::external_type_specification]
#[verifier::external_body]
pub struct ExRope(ropey::Rope);

/// The text a rope holds.
pub uninterp spec fn rope_text(r: ropey::Rope) -> Seq<char>;

/// Relies on `ropey::Rope::from_str`: the rope holds exactly the characters
/// of the given string.
#[verifier::external_body]
pub fn rope_from_str(s: &str) -> (r: ropey::Rope)
    ensures
        rope_text(r) == s@,
{
    ropey::Rope::from_str(s)
}

/// Relies on ropey's `Display` impl for `Rope` (through `ToString`): the
/// string returned holds exactly the characters the rope holds.
#[verifier::external_body]
pub fn rope_to_string(r: &ropey::Rope) -> (s: String)
    ensures
        s@ == rope_text(*r),
{
    r.to_string()
}

/// Relies on ropey's `Clone` impl for `Rope`: a clone holds the same text.
#[verifier::external_body]
pub fn rope_clone(r: &ropey::Rope) -> (c: ropey::Rope)
    ensures
        rope_text(c) == rope_text(*r),
{
    r.clone()
}

/// An in-memory buffer overlay for a file open in an editor, authoritative
/// over the on-disk content while it exists.
pub struct Document {
    pub language_id: String,
    pub text: ropey::Rope,
}

/// The mathematical value of a [`Document`].
#[verifier::ext_equal]
pub struct DocumentView {
    pub language_id: Seq<char>,
    pub text: Seq<char>,
}

impl View for Document {
    type V = DocumentView;

    open spec fn view(&self) -> DocumentView {
        DocumentView { language_id: self.language_id@, text: rope_text(self.text) }
    }
}

impl DeepView for Document {
    type V = DocumentView;

    open spec fn deep_view(&self) -> DocumentView {
        self.view()
    }
}

impl Document {
    pub fn new(language_id: String, text: ropey::Rope) -> (d: Document)
        ensures
            d@.language_id == language_id@,
            d@.text == rope_text(text),
    {
        Document { language_id, text }
    }

    /// A copy with the same mathematical value.
    pub fn duplicate(&self) -> (d: Document)
        ensures
            d@ == self@,
    {
        Document { language_id: self.language_id.clone(), text: rope_clone(&self.text) }
    }
}

/// A reference to a file plus, if it is open in an editor, its in-memory
/// overlay.  Constructed per operation; the overlay map is the only place
/// a `Document` lives long-term.
pub struct DocumentInfo {
    pub uri: FileIdentity,
    pub document: Option<Document>,
}

/// The mathematical value of a [`DocumentInfo`].
#[verifier::ext_equal]
pub struct DocumentInfoView {
    pub uri: FileIdentityView,
    pub document: Option<DocumentView>,
}

impl View for DocumentInfo {
    type V = DocumentInfoView;

    open spec fn view(&self) -> DocumentInfoView {
        DocumentInfoView { uri: self.uri@, document: self.document.deep_view() }
    }
}

impl DeepView for DocumentInfo {
    type V = DocumentInfoView;

    open spec fn deep_view(&self) -> DocumentInfoView {
        self.view()
    }
}

impl DocumentInfo {
    pub fn new(uri: FileIdentity) -> (d: DocumentInfo)
        ensures
            d@.uri == uri@,
            d@.document is None,
    {
        DocumentInfo { uri, document: None }
    }

    /// A copy with the same mathematical value.
    pub fn duplicate(&self) -> (d: DocumentInfo)
        ensures
            d@ == self@,
    {
        let document = match &self.document {
            Some(doc) => Some(doc.duplicate()),
            None => None,
        };
        DocumentInfo { uri: self.uri.duplicate(), document }
    }

    /// The reference without its overlay, as watcher classification and
    /// discovery hand files on (content is then read from disk downstream).
    /// No working directory is anchored here: a relative path fails.
    pub fn from_pathbuf(path: &WsPath) -> (r: Result<DocumentInfo, UnresolvableDomainError>)
        ensures
            r matches Ok(d) ==> {
                &&& d@.uri == identity_of(path@.parts)
                &&& d@.document is None
            },
            r is Ok <==> resolution_succeeds(path@, None),
    {
        match resolve(path, None) {
            Ok(uri) => Ok(DocumentInfo { uri, document: None }),
            Err(e) => Err(e),
        }
    }

    /// The reference with a fresh overlay holding the given text and no
    /// particular language.
    pub fn from_pathbuf_and_text(path: &WsPath, text: &str) -> (r: Result<
        DocumentInfo,
        UnresolvableDomainError,
    >)
        ensures
            r matches Ok(d) ==> {
                &&& d@.uri == identity_of(path@.parts)
                &&& d@.document matches Some(doc) && doc.text == text@ && doc.language_id
                    == "unknown"@
            },
            r is Ok <==> resolution_succeeds(path@, None),
    {
        match resolve(path, None) {
            Ok(uri) => Ok(
                DocumentInfo {
                    uri,
                    document: Some(
                        Document {
                            language_id: String::from_str("unknown"),
                            text: rope_from_str(text),
                        },
                    ),
                },
            ),
            Err(e) => Err(e),
        }
    }

    /// The path the reference points at.
    pub fn get_path(&self) -> (r: WsPath)
        ensures
            r@ == self.uri.path@,
    {
        self.uri.to_path()
    }

    /// The overlay text, if an overlay is attached.  Readers fall back to
    /// the on-disk content only when this returns nothing.
    pub fn in_memory_text(&self) -> (r: Option<String>)
        ensures
            match r {
                Some(t) => self@.document matches Some(doc) && t@ == doc.text,
                None => self@.document is None,
            },
    {
        match &self.document {
            Some(doc) => Some(rope_to_string(&doc.text)),
            None => None,
        }
    }
}

impl PartialEq for DocumentInfo {
    /// Two references are the same when they point at the same identity,
    /// whatever overlays they carry.
    fn eq(&self, other: &Self) -> (r: bool) {
        crate::identity::same_identity(&self.uri, &other.uri)
    }
}

impl vstd::std_specs::cmp::PartialEqSpecImpl for DocumentInfo {
    open spec fn obeys_eq_spec() -> bool {
        true
    }

    open spec fn eq_spec(&self, other: &Self) -> bool {
        self.uri@.parts == other.uri@.parts
    }
}

} // verus!
