//! The workspace state store: workspace folders, the known-files set, the
//! open-document overlay and the staleness flag, with the atomic operations
//! the editor-facing handlers and the watcher apply to them.
//!
//! Each operation works on the whole store value behind `&mut self`; a
//! caller that shares the store puts it behind a lock and holds the lock
//! exactly for the duration of one operation, so concurrent readers see
//! either the state before an operation or the state after it, never a
//! half-applied one.

use vstd::prelude::*;
use vstd::pervasive::VecAdditionalExecFns;
use vstd::string::StringExecFns;

use crate::documents::Document;
use crate::documents::DocumentInfo;
use crate::documents::DocumentView;
use crate::documents::rope_from_str;
use crate::documents::rope_to_string;
use crate::identity::FileIdentity;
use crate::identity::FileIdentityView;
use crate::identity::same_identity;
use crate::paths::WsPath;
use crate::paths::WsPathView;
use crate::paths::same_path;

verus! {

/// The overlay entries as a map from canonical path to document value.
pub open spec fn overlay_map_of(s: Seq<(FileIdentity, Document)>) -> Map<
    Seq<Seq<char>>,
    DocumentView,
>
    decreases s.len(),
{
    if s.len() == 0 {
        Map::empty()
    } else {
        overlay_map_of(s.drop_last()).insert(s.last().0@.parts, s.last().1@)
    }
}

/// No two overlay entries share a key.
pub open spec fn entries_distinct(s: Seq<(FileIdentity, Document)>) -> bool {
    forall|i: int, j: int|
        0 <= i < j < s.len() ==> (#[trigger] s[i]).0@.parts != (#[trigger] s[j]).0@.parts
}

proof fn lemma_entries_distinct_drop_last(s: Seq<(FileIdentity, Document)>)
    requires
        entries_distinct(s),
        s.len() > 0,
    ensures
        entries_distinct(s.drop_last()),
{
    assert forall|i: int, j: int| 0 <= i < j < s.drop_last().len() implies (#[trigger] s.drop_last()[i]).0@.parts
        != (#[trigger] s.drop_last()[j]).0@.parts by {
        assert(s.drop_last()[i] == s[i]);
        assert(s.drop_last()[j] == s[j]);
    }
}

proof fn lemma_overlay_contains(s: Seq<(FileIdentity, Document)>, k: Seq<Seq<char>>)
    ensures
        overlay_map_of(s).contains_key(k) <==> exists|i: int|
            0 <= i < s.len() && (#[trigger] s[i]).0@.parts == k,
    decreases s.len(),
{
    if s.len() > 0 {
        lemma_overlay_contains(s.drop_last(), k);
        if s.last().0@.parts == k {
            assert(s[s.len() - 1].0@.parts == k);
        } else {
            if exists|i: int| 0 <= i < s.len() && (#[trigger] s[i]).0@.parts == k {
                let i = choose|i: int| 0 <= i < s.len() && (#[trigger] s[i]).0@.parts == k;
                assert(s.drop_last()[i] == s[i]);
            }
        }
    }
}

proof fn lemma_overlay_value(s: Seq<(FileIdentity, Document)>, i: int)
    requires
        entries_distinct(s),
        0 <= i < s.len(),
    ensures
        overlay_map_of(s).contains_key(s[i].0@.parts),
        overlay_map_of(s)[s[i].0@.parts] == s[i].1@,
    decreases s.len(),
{
    if i < s.len() - 1 {
        lemma_entries_distinct_drop_last(s);
        assert(s.drop_last()[i] == s[i]);
        lemma_overlay_value(s.drop_last(), i);
        assert(s[s.len() - 1].0@.parts != s[i].0@.parts);
    }
}

proof fn lemma_overlay_update(s: Seq<(FileIdentity, Document)>, i: int, e: (FileIdentity, Document))
    requires
        entries_distinct(s),
        0 <= i < s.len(),
        e.0@.parts == s[i].0@.parts,
    ensures
        overlay_map_of(s.update(i, e)) == overlay_map_of(s).insert(e.0@.parts, e.1@),
        entries_distinct(s.update(i, e)),
    decreases s.len(),
{
    let t = s.update(i, e);
    assert forall|x: int, y: int| 0 <= x < y < t.len() implies (#[trigger] t[x]).0@.parts
        != (#[trigger] t[y]).0@.parts by {
        assert(t[x].0@.parts == s[x].0@.parts);
        assert(t[y].0@.parts == s[y].0@.parts);
    }
    if i == s.len() - 1 {
        assert(t.drop_last() =~= s.drop_last());
        assert(overlay_map_of(t) =~= overlay_map_of(s).insert(e.0@.parts, e.1@));
    } else {
        lemma_entries_distinct_drop_last(s);
        assert(s.drop_last()[i] == s[i]);
        lemma_overlay_update(s.drop_last(), i, e);
        assert(t.drop_last() =~= s.drop_last().update(i, e));
        assert(t.last() == s.last());
        assert(s.last().0@.parts != e.0@.parts);
        assert(overlay_map_of(t) =~= overlay_map_of(s).insert(e.0@.parts, e.1@));
    }
}

proof fn lemma_overlay_remove_at(s: Seq<(FileIdentity, Document)>, i: int)
    requires
        entries_distinct(s),
        0 <= i < s.len(),
    ensures
        overlay_map_of(s.remove(i)) == overlay_map_of(s).remove(s[i].0@.parts),
        entries_distinct(s.remove(i)),
    decreases s.len(),
{
    let t = s.remove(i);
    let k = s[i].0@.parts;
    assert forall|x: int, y: int| 0 <= x < y < t.len() implies (#[trigger] t[x]).0@.parts
        != (#[trigger] t[y]).0@.parts by {
        let sx: int = if x < i {
            x
        } else {
            x + 1
        };
        let sy: int = if y < i {
            y
        } else {
            y + 1
        };
        assert(t[x] == s[sx]);
        assert(t[y] == s[sy]);
    }
    if i == s.len() - 1 {
        assert(t =~= s.drop_last());
        lemma_overlay_contains(s.drop_last(), k);
        lemma_entries_distinct_drop_last(s);
        assert forall|j: int| 0 <= j < s.drop_last().len() implies (#[trigger] s.drop_last()[j]).0@.parts
            != k by {
            assert(s.drop_last()[j] == s[j]);
        }
        assert(overlay_map_of(s.drop_last()).remove(k) =~= overlay_map_of(s.drop_last()));
        assert(overlay_map_of(t) =~= overlay_map_of(s).remove(k));
    } else {
        lemma_entries_distinct_drop_last(s);
        assert(s.drop_last()[i] == s[i]);
        lemma_overlay_remove_at(s.drop_last(), i);
        assert(t.drop_last() =~= s.drop_last().remove(i));
        assert(t.last() == s.last());
        assert(s.last().0@.parts != k);
        assert(overlay_map_of(t) =~= overlay_map_of(s).remove(k));
    }
}

/// Whether a component list is among the known files.
pub open spec fn files_contain(files: Seq<FileIdentityView>, parts: Seq<Seq<char>>) -> bool {
    exists|i: int| 0 <= i < files.len() && (#[trigger] files[i]).parts == parts
}

/// The folder list with every occurrence of one folder taken out.
pub open spec fn folders_without(folders: Seq<WsPathView>, p: WsPathView) -> Seq<WsPathView>
    decreases folders.len(),
{
    if folders.len() == 0 {
        Seq::empty()
    } else {
        let rest = folders_without(folders.drop_last(), p);
        if folders.last() == p {
            rest
        } else {
            rest.push(folders.last())
        }
    }
}

/// The aggregate state of the workspace.
pub struct DocumentsState {
    pub workspace_folders: Vec<WsPath>,
    pub workspace_files: Vec<FileIdentity>,
    pub document_map: Vec<(FileIdentity, Document)>,
    pub cache_dirty: bool,
    pub cache_correction: Vec<(String, String)>,
    pub cache_fuzzy: Vec<String>,
}

/// The mathematical value of a [`DocumentsState`].
#[verifier::ext_equal]
pub struct DocumentsStateView {
    pub workspace_folders: Seq<WsPathView>,
    pub workspace_files: Seq<FileIdentityView>,
    pub overlay: Map<Seq<Seq<char>>, DocumentView>,
    pub cache_dirty: bool,
    pub cache_correction: Seq<(Seq<char>, Seq<char>)>,
    pub cache_fuzzy: Seq<Seq<char>>,
}

impl View for DocumentsState {
    type V = DocumentsStateView;

    open spec fn view(&self) -> DocumentsStateView {
        DocumentsStateView {
            workspace_folders: self.workspace_folders.deep_view(),
            workspace_files: self.workspace_files.deep_view(),
            overlay: overlay_map_of(self.document_map@),
            cache_dirty: self.cache_dirty,
            cache_correction: self.cache_correction.deep_view(),
            cache_fuzzy: self.cache_fuzzy.deep_view(),
        }
    }
}

/// The state after an atomic full rebuild of the known-files set.
pub open spec fn rebuilt(sv: DocumentsStateView, ids: Seq<FileIdentityView>) -> DocumentsStateView {
    DocumentsStateView { workspace_files: ids, cache_dirty: true, ..sv }
}

impl DocumentsState {
    /// No two overlay entries share a key.
    pub open spec fn wf(&self) -> bool {
        entries_distinct(self.document_map@)
    }

    /// The store at process start: the given discovery roots, nothing
    /// known, nothing open, caches clean and empty.
    pub fn empty(workspace_dirs: Vec<WsPath>) -> (r: DocumentsState)
        ensures
            r.wf(),
            r@.workspace_folders == workspace_dirs.deep_view(),
            r@.workspace_files == Seq::<FileIdentityView>::empty(),
            r@.overlay == Map::<Seq<Seq<char>>, DocumentView>::empty(),
            r@.cache_dirty == false,
            r@.cache_correction == Seq::<(Seq<char>, Seq<char>)>::empty(),
            r@.cache_fuzzy == Seq::<Seq<char>>::empty(),
    {
        let r = DocumentsState {
            workspace_folders: workspace_dirs,
            workspace_files: Vec::new(),
            document_map: Vec::new(),
            cache_dirty: false,
            cache_correction: Vec::new(),
            cache_fuzzy: Vec::new(),
        };
        proof {
            assert(r@.workspace_files =~= Seq::<FileIdentityView>::empty());
            assert(r@.cache_correction =~= Seq::<(Seq<char>, Seq<char>)>::empty());
            assert(r@.cache_fuzzy =~= Seq::<Seq<char>>::empty());
        }
        r
    }

    fn find_doc_index(&self, id: &FileIdentity) -> (r: Option<usize>)
        ensures
            match r {
                Some(i) => 0 <= i < self.document_map@.len() && self.document_map@[i as int].0@.parts
                    == id@.parts,
                None => forall|i: int|
                    0 <= i < self.document_map@.len() ==> (#[trigger] self.document_map@[i]).0@.parts
                        != id@.parts,
            },
    {
        let n = self.document_map.len();
        let mut i: usize = 0;
        while i < n
            invariant
                n == self.document_map@.len(),
                0 <= i <= n,
                forall|j: int|
                    0 <= j < i ==> (#[trigger] self.document_map@[j]).0@.parts != id@.parts,
            decreases n - i,
        {
            if same_identity(&self.document_map[i].0, id) {
                return Some(i);
            }
            i += 1;
        }
        None
    }

    fn find_file_index(&self, id: &FileIdentity) -> (r: Option<usize>)
        ensures
            match r {
                Some(i) => 0 <= i < self@.workspace_files.len() && self@.workspace_files[i as int].parts
                    == id@.parts,
                None => !files_contain(self@.workspace_files, id@.parts),
            },
    {
        let n = self.workspace_files.len();
        let mut i: usize = 0;
        while i < n
            invariant
                n == self.workspace_files@.len(),
                self@.workspace_files.len() == n,
                0 <= i <= n,
                forall|j: int|
                    0 <= j < i ==> (#[trigger] self@.workspace_files[j]).parts != id@.parts,
            decreases n - i,
        {
            if same_identity(&self.workspace_files[i], id) {
                return Some(i);
            }
            i += 1;
        }
        None
    }

    /// An editor opened a file: the overlay now holds its buffer, and the
    /// derived caches are stale.  Returns the reference to propagate, so
    /// the indexers see the current content.
    pub fn open_document(&mut self, id: FileIdentity, language_id: String, text: &str) -> (r:
        DocumentInfo)
        requires
            old(self).wf(),
        ensures
            final(self).wf(),
            final(self)@.overlay == old(self)@.overlay.insert(
                id@.parts,
                DocumentView { language_id: language_id@, text: text@ },
            ),
            final(self)@.cache_dirty,
            final(self)@.workspace_folders == old(self)@.workspace_folders,
            final(self)@.workspace_files == old(self)@.workspace_files,
            final(self)@.cache_correction == old(self)@.cache_correction,
            final(self)@.cache_fuzzy == old(self)@.cache_fuzzy,
            r@.uri == id@,
            r@.document matches Some(d) && d.language_id == language_id@ && d.text == text@,
    {
        let doc = Document { language_id: language_id.clone(), text: rope_from_str(text) };
        let r = DocumentInfo { uri: id.duplicate(), document: Some(doc.duplicate()) };
        match self.find_doc_index(&id) {
            Some(i) => {
                proof {
                    lemma_overlay_update(self.document_map@, i as int, (id, doc));
                }
                self.document_map.set(i, (id, doc));
            },
            None => {
                proof {
                    let s = self.document_map@;
                    assert(s.push((id, doc)).drop_last() =~= s);
                    assert forall|x: int, y: int| 0 <= x < y < s.push((id, doc)).len() implies (#[trigger] s.push(
                        (id, doc),
                    )[x]).0@.parts != (#[trigger] s.push((id, doc))[y]).0@.parts by {
                        if y < s.len() {
                            assert(s.push((id, doc))[x] == s[x]);
                            assert(s.push((id, doc))[y] == s[y]);
                        } else {
                            assert(s.push((id, doc))[x] == s[x]);
                            assert(s.push((id, doc))[y] == (id, doc));
                        }
                    }
                }
                self.document_map.push((id, doc));
            },
        }
        self.cache_dirty = true;
        r
    }

    /// An editor reported an edit.  The overlay is updated (keeping the
    /// language it had, or `unknown` for a buffer never opened), and the
    /// caches are stale, as after every mutating operation.  An identity
    /// the known-files set never learned about is inserted there too; the
    /// caller logs the consistency warning when the returned flag says the
    /// identity was unknown.
    pub fn change_document(&mut self, id: FileIdentity, text: &str) -> (r: (DocumentInfo, bool))
        requires
            old(self).wf(),
        ensures
            final(self).wf(),
            final(self)@.overlay == old(self)@.overlay.insert(
                id@.parts,
                DocumentView {
                    language_id: if old(self)@.overlay.contains_key(id@.parts) {
                        old(self)@.overlay[id@.parts].language_id
                    } else {
                        "unknown"@
                    },
                    text: text@,
                },
            ),
            r.1 == files_contain(old(self)@.workspace_files, id@.parts),
            final(self)@.workspace_files == if r.1 {
                old(self)@.workspace_files
            } else {
                old(self)@.workspace_files.push(id@)
            },
            final(self)@.cache_dirty,
            final(self)@.workspace_folders == old(self)@.workspace_folders,
            final(self)@.cache_correction == old(self)@.cache_correction,
            final(self)@.cache_fuzzy == old(self)@.cache_fuzzy,
            r.0@.uri == id@,
            r.0@.document matches Some(d) && d.text == text@,
    {
        let was_known = match self.find_file_index(&id) {
            Some(_) => true,
            None => {
                self.workspace_files.push(id.duplicate());
                proof {
                    assert(self.workspace_files.deep_view() =~= old(
                        self,
                    )@.workspace_files.push(id@));
                }
                false
            },
        };
        let language_id = match self.find_doc_index(&id) {
            Some(i) => self.document_map[i].1.language_id.clone(),
            None => String::from_str("unknown"),
        };
        proof {
            lemma_overlay_contains(self.document_map@, id@.parts);
        }
        let doc = Document { language_id, text: rope_from_str(text) };
        let r = DocumentInfo { uri: id.duplicate(), document: Some(doc.duplicate()) };
        match self.find_doc_index(&id) {
            Some(i) => {
                proof {
                    lemma_overlay_value(self.document_map@, i as int);
                    lemma_overlay_update(self.document_map@, i as int, (id, doc));
                }
                self.document_map.set(i, (id, doc));
            },
            None => {
                proof {
                    let s = self.document_map@;
                    assert(s.push((id, doc)).drop_last() =~= s);
                    assert forall|x: int, y: int| 0 <= x < y < s.push((id, doc)).len() implies (#[trigger] s.push(
                        (id, doc),
                    )[x]).0@.parts != (#[trigger] s.push((id, doc))[y]).0@.parts by {
                        if y < s.len() {
                            assert(s.push((id, doc))[x] == s[x]);
                            assert(s.push((id, doc))[y] == s[y]);
                        } else {
                            assert(s.push((id, doc))[x] == s[x]);
                            assert(s.push((id, doc))[y] == (id, doc));
                        }
                    }
                }
                self.document_map.push((id, doc));
            },
        }
        self.cache_dirty = true;
        (r, was_known)
    }

    /// An editor closed a file, or the file was deleted: the overlay entry
    /// is dropped and content authority reverts to disk.
    pub fn close_or_delete_document(&mut self, id: &FileIdentity)
        requires
            old(self).wf(),
        ensures
            final(self).wf(),
            final(self)@.overlay == old(self)@.overlay.remove(id@.parts),
            final(self)@.cache_dirty,
            final(self)@.workspace_folders == old(self)@.workspace_folders,
            final(self)@.workspace_files == old(self)@.workspace_files,
            final(self)@.cache_correction == old(self)@.cache_correction,
            final(self)@.cache_fuzzy == old(self)@.cache_fuzzy,
    {
        match self.find_doc_index(id) {
            Some(i) => {
                proof {
                    lemma_overlay_remove_at(self.document_map@, i as int);
                }
                self.document_map.remove(i);
            },
            None => {
                proof {
                    lemma_overlay_contains(self.document_map@, id@.parts);
                    assert(overlay_map_of(self.document_map@).remove(id@.parts) =~= overlay_map_of(
                        self.document_map@,
                    ));
                }
            },
        }
        self.cache_dirty = true;
    }

    /// The current text of a file held in memory: the overlay text whenever
    /// an overlay exists.  Only when this returns nothing may a reader go
    /// to the disk.
    pub fn read_current(&self, id: &FileIdentity) -> (r: Option<String>)
        requires
            self.wf(),
        ensures
            match r {
                Some(t) => self@.overlay.contains_key(id@.parts) && t@
                    == self@.overlay[id@.parts].text,
                None => !self@.overlay.contains_key(id@.parts),
            },
    {
        proof {
            lemma_overlay_contains(self.document_map@, id@.parts);
        }
        match self.find_doc_index(id) {
            Some(i) => {
                proof {
                    lemma_overlay_value(self.document_map@, i as int);
                }
                Some(rope_to_string(&self.document_map[i].1.text))
            },
            None => None,
        }
    }

    /// A copy of the known-files set, taken under one lock acquisition.
    pub fn snapshot_known_files(&self) -> (r: Vec<FileIdentity>)
        ensures
            r.deep_view() == self@.workspace_files,
    {
        let n = self.workspace_files.len();
        let mut out: Vec<FileIdentity> = Vec::new();
        let mut i: usize = 0;
        while i < n
            invariant
                n == self.workspace_files@.len(),
                0 <= i <= n,
                out@.len() == i,
                out.deep_view() == self@.workspace_files.take(i as int),
            decreases n - i,
        {
            out.push(self.workspace_files[i].duplicate());
            proof {
                assert(out@.len() == i + 1);
                assert forall|j: int| 0 <= j < i + 1 implies out.deep_view()[j]
                    == self@.workspace_files.take(i + 1)[j] by {
                    if j < i {
                        assert(out.deep_view()[j] == self@.workspace_files.take(i as int)[j]);
                    }
                }
                assert(out.deep_view() =~= self@.workspace_files.take(i + 1));
            }
            i += 1;
        }
        proof {
            assert(out.deep_view() =~= self@.workspace_files);
        }
        out
    }

    /// The atomic full rebuild: the known-files set is replaced outright —
    /// cleared and repopulated in one step, under one `&mut` borrow — and
    /// the caches are marked stale.  A reader before the call sees the old
    /// set, a reader after it the new one; no in-between state exists.
    pub fn rebuild_known_files(&mut self, ids: Vec<FileIdentity>)
        ensures
            final(self)@ == rebuilt(old(self)@, ids.deep_view()),
            final(self).wf() == old(self).wf(),
    {
        self.workspace_files = ids;
        self.cache_dirty = true;
        proof {
            assert(final(self)@ =~= rebuilt(old(self)@, self.workspace_files.deep_view()));
        }
    }

    /// Newly created files become known, and the caches are stale.
    pub fn append_known_files(&mut self, mut ids: Vec<FileIdentity>)
        ensures
            final(self)@ == (DocumentsStateView {
                workspace_files: old(self)@.workspace_files + ids.deep_view(),
                cache_dirty: true,
                ..old(self)@
            }),
            final(self).wf() == old(self).wf(),
    {
        let ghost added = ids.deep_view();
        self.workspace_files.append(&mut ids);
        self.cache_dirty = true;
        proof {
            assert(self.workspace_files.deep_view() =~= old(self)@.workspace_files + added);
            assert(final(self)@ =~= DocumentsStateView {
                workspace_files: old(self)@.workspace_files + added,
                cache_dirty: true,
                ..old(self)@
            });
        }
    }

    /// A new discovery root.  The caller starts a watch subscription and a
    /// discovery walk for it afterwards.
    pub fn add_folder(&mut self, path: WsPath)
        ensures
            final(self)@ == (DocumentsStateView {
                workspace_folders: old(self)@.workspace_folders.push(path@),
                cache_dirty: true,
                ..old(self)@
            }),
            final(self).wf() == old(self).wf(),
    {
        self.workspace_folders.push(path);
        self.cache_dirty = true;
        proof {
            assert(self.workspace_folders.deep_view() =~= old(self)@.workspace_folders.push(
                self.workspace_folders@.last()@,
            ));
            assert(final(self)@ =~= DocumentsStateView {
                workspace_folders: final(self)@.workspace_folders,
                cache_dirty: true,
                ..old(self)@
            });
        }
    }

    /// A discovery root is gone.  The caller drops its watch subscription,
    /// resets the indexers and runs a full rediscovery afterwards.
    pub fn remove_folder(&mut self, path: &WsPath)
        ensures
            final(self)@ == (DocumentsStateView {
                workspace_folders: folders_without(old(self)@.workspace_folders, path@),
                cache_dirty: true,
                ..old(self)@
            }),
            final(self).wf() == old(self).wf(),
    {
        let n = self.workspace_folders.len();
        let mut kept: Vec<WsPath> = Vec::new();
        let mut i: usize = 0;
        while i < n
            invariant
                n == self.workspace_folders@.len(),
                0 <= i <= n,
                kept.deep_view() == folders_without(
                    self@.workspace_folders.take(i as int),
                    path@,
                ),
            decreases n - i,
        {
            proof {
                assert(self@.workspace_folders.take(i + 1).drop_last() =~= self@.workspace_folders.take(
                    i as int,
                ));
                assert(self@.workspace_folders.take(i + 1).last() == self@.workspace_folders[i as int]);
            }
            if !same_path(&self.workspace_folders[i], path) {
                kept.push(self.workspace_folders[i].duplicate());
                proof {
                    assert(kept.deep_view() =~= folders_without(
                        self@.workspace_folders.take(i + 1),
                        path@,
                    ));
                }
            } else {
                assert(kept.deep_view() == folders_without(
                    self@.workspace_folders.take(i + 1),
                    path@,
                ));
            }
            i += 1;
        }
        proof {
            assert(self@.workspace_folders.take(n as int) =~= self@.workspace_folders);
        }
        self.workspace_folders = kept;
        self.cache_dirty = true;
        proof {
            assert(final(self)@ =~= DocumentsStateView {
                workspace_folders: folders_without(old(self)@.workspace_folders, path@),
                cache_dirty: true,
                ..old(self)@
            });
        }
    }
}

/// What `readCurrent` yields, given what the disk would yield.
pub open spec fn read_current_spec(
    sv: DocumentsStateView,
    parts: Seq<Seq<char>>,
    disk: Seq<char>,
) -> Seq<char> {
    if sv.overlay.contains_key(parts) {
        sv.overlay[parts].text
    } else {
        disk
    }
}

/// Overlay precedence: for an identity with an active overlay, the current
/// text is the overlay text, whatever the on-disk content happens to be.
pub proof fn lemma_overlay_precedence(
    sv: DocumentsStateView,
    parts: Seq<Seq<char>>,
    disk_a: Seq<char>,
    disk_b: Seq<char>,
)
    requires
        sv.overlay.contains_key(parts),
    ensures
        read_current_spec(sv, parts, disk_a) == sv.overlay[parts].text,
        read_current_spec(sv, parts, disk_a) == read_current_spec(sv, parts, disk_b),
{
}

/// Discovery idempotence: a second rebuild from the same discovery result
/// changes nothing, and the known-files *set* does not depend on the order
/// in which discovery came across the files.
pub proof fn lemma_rebuild_idempotent(
    sv: DocumentsStateView,
    ids: Seq<FileIdentityView>,
    ids2: Seq<FileIdentityView>,
)
    requires
        ids2.to_multiset() == ids.to_multiset(),
    ensures
        rebuilt(rebuilt(sv, ids), ids) == rebuilt(sv, ids),
        rebuilt(sv, ids2).workspace_files.to_set() == rebuilt(sv, ids).workspace_files.to_set(),
{
    assert(rebuilt(rebuilt(sv, ids), ids) =~= rebuilt(sv, ids));
    broadcast use vstd::seq_lib::group_to_multiset_ensures;

    assert forall|x: FileIdentityView| #[trigger] ids2.to_set().contains(x)
        <==> ids.to_set().contains(x) by {
        assert(ids2.contains(x) <==> ids2.to_multiset().count(x) > 0);
        assert(ids.contains(x) <==> ids.to_multiset().count(x) > 0);
    }
    assert(ids2.to_set() =~= ids.to_set());
}

} // verus!
