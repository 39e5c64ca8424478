use workspace_files::discovery::DiscoveryWalk;
use workspace_files::documents::Document;
use workspace_files::documents::DocumentInfo;
use workspace_files::discovery::VcsKind;
use workspace_files::discovery::choose_vcs;
use workspace_files::discovery::list_command_args;
use workspace_files::discovery::marker_dir_name;
use workspace_files::discovery::parse_vcs_output;
use workspace_files::discovery::paths_to_documents;
use workspace_files::discovery::tool_name;
use workspace_files::identity::FileIdentity;
use workspace_files::identity::resolve;
use workspace_files::identity::same_identity;
use workspace_files::paths::WsPath;
use workspace_files::paths::is_this_inside_blacklisted_dir;
use workspace_files::paths::same_path;
use workspace_files::paths::split_string;
use workspace_files::propagate::apply_full_rebuild;
use workspace_files::propagate::plan_watch_batch;
use workspace_files::store::DocumentsState;
use workspace_files::watcher::FsEventKind;
use workspace_files::watcher::WatchDecision;
use workspace_files::watcher::classify_event;

fn abs(parts: &[&str]) -> WsPath {
    WsPath { absolute: true, parts: parts.iter().map(|s| s.to_string()).collect() }
}

fn rel(parts: &[&str]) -> WsPath {
    WsPath { absolute: false, parts: parts.iter().map(|s| s.to_string()).collect() }
}

fn ident(parts: &[&str]) -> FileIdentity {
    resolve(&abs(parts), None).unwrap_or_else(|_| panic!("resolve failed"))
}

#[test]
fn test_blacklisted_ancestor_detected() {
    assert!(is_this_inside_blacklisted_dir(&abs(&["ws", "build", "generated.rs"])));
    assert!(is_this_inside_blacklisted_dir(&abs(&["ws", "node_modules", "x", "y.js"])));
    assert!(is_this_inside_blacklisted_dir(&abs(&["ws", ".git", "config"])));
    assert!(!is_this_inside_blacklisted_dir(&abs(&["ws", "src", "a.rs"])));
    // only ancestors count: a hidden file name itself does not exclude it
    assert!(!is_this_inside_blacklisted_dir(&abs(&["ws", "src", ".hidden.rs"])));
}

#[test]
fn test_resolve_round_trip() {
    let first = ident(&["a", "b", "c.rs"]);
    let again = resolve(&first.to_path(), None).unwrap();
    assert!(same_identity(&first, &again));
    assert_eq!(first.url, again.url);
    assert_eq!(first.path.parts, again.path.parts);
}

#[test]
fn test_resolve_canonicalizes() {
    let messy = WsPath {
        absolute: true,
        parts: vec!["a".to_string(), ".".to_string(), "".to_string(), "b.rs".to_string()],
    };
    let id = resolve(&messy, None).unwrap();
    assert_eq!(id.path.parts, vec!["a".to_string(), "b.rs".to_string()]);
    let clean = ident(&["a", "b.rs"]);
    assert_eq!(id.url, clean.url);
}

#[test]
fn test_resolve_relative_needs_cwd() {
    assert!(resolve(&rel(&["src", "a.rs"]), None).is_err());
    let cwd = abs(&["home", "user"]);
    let id = resolve(&rel(&["src", "a.rs"]), Some(&cwd)).unwrap();
    assert_eq!(
        id.path.parts,
        vec!["home".to_string(), "user".to_string(), "src".to_string(), "a.rs".to_string()]
    );
    // a relative working directory is as good as none
    assert!(resolve(&rel(&["a.rs"]), Some(&rel(&["w"]))).is_err());
}

#[test]
fn test_resolve_url_encoding() {
    let id = ident(&["a b", "c.rs"]);
    assert_eq!(id.url, "file:///a%20b/c.rs");
    assert_eq!(ident(&["x", "y.rs"]).url, "file:///x/y.rs");
}

#[test]
fn test_overlay_precedence_and_known_files() {
    // an editor opens a file, then edits it; the overlay wins over any
    // on-disk content, and the edit makes the identity known
    let mut store = DocumentsState::empty(vec![abs(&["ws"])]);
    let id = ident(&["ws", "a.rs"]);
    store.open_document(id.duplicate(), "rust".to_string(), "fn main(){}");
    let (info, was_known) = store.change_document(id.duplicate(), "fn main(){println!()}");
    assert!(!was_known);
    assert_eq!(store.read_current(&id).unwrap(), "fn main(){println!()}");
    let known = store.snapshot_known_files();
    assert_eq!(known.len(), 1);
    assert!(same_identity(&known[0], &id));
    assert!(store.cache_dirty);
    assert_eq!(info.in_memory_text().unwrap(), "fn main(){println!()}");
}

#[test]
fn test_change_of_known_identity_gives_no_warning() {
    let mut store = DocumentsState::empty(vec![]);
    let id = ident(&["ws", "a.rs"]);
    let (_, first) = store.change_document(id.duplicate(), "one");
    let (_, second) = store.change_document(id.duplicate(), "two");
    assert!(!first);
    assert!(second);
    assert_eq!(store.read_current(&id).unwrap(), "two");
    assert_eq!(store.snapshot_known_files().len(), 1);
}

#[test]
fn test_every_change_marks_caches_stale() {
    // every mutating operation sets the staleness flag, an edit of an
    // already-known identity included
    let mut store = DocumentsState::empty(vec![]);
    let id = ident(&["ws", "a.rs"]);
    store.change_document(id.duplicate(), "one");
    store.cache_dirty = false;
    store.change_document(id.duplicate(), "two");
    assert!(store.cache_dirty);
}

#[test]
fn test_push_children_appends_all_entries_in_order() {
    let mut walk = DiscoveryWalk::new(&vec![]);
    let dir = abs(&["ws"]);
    let entries = vec![("src".to_string(), true), ("a.rs".to_string(), false)];
    walk.push_children(&dir, &entries);
    assert_eq!(walk.pending.len(), 2);
    assert!(same_path(&walk.pending[0], &abs(&["ws", "src"])));
    assert!(same_path(&walk.pending[1], &abs(&["ws", "a.rs"])));
}

#[test]
fn test_close_reverts_to_disk_authority() {
    let mut store = DocumentsState::empty(vec![]);
    let id = ident(&["ws", "a.rs"]);
    store.open_document(id.duplicate(), "rust".to_string(), "buffer text");
    assert!(store.read_current(&id).is_some());
    store.close_or_delete_document(&id);
    assert!(store.read_current(&id).is_none());
    assert!(store.cache_dirty);
}

#[test]
fn test_open_keeps_language_through_change() {
    let mut store = DocumentsState::empty(vec![]);
    let id = ident(&["ws", "a.py"]);
    store.open_document(id.duplicate(), "python".to_string(), "x = 1");
    let (info, _) = store.change_document(id.duplicate(), "x = 2");
    assert_eq!(info.document.as_ref().unwrap().language_id, "python");
}

#[test]
fn test_discovery_scenario_tracked_and_blacklisted() {
    // one folder: a.rs is tracked by version control, build/generated.rs
    // sits in a blacklisted directory; only a.rs is discovered
    let folder = abs(&["ws"]);
    let mut walk = DiscoveryWalk::new(&vec![folder.duplicate()]);
    let popped = walk.pop_candidate().unwrap();
    assert!(same_path(&popped, &folder));
    assert!(walk.enter_dir(&popped));
    let listed = walk.apply_dir_listing(&popped, Some("a.rs\n"));
    assert_eq!(listed.len(), 1);
    for p in listed {
        walk.note_file(p, Ok(()));
    }
    walk.note_file(abs(&["ws", "build", "generated.rs"]), Ok(()));
    assert_eq!(walk.found.len(), 1);
    assert!(same_path(&walk.found[0], &abs(&["ws", "a.rs"])));
}

#[test]
fn test_discovery_fallback_manual_walk() {
    // the tool failed with a non-zero exit: the caller falls back to the
    // manual expansion; valid files are found, blacklisted directories are
    // counted and skipped, invalid files are tallied by reason
    let folder = abs(&["ws"]);
    let mut walk = DiscoveryWalk::new(&vec![folder.duplicate()]);
    let root = walk.pop_candidate().unwrap();
    assert!(walk.enter_dir(&root));
    // no tool listing: the machine falls back to manual expansion, which
    // yields no direct files of its own
    let direct = walk.apply_dir_listing(&root, None);
    assert!(direct.is_empty());
    // what a one-level listing of /ws would hand back
    walk.pending = vec![
        abs(&["ws", "a.rs"]),
        abs(&["ws", "junk.bin"]),
        abs(&["ws", "build"]),
        abs(&["ws", "src"]),
    ];
    let src_dir = walk.pop_candidate().unwrap();
    assert!(walk.enter_dir(&src_dir));
    let build_dir = walk.pop_candidate().unwrap();
    assert!(!walk.enter_dir(&build_dir));
    let junk = walk.pop_candidate().unwrap();
    walk.note_file(junk, Err("binary file".to_string()));
    let good = walk.pop_candidate().unwrap();
    walk.note_file(good, Ok(()));
    assert!(walk.pop_candidate().is_none());
    assert_eq!(walk.found.len(), 1);
    assert!(same_path(&walk.found[0], &abs(&["ws", "a.rs"])));
    assert_eq!(walk.blacklisted_dirs, 1);
    assert_eq!(walk.rejected.len(), 1);
    assert_eq!(walk.rejected[0].0, "binary file");
    assert_eq!(walk.rejected[0].1, 1);
}

#[test]
fn test_rejection_tally_accumulates() {
    let mut walk = DiscoveryWalk::new(&vec![]);
    walk.note_file(abs(&["ws", "a.bin"]), Err("binary file".to_string()));
    walk.note_file(abs(&["ws", "b.bin"]), Err("binary file".to_string()));
    walk.note_file(abs(&["ws", "huge.log"]), Err("too large".to_string()));
    assert_eq!(walk.rejected.len(), 2);
    assert_eq!(walk.rejected[0].0, "binary file");
    assert_eq!(walk.rejected[0].1, 2);
    assert_eq!(walk.rejected[1].0, "too large");
    assert_eq!(walk.rejected[1].1, 1);
}

#[test]
fn test_vcs_priority_order() {
    assert_eq!(choose_vcs(true, true, true, true, true, true), Some(VcsKind::Git));
    assert_eq!(choose_vcs(true, false, true, true, true, true), Some(VcsKind::Hg));
    assert_eq!(choose_vcs(false, true, false, true, true, true), Some(VcsKind::Svn));
    assert_eq!(choose_vcs(false, false, false, false, true, false), None);
    assert_eq!(choose_vcs(false, false, false, false, false, false), None);
}

#[test]
fn test_vcs_commands() {
    assert_eq!(marker_dir_name(&VcsKind::Git), ".git");
    assert_eq!(marker_dir_name(&VcsKind::Hg), ".hg");
    assert_eq!(marker_dir_name(&VcsKind::Svn), ".svn");
    assert_eq!(tool_name(&VcsKind::Git), "git");
    assert_eq!(list_command_args(&VcsKind::Git), vec!["ls-files".to_string()]);
    assert_eq!(list_command_args(&VcsKind::Hg), vec!["status".to_string(), "-c".to_string()]);
    assert_eq!(list_command_args(&VcsKind::Svn), vec!["list".to_string(), "-R".to_string()]);
}

#[test]
fn test_parse_vcs_output_lines() {
    let dir = abs(&["ws"]);
    let paths = parse_vcs_output(&dir, "src/a.rs\nREADME.md\r\n\nb.rs");
    assert_eq!(paths.len(), 3);
    assert!(same_path(&paths[0], &abs(&["ws", "src", "a.rs"])));
    assert!(same_path(&paths[1], &abs(&["ws", "README.md"])));
    assert!(same_path(&paths[2], &abs(&["ws", "b.rs"])));
}

#[test]
fn test_split_string_keeps_empty_pieces() {
    let pieces = split_string("a/b//c", '/');
    assert_eq!(pieces, vec!["a".to_string(), "b".to_string(), "".to_string(), "c".to_string()]);
    assert_eq!(split_string("", '/'), vec!["".to_string()]);
}

#[test]
fn test_watcher_remove_inside_blacklist_ignored() {
    // scenario: a Remove event entirely inside a blacklisted directory
    // triggers nothing and the known-files set stays as it was
    let mut store = DocumentsState::empty(vec![abs(&["ws"])]);
    store.append_known_files(vec![ident(&["ws", "a.rs"])]);
    let paths = vec![abs(&["ws", "build", "gone.rs"])];
    let valid = vec![true];
    match classify_event(FsEventKind::RemoveFile, &paths, &valid) {
        WatchDecision::Ignore => {},
        _ => panic!("a blacklisted removal must be ignored"),
    }
    assert_eq!(store.snapshot_known_files().len(), 1);
}

#[test]
fn test_watcher_remove_outside_blacklist_rebuilds() {
    let paths = vec![abs(&["ws", "build", "gone.rs"]), abs(&["ws", "a.rs"])];
    let valid = vec![true, true];
    match classify_event(FsEventKind::RemoveFile, &paths, &valid) {
        WatchDecision::FullRebuild => {},
        _ => panic!("a removal that matters must trigger a full rebuild"),
    }
}

#[test]
fn test_watcher_create_becomes_known_and_enqueued() {
    // scenario: a Create event for a previously-unknown valid file; its
    // identity joins the known set and the batch goes to both indexers
    let mut store = DocumentsState::empty(vec![abs(&["ws"])]);
    let paths = vec![abs(&["ws", "new.rs"])];
    let valid = vec![true];
    match classify_event(FsEventKind::CreateFile, &paths, &valid) {
        WatchDecision::Reindex { paths: survivors, newly_created } => {
            assert!(newly_created);
            assert_eq!(survivors.len(), 1);
            let docs = paths_to_documents(&survivors);
            assert_eq!(docs.len(), 1);
            let ids: Vec<FileIdentity> = docs.iter().map(|d| d.uri.duplicate()).collect();
            store.append_known_files(ids);
            let plan = plan_watch_batch(docs);
            assert!(plan.structural_initial);
            assert!(!plan.semantic_initial);
            assert_eq!(plan.docs.len(), 1);
            assert!(same_identity(&plan.docs[0].uri, &ident(&["ws", "new.rs"])));
        },
        _ => panic!("a valid creation must be re-indexed"),
    }
    let known = store.snapshot_known_files();
    assert_eq!(known.len(), 1);
    assert!(same_identity(&known[0], &ident(&["ws", "new.rs"])));
    assert!(store.cache_dirty);
}

#[test]
fn test_watcher_modify_filters_blacklist_and_validity() {
    let paths = vec![
        abs(&["ws", "build", "x.rs"]),
        abs(&["ws", "bad.bin"]),
        abs(&["ws", "good.rs"]),
    ];
    let valid = vec![true, false, true];
    match classify_event(FsEventKind::ModifyContent, &paths, &valid) {
        WatchDecision::Reindex { paths: survivors, newly_created } => {
            assert!(!newly_created);
            assert_eq!(survivors.len(), 1);
            assert!(same_path(&survivors[0], &abs(&["ws", "good.rs"])));
        },
        _ => panic!("a surviving modification must be re-indexed"),
    }
}

#[test]
fn test_watcher_other_event_ignored() {
    let paths = vec![abs(&["ws", "a.rs"])];
    let valid = vec![true];
    match classify_event(FsEventKind::Other, &paths, &valid) {
        WatchDecision::Ignore => {},
        _ => panic!("other event kinds are dropped"),
    }
    match classify_event(FsEventKind::ModifyContent, &vec![], &vec![]) {
        WatchDecision::Ignore => {},
        _ => panic!("an empty surviving batch means nothing to do"),
    }
}

#[test]
fn test_full_rebuild_replaces_known_files() {
    // discovery is idempotent: the same result applied twice leaves the
    // same set, and the order of discovery does not matter to the set
    let mut store = DocumentsState::empty(vec![abs(&["ws"])]);
    store.append_known_files(vec![ident(&["ws", "stale.rs"])]);
    let docs_one = paths_to_documents(&vec![abs(&["ws", "a.rs"]), abs(&["ws", "b.rs"])]);
    let plan = apply_full_rebuild(&mut store, docs_one);
    assert!(!plan.structural_initial);
    assert!(plan.semantic_initial);
    let after_first = store.snapshot_known_files();
    assert_eq!(after_first.len(), 2);
    assert!(same_identity(&after_first[0], &ident(&["ws", "a.rs"])));
    assert!(same_identity(&after_first[1], &ident(&["ws", "b.rs"])));

    // same discovery again, in the other order
    let docs_two = paths_to_documents(&vec![abs(&["ws", "b.rs"]), abs(&["ws", "a.rs"])]);
    apply_full_rebuild(&mut store, docs_two);
    let after_second = store.snapshot_known_files();
    assert_eq!(after_second.len(), 2);
    assert!(after_second.iter().any(|k| same_identity(k, &ident(&["ws", "a.rs"]))));
    assert!(after_second.iter().any(|k| same_identity(k, &ident(&["ws", "b.rs"]))));
    // nothing of the pre-rebuild set survives
    assert!(!after_second.iter().any(|k| same_identity(k, &ident(&["ws", "stale.rs"]))));
}

#[test]
fn test_folder_list_maintenance() {
    let mut store = DocumentsState::empty(vec![abs(&["one"])]);
    store.add_folder(abs(&["two"]));
    assert_eq!(store.workspace_folders.len(), 2);
    store.remove_folder(&abs(&["one"]));
    assert_eq!(store.workspace_folders.len(), 1);
    assert!(same_path(&store.workspace_folders[0], &abs(&["two"])));
    assert!(store.cache_dirty);
}

#[test]
fn test_document_info_with_text() {
    let info = DocumentInfo::from_pathbuf_and_text(&abs(&["ws", "a.rs"]), "fn main(){}").unwrap();
    assert_eq!(info.in_memory_text().unwrap(), "fn main(){}");
    assert_eq!(info.document.as_ref().unwrap().language_id, "unknown");
    assert!(same_path(&info.get_path(), &abs(&["ws", "a.rs"])));
    assert!(DocumentInfo::from_pathbuf_and_text(&rel(&["a.rs"]), "x").is_err());
}

#[test]
fn test_document_info_equality_is_by_identity() {
    let bare = DocumentInfo::new(ident(&["ws", "a.rs"]));
    assert!(bare.in_memory_text().is_none());
    let with_overlay = DocumentInfo {
        uri: ident(&["ws", "a.rs"]),
        document: Some(Document::new("rust".to_string(), ropey::Rope::from_str("body"))),
    };
    // the overlay plays no part in equality: same identity, same reference
    assert!(bare == with_overlay);
    let other = DocumentInfo::new(ident(&["ws", "b.rs"]));
    assert!(!(bare == other));
}
