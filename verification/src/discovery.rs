//! The discovery walk: version-control-aware, blacklist-aware enumeration
//! of the files under the workspace folders.
//!
//! The walk is a state machine.  It owns the pending-work stack, the found
//! files and the rejection tallies, and every decision — which directory to
//! skip, which file to keep, which version-control tool takes precedence —
//! is made here.  The caller drives the loop, performing the filesystem
//! probes, the tool invocation and the validity predicate (an external
//! collaborator), and hands each outcome back to the machine.

use vstd::prelude::*;
use vstd::string::StrSliceExecFns;
use vstd::string::StringExecFns;

use crate::documents::DocumentInfo;
use crate::documents::DocumentInfoView;
use crate::identity::FileIdentityView;
use crate::identity::identity_of;
use crate::identity::resolution_succeeds;
use crate::paths::WsPath;
use crate::paths::WsPathView;
use crate::paths::clone_parts;
use crate::paths::clone_paths;
use crate::paths::inside_blacklisted_spec;
use crate::paths::is_skipped_dir_name;
use crate::paths::is_this_inside_blacklisted_dir;
use crate::paths::join_components;
use crate::paths::skip_dir_name;
use crate::paths::split_char;
use crate::paths::split_string;

verus! {

/// The version-control systems discovery understands, in the fixed
/// priority order in which their markers are checked.
#[derive(Clone, Copy, PartialEq, Eq, Structural, Debug)]
pub enum VcsKind {
    Git,
    Hg,
    Svn,
}

pub open spec fn chosen_vcs(git_repo: bool, hg_repo: bool, svn_repo: bool) -> Option<VcsKind> {
    if git_repo {
        Some(VcsKind::Git)
    } else if hg_repo {
        Some(VcsKind::Hg)
    } else if svn_repo {
        Some(VcsKind::Svn)
    } else {
        None
    }
}

/// The fixed priority decision: the first system whose marker directory is
/// present and whose command-line tool is available wins.
pub fn choose_vcs(
    git_marker: bool,
    git_tool: bool,
    hg_marker: bool,
    hg_tool: bool,
    svn_marker: bool,
    svn_tool: bool,
) -> (r: Option<VcsKind>)
    ensures
        r == chosen_vcs(git_marker && git_tool, hg_marker && hg_tool, svn_marker && svn_tool),
{
    if git_marker && git_tool {
        Some(VcsKind::Git)
    } else if hg_marker && hg_tool {
        Some(VcsKind::Hg)
    } else if svn_marker && svn_tool {
        Some(VcsKind::Svn)
    } else {
        None
    }
}

pub open spec fn marker_name_spec(k: VcsKind) -> Seq<char> {
    match k {
        VcsKind::Git => ".git"@,
        VcsKind::Hg => ".hg"@,
        VcsKind::Svn => ".svn"@,
    }
}

/// The marker directory whose presence announces a repository.
pub fn marker_dir_name(k: &VcsKind) -> (r: String)
    ensures
        r@ == marker_name_spec(*k),
{
    match k {
        VcsKind::Git => String::from_str(".git"),
        VcsKind::Hg => String::from_str(".hg"),
        VcsKind::Svn => String::from_str(".svn"),
    }
}

pub open spec fn tool_name_spec(k: VcsKind) -> Seq<char> {
    match k {
        VcsKind::Git => "git"@,
        VcsKind::Hg => "hg"@,
        VcsKind::Svn => "svn"@,
    }
}

/// The command-line tool that lists the tracked files.
pub fn tool_name(k: &VcsKind) -> (r: String)
    ensures
        r@ == tool_name_spec(*k),
{
    match k {
        VcsKind::Git => String::from_str("git"),
        VcsKind::Hg => String::from_str("hg"),
        VcsKind::Svn => String::from_str("svn"),
    }
}

pub open spec fn list_args_spec(k: VcsKind) -> Seq<Seq<char>> {
    match k {
        VcsKind::Git => seq!["ls-files"@],
        VcsKind::Hg => seq!["status"@, "-c"@],
        VcsKind::Svn => seq!["list"@, "-R"@],
    }
}

/// The arguments of the "list tracked files" command, run with the
/// directory as working directory.
pub fn list_command_args(k: &VcsKind) -> (r: Vec<String>)
    ensures
        r.deep_view() == list_args_spec(*k),
{
    let mut r: Vec<String> = Vec::new();
    match k {
        VcsKind::Git => {
            r.push(String::from_str("ls-files"));
            proof {
                assert(r.deep_view() =~= list_args_spec(VcsKind::Git));
            }
        },
        VcsKind::Hg => {
            r.push(String::from_str("status"));
            r.push(String::from_str("-c"));
            proof {
                assert(r.deep_view() =~= list_args_spec(VcsKind::Hg));
            }
        },
        VcsKind::Svn => {
            r.push(String::from_str("list"));
            r.push(String::from_str("-R"));
            proof {
                assert(r.deep_view() =~= list_args_spec(VcsKind::Svn));
            }
        },
    }
    r
}

/// Relies on `std::path::Path::exists`: whether something exists on disk
/// at the given path right now.
#[verifier::external_body]
fn path_entry_exists(path: &str) -> bool {
    std::path::Path::new(path).exists()
}

/// Relies on `std::path::Path::is_file`: whether the path points at a
/// regular file right now.
#[verifier::external_body]
fn path_is_file(path: &str) -> bool {
    std::path::Path::new(path).is_file()
}

/// Relies on `std::path::Path::is_dir`: whether the path points at a
/// directory right now.
#[verifier::external_body]
fn path_is_dir(path: &str) -> bool {
    std::path::Path::new(path).is_dir()
}

/// Relies on `which::which`: whether the named executable can be found on
/// the search path of this process.
#[verifier::external_body]
fn tool_available(name: &str) -> bool {
    which::which(name).is_ok()
}

/// Relies on `walkdir::WalkDir` with a depth bound of one: the name and
/// directory flag of each entry directly below the root, the root itself
/// excluded, without following anything deeper.
#[verifier::external_body]
fn list_dir_shallow(dir: &str) -> Vec<(String, bool)> {
    walkdir::WalkDir::new(dir)
        .min_depth(1)
        .max_depth(1)
        .into_iter()
        .filter_map(|e| e.ok())
        .map(|e| (e.file_name().to_string_lossy().into_owned(), e.file_type().is_dir()))
        .collect()
}

/// What a probed path turned out to be.
#[derive(Clone, Copy, PartialEq, Eq, Structural, Debug)]
pub enum PathKind {
    File,
    Directory,
    Missing,
}

/// Probes what a candidate path is on disk right now.
pub fn classify_path(p: &WsPath) -> PathKind {
    let s = join_components(p);
    if path_is_file(s.as_str()) {
        PathKind::File
    } else if path_is_dir(s.as_str()) {
        PathKind::Directory
    } else {
        PathKind::Missing
    }
}

/// Probes the markers and tools for a directory and picks the
/// version-control system to delegate to, in the fixed priority order of
/// [`choose_vcs`]; nothing when no marked system has a usable tool.
pub fn select_vcs(dir: &WsPath) -> Option<VcsKind> {
    let git_marker_path = join_components(&dir.child(marker_dir_name(&VcsKind::Git)));
    let hg_marker_path = join_components(&dir.child(marker_dir_name(&VcsKind::Hg)));
    let svn_marker_path = join_components(&dir.child(marker_dir_name(&VcsKind::Svn)));
    choose_vcs(
        path_entry_exists(git_marker_path.as_str()),
        tool_available(tool_name(&VcsKind::Git).as_str()),
        path_entry_exists(hg_marker_path.as_str()),
        tool_available(tool_name(&VcsKind::Hg).as_str()),
        path_entry_exists(svn_marker_path.as_str()),
        tool_available(tool_name(&VcsKind::Svn).as_str()),
    )
}

/// A listing line without a trailing carriage return.
pub open spec fn strip_cr(l: Seq<char>) -> Seq<char> {
    if l.len() > 0 && l.last() == '\r' {
        l.drop_last()
    } else {
        l
    }
}

/// The paths a tool listing stands for: one per non-empty line, the line
/// taken as a path relative to the directory the tool ran in.
pub open spec fn vcs_listed_paths(dir: WsPathView, lines: Seq<Seq<char>>) -> Seq<WsPathView>
    decreases lines.len(),
{
    if lines.len() == 0 {
        Seq::empty()
    } else {
        let rest = vcs_listed_paths(dir, lines.drop_last());
        let l = strip_cr(lines.last());
        if l.len() > 0 {
            rest.push(WsPathView { absolute: dir.absolute, parts: dir.parts + split_char(l, '/') })
        } else {
            rest
        }
    }
}

/// Parses what a "list tracked files" run printed: newline-separated
/// relative paths, resolved against the directory the tool ran in.
pub fn parse_vcs_output(dir: &WsPath, stdout: &str) -> (r: Vec<WsPath>)
    ensures
        r.deep_view() == vcs_listed_paths(dir@, split_char(stdout@, '\n')),
{
    let lines = split_string(stdout, '\n');
    let n = lines.len();
    let mut out: Vec<WsPath> = Vec::new();
    let mut i: usize = 0;
    proof {
        assert(lines.deep_view().take(0) =~= Seq::<Seq<char>>::empty());
        assert(out.deep_view() =~= vcs_listed_paths(dir@, lines.deep_view().take(0)));
    }
    while i < n
        invariant
            n == lines@.len(),
            lines.deep_view() == split_char(stdout@, '\n'),
            0 <= i <= n,
            out.deep_view() == vcs_listed_paths(dir@, lines.deep_view().take(i as int)),
        decreases n - i,
    {
        proof {
            assert(lines.deep_view().take(i + 1).drop_last() =~= lines.deep_view().take(i as int));
            assert(lines.deep_view().take(i + 1).last() == lines.deep_view()[i as int]);
        }
        let line = &lines[i];
        let llen = line.as_str().unicode_len();
        let stripped: String = if llen > 0 && line.as_str().get_char(llen - 1) == '\r' {
            let s = String::from_str(line.as_str().substring_char(0, llen - 1));
            proof {
                assert(s@ =~= lines.deep_view()[i as int].drop_last());
            }
            s
        } else {
            line.clone()
        };
        assert(stripped@ == strip_cr(lines.deep_view()[i as int]));
        if stripped.as_str().unicode_len() > 0 {
            let rel = split_string(stripped.as_str(), '/');
            let mut parts = clone_parts(&dir.parts);
            let mut relv = rel;
            parts.append(&mut relv);
            proof {
                assert(parts.deep_view() =~= dir@.parts + split_char(stripped@, '/'));
            }
            out.push(WsPath { absolute: dir.absolute, parts });
            proof {
                assert(out.deep_view() =~= vcs_listed_paths(dir@, lines.deep_view().take(i + 1)));
            }
        } else {
            assert(out.deep_view() == vcs_listed_paths(dir@, lines.deep_view().take(i + 1)));
        }
        i += 1;
    }
    proof {
        assert(lines.deep_view().take(n as int) =~= lines.deep_view());
    }
    out
}

/// Saturating tally increment.
pub open spec fn sat_inc(c: u64) -> u64 {
    if c == u64::MAX {
        c
    } else {
        (c + 1) as u64
    }
}

/// A rejection tally with one more occurrence of a reason: the first entry
/// with that reason is bumped, or a fresh entry appended.
pub open spec fn bump_reason(s: Seq<(Seq<char>, u64)>, reason: Seq<char>) -> Seq<(Seq<char>, u64)>
    decreases s.len(),
{
    if s.len() == 0 {
        seq![(reason, 1u64)]
    } else if s.first().0 == reason {
        s.update(0, (reason, sat_inc(s.first().1)))
    } else {
        seq![s.first()] + bump_reason(s.drop_first(), reason)
    }
}

proof fn lemma_bump_reason_found(s: Seq<(Seq<char>, u64)>, i: int, reason: Seq<char>)
    requires
        0 <= i < s.len(),
        s[i].0 == reason,
        forall|j: int| 0 <= j < i ==> (#[trigger] s[j]).0 != reason,
    ensures
        bump_reason(s, reason) == s.update(i, (reason, sat_inc(s[i].1))),
    decreases s.len(),
{
    if i == 0 {
    } else {
        assert forall|j: int| 0 <= j < i - 1 implies (#[trigger] s.drop_first()[j]).0 != reason by {
            assert(s.drop_first()[j] == s[j + 1]);
        }
        assert(s.drop_first()[i - 1] == s[i]);
        lemma_bump_reason_found(s.drop_first(), i - 1, reason);
        assert(seq![s.first()] + s.drop_first().update(i - 1, (reason, sat_inc(s[i].1))) =~= s.update(
            i,
            (reason, sat_inc(s[i].1)),
        ));
    }
}

proof fn lemma_bump_reason_missing(s: Seq<(Seq<char>, u64)>, reason: Seq<char>)
    requires
        forall|j: int| 0 <= j < s.len() ==> (#[trigger] s[j]).0 != reason,
    ensures
        bump_reason(s, reason) == s + seq![(reason, 1u64)],
    decreases s.len(),
{
    if s.len() == 0 {
        assert(bump_reason(s, reason) =~= s + seq![(reason, 1u64)]);
    } else {
        assert forall|j: int| 0 <= j < s.drop_first().len() implies (#[trigger] s.drop_first()[j]).0
            != reason by {
            assert(s.drop_first()[j] == s[j + 1]);
        }
        lemma_bump_reason_missing(s.drop_first(), reason);
        assert(seq![s.first()] + (s.drop_first() + seq![(reason, 1u64)]) =~= s + seq![
            (reason, 1u64),
        ]);
    }
}

/// The candidate paths one level below a directory, one per entry name.
pub open spec fn children_of(dir: WsPathView, entries: Seq<(Seq<char>, bool)>) -> Seq<WsPathView> {
    entries.map_values(
        |e: (Seq<char>, bool)| WsPathView { absolute: dir.absolute, parts: dir.parts.push(e.0) },
    )
}

/// The walk state: the pending-work stack, the files found so far, and the
/// aggregate counters that keep logging bounded on large trees.
pub struct DiscoveryWalk {
    pub pending: Vec<WsPath>,
    pub found: Vec<WsPath>,
    pub rejected: Vec<(String, u64)>,
    pub blacklisted_dirs: u64,
}

impl DiscoveryWalk {
    /// No found file lies inside a blacklisted or hidden directory.
    pub open spec fn wf(&self) -> bool {
        forall|i: int|
            0 <= i < self.found.deep_view().len() ==> !inside_blacklisted_spec(
                (#[trigger] self.found.deep_view()[i]).parts,
            )
    }

    /// A fresh walk over the given roots.
    pub fn new(folders: &Vec<WsPath>) -> (w: DiscoveryWalk)
        ensures
            w.wf(),
            w.pending.deep_view() == folders.deep_view(),
            w.found.deep_view() == Seq::<WsPathView>::empty(),
            w.rejected.deep_view() == Seq::<(Seq<char>, u64)>::empty(),
            w.blacklisted_dirs == 0,
    {
        let w = DiscoveryWalk {
            pending: clone_paths(folders),
            found: Vec::new(),
            rejected: Vec::new(),
            blacklisted_dirs: 0,
        };
        proof {
            assert(w.found.deep_view() =~= Seq::<WsPathView>::empty());
            assert(w.rejected.deep_view() =~= Seq::<(Seq<char>, u64)>::empty());
        }
        w
    }

    /// The next candidate to examine, from the top of the stack.
    pub fn pop_candidate(&mut self) -> (r: Option<WsPath>)
        ensures
            final(self).found == old(self).found,
            final(self).rejected == old(self).rejected,
            final(self).blacklisted_dirs == old(self).blacklisted_dirs,
            old(self).pending@.len() == 0 ==> r is None && final(self).pending@ == old(
                self,
            ).pending@,
            old(self).pending@.len() > 0 ==> (r matches Some(p) && p == old(self).pending@.last()
                && final(self).pending@ == old(self).pending@.drop_last()),
    {
        let r = self.pending.pop();
        proof {
            if old(self).pending@.len() > 0 {
                assert(self.pending@ =~= old(self).pending@.drop_last());
            }
        }
        r
    }

    /// A candidate turned out to be a file.  One inside a blacklisted
    /// directory is excluded whatever the validity verdict says; a valid
    /// one is found; an invalid one bumps the tally for its reason.
    pub fn note_file(&mut self, p: WsPath, verdict: Result<(), String>)
        requires
            old(self).wf(),
        ensures
            final(self).wf(),
            final(self).pending == old(self).pending,
            final(self).blacklisted_dirs == old(self).blacklisted_dirs,
            inside_blacklisted_spec(p@.parts) ==> (final(self).found == old(self).found
                && final(self).rejected == old(self).rejected),
            !inside_blacklisted_spec(p@.parts) && verdict is Ok ==> (final(self).found.deep_view()
                == old(self).found.deep_view().push(p@)
                && final(self).rejected == old(self).rejected),
            !inside_blacklisted_spec(p@.parts) && verdict is Err ==> (final(self).found
                == old(self).found
                && final(self).rejected.deep_view()
                    == bump_reason(old(self).rejected.deep_view(), verdict->Err_0@)),
    {
        if is_this_inside_blacklisted_dir(&p) {
            return ;
        }
        match verdict {
            Ok(_) => {
                self.found.push(p);
                proof {
                    assert(self.found.deep_view() =~= old(self).found.deep_view().push(p@));
                }
            },
            Err(reason) => {
                proof {
                    assert(verdict->Err_0 == reason);
                }
                let n = self.rejected.len();
                let mut i: usize = 0;
                while i < n
                    invariant
                        n == self.rejected@.len(),
                        0 <= i <= n,
                        *self == *old(self),
                        old(self).wf(),
                        !inside_blacklisted_spec(p@.parts),
                        verdict is Err,
                        verdict->Err_0@ == reason@,
                        forall|j: int|
                            0 <= j < i ==> (#[trigger] self.rejected.deep_view()[j]).0 != reason@,
                    decreases n - i,
                {
                    if self.rejected[i].0 == reason {
                        let c = self.rejected[i].1;
                        let bumped: u64 = if c == u64::MAX {
                            c
                        } else {
                            c + 1
                        };
                        proof {
                            lemma_bump_reason_found(
                                self.rejected.deep_view(),
                                i as int,
                                reason@,
                            );
                        }
                        vstd::pervasive::VecAdditionalExecFns::set(
                            &mut self.rejected,
                            i,
                            (reason, bumped),
                        );
                        proof {
                            assert(self.rejected.deep_view() =~= bump_reason(
                                old(self).rejected.deep_view(),
                                reason@,
                            ));
                        }
                        return ;
                    }
                    i += 1;
                }
                proof {
                    lemma_bump_reason_missing(self.rejected.deep_view(), reason@);
                }
                self.rejected.push((reason, 1u64));
                proof {
                    assert(self.rejected.deep_view() =~= bump_reason(
                        old(self).rejected.deep_view(),
                        self.rejected@.last().0@,
                    ));
                }
            },
        }
    }

    /// A candidate turned out to be a directory.  A blacklisted or hidden
    /// name means it is skipped and counted; otherwise the caller goes on
    /// to version-control delegation or manual expansion.
    pub fn enter_dir(&mut self, dir: &WsPath) -> (r: bool)
        ensures
            final(self).pending == old(self).pending,
            final(self).found == old(self).found,
            final(self).rejected == old(self).rejected,
            r == !(dir@.parts.len() > 0 && skip_dir_name(dir@.parts.last())),
            r ==> final(self).blacklisted_dirs == old(self).blacklisted_dirs,
            !r ==> final(self).blacklisted_dirs == sat_inc(old(self).blacklisted_dirs),
    {
        let n = dir.parts.len();
        if n > 0 && is_skipped_dir_name(&dir.parts[n - 1]) {
            if self.blacklisted_dirs < u64::MAX {
                self.blacklisted_dirs = self.blacklisted_dirs + 1;
            }
            false
        } else {
            true
        }
    }

    /// Manual one-level expansion of a directory: its entries, as the disk
    /// shows them right now, join the pending stack; everything already on
    /// the stack, and everything found or tallied, stays as it was.  What
    /// the expansion does with the listing it got is stated exactly at
    /// [`Self::push_children`], which takes the listing as an argument.
    pub fn expand_dir(&mut self, dir: &WsPath)
        requires
            old(self).wf(),
        ensures
            final(self).wf(),
            final(self).found == old(self).found,
            final(self).rejected == old(self).rejected,
            final(self).blacklisted_dirs == old(self).blacklisted_dirs,
            (exists|entries: Seq<(Seq<char>, bool)>|
                final(self).pending.deep_view() == old(self).pending.deep_view() + children_of(
                    dir@,
                    entries,
                )),
    {
        let s = join_components(dir);
        let entries = list_dir_shallow(s.as_str());
        self.push_children(dir, &entries);
    }

    /// Pushes the candidate path of every listed entry, in order, onto the
    /// pending stack: exactly the children of `dir` through the entries'
    /// names, after whatever was already pending.
    pub fn push_children(&mut self, dir: &WsPath, entries: &Vec<(String, bool)>)
        requires
            old(self).wf(),
        ensures
            final(self).wf(),
            final(self).found == old(self).found,
            final(self).rejected == old(self).rejected,
            final(self).blacklisted_dirs == old(self).blacklisted_dirs,
            final(self).pending.deep_view() == old(self).pending.deep_view() + children_of(
                dir@,
                entries.deep_view(),
            ),
    {
        let n = entries.len();
        let mut i: usize = 0;
        proof {
            assert(self.pending.deep_view() =~= old(self).pending.deep_view() + children_of(
                dir@,
                entries.deep_view().take(0),
            ));
        }
        while i < n
            invariant
                n == entries@.len(),
                0 <= i <= n,
                old(self).wf(),
                self.found == old(self).found,
                self.rejected == old(self).rejected,
                self.blacklisted_dirs == old(self).blacklisted_dirs,
                self.pending.deep_view() == old(self).pending.deep_view() + children_of(
                    dir@,
                    entries.deep_view().take(i as int),
                ),
            decreases n - i,
        {
            let name = entries[i].0.clone();
            let ghost nv = name@;
            let child = dir.child(name);
            let ghost cv = child@;
            let ghost prevv = self.pending@;
            let ghost prevd = self.pending.deep_view();
            self.pending.push(child);
            proof {
                let ev = entries.deep_view();
                assert(ev.take(i + 1).drop_last() =~= ev.take(i as int));
                assert(ev.take(i + 1).last() == ev[i as int]);
                assert(ev[i as int].0 == nv);
                assert(cv.absolute == dir@.absolute);
                assert(cv.parts == dir@.parts.push(nv));
                assert(cv =~= children_of(dir@, ev.take(i + 1)).last());
                assert forall|j: int| 0 <= j < prevd.len() implies #[trigger] self.pending.deep_view()[j]
                    == prevd[j] by {
                    assert(self.pending@[j] == prevv[j]);
                }
                assert(self.pending.deep_view()[prevd.len() as int] == cv);
                assert(children_of(dir@, ev.take(i + 1)) =~= children_of(
                    dir@,
                    ev.take(i as int),
                ).push(cv));
                assert(self.pending.deep_view() =~= old(self).pending.deep_view() + children_of(
                    dir@,
                    ev.take(i + 1),
                ));
            }
            i += 1;
        }
        proof {
            assert(entries.deep_view().take(n as int) =~= entries.deep_view());
        }
    }

    /// The delegation rule for a directory being entered: a successful
    /// tool listing yields the tracked files of that directory alone
    /// (non-recursive delegation), for the caller to offer to
    /// [`Self::note_file`] with their validity verdicts; a failed or
    /// absent listing falls back to manual one-level expansion onto the
    /// pending stack.
    pub fn apply_dir_listing(&mut self, dir: &WsPath, listing: Option<&str>) -> (r: Vec<WsPath>)
        requires
            old(self).wf(),
        ensures
            final(self).wf(),
            final(self).found == old(self).found,
            final(self).rejected == old(self).rejected,
            final(self).blacklisted_dirs == old(self).blacklisted_dirs,
            listing matches Some(out) ==> (r.deep_view() == vcs_listed_paths(
                dir@,
                split_char(out@, '\n'),
            ) && final(self).pending == old(self).pending),
            listing is None ==> (r@.len() == 0 && (exists|entries: Seq<(Seq<char>, bool)>|
                final(self).pending.deep_view() == old(self).pending.deep_view() + children_of(
                    dir@,
                    entries,
                ))),
    {
        match listing {
            Some(out) => parse_vcs_output(dir, out),
            None => {
                self.expand_dir(dir);
                Vec::new()
            },
        }
    }
}

/// Blacklist exclusion, at the walk: a path inside a blacklisted or hidden
/// directory is never among the found files, whatever the validity
/// predicate said about it.
pub proof fn lemma_blacklist_excluded(w: &DiscoveryWalk, p: WsPathView)
    requires
        w.wf(),
        inside_blacklisted_spec(p.parts),
    ensures
        !w.found.deep_view().contains(p),
{
    if w.found.deep_view().contains(p) {
        let i = choose|i: int|
            0 <= i < w.found.deep_view().len() && w.found.deep_view()[i] == p;
        assert(!inside_blacklisted_spec(w.found.deep_view()[i].parts));
    }
}

/// The references a path list stands for: one per path whose resolution
/// succeeds, in order, with no overlay attached.
pub open spec fn resolved_documents(paths: Seq<WsPathView>) -> Seq<DocumentInfoView>
    decreases paths.len(),
{
    if paths.len() == 0 {
        Seq::empty()
    } else {
        let rest = resolved_documents(paths.drop_last());
        if resolution_succeeds(paths.last(), None) {
            rest.push(
                DocumentInfoView { uri: identity_of(paths.last().parts), document: None },
            )
        } else {
            rest
        }
    }
}

/// The identity set a list of found paths discovers.
pub open spec fn discovered_identities(paths: Seq<WsPathView>) -> Set<FileIdentityView> {
    Set::new(
        |u: FileIdentityView|
            exists|j: int|
                0 <= j < resolved_documents(paths).len() && (#[trigger] resolved_documents(
                    paths,
                )[j]).uri == u,
    )
}

proof fn lemma_resolved_membership(paths: Seq<WsPathView>, u: FileIdentityView)
    ensures
        (exists|j: int|
            0 <= j < resolved_documents(paths).len() && (#[trigger] resolved_documents(
                paths,
            )[j]).uri == u) <==> (exists|i: int|
            0 <= i < paths.len() && resolution_succeeds(#[trigger] paths[i], None) && identity_of(
                paths[i].parts,
            ) == u),
    decreases paths.len(),
{
    if paths.len() > 0 {
        lemma_resolved_membership(paths.drop_last(), u);
        let rest = resolved_documents(paths.drop_last());
        let full = resolved_documents(paths);
        if exists|j: int| 0 <= j < full.len() && (#[trigger] full[j]).uri == u {
            let j = choose|j: int| 0 <= j < full.len() && (#[trigger] full[j]).uri == u;
            if j < rest.len() {
                assert(full[j] == rest[j]);
                let i = choose|i: int|
                    0 <= i < paths.drop_last().len() && resolution_succeeds(
                        #[trigger] paths.drop_last()[i],
                        None,
                    ) && identity_of(paths.drop_last()[i].parts) == u;
                assert(paths.drop_last()[i] == paths[i]);
                assert(resolution_succeeds(paths[i], None) && identity_of(paths[i].parts) == u);
            } else {
                assert(resolution_succeeds(paths[paths.len() - 1], None) && identity_of(
                    paths[paths.len() - 1].parts,
                ) == u);
            }
        }
        if exists|i: int|
            0 <= i < paths.len() && resolution_succeeds(#[trigger] paths[i], None) && identity_of(
                paths[i].parts,
            ) == u {
            let i = choose|i: int|
                0 <= i < paths.len() && resolution_succeeds(
                    #[trigger] paths[i],
                    None,
                ) && identity_of(paths[i].parts) == u;
            if i < paths.len() - 1 {
                assert(paths.drop_last()[i] == paths[i]);
                let j = choose|j: int| 0 <= j < rest.len() && (#[trigger] rest[j]).uri == u;
                assert(full[j] == rest[j]);
                assert(full[j].uri == u);
            } else {
                assert(full[full.len() - 1].uri == u);
            }
        }
    }
}

/// Discovery idempotence, at the walk's output: which identities a list of
/// found paths yields depends only on which paths are in it — not on the
/// order discovery came across them, nor on repetition.
pub proof fn lemma_discovered_identities_of_set(paths1: Seq<WsPathView>, paths2: Seq<WsPathView>)
    requires
        paths1.to_set() == paths2.to_set(),
    ensures
        discovered_identities(paths1) == discovered_identities(paths2),
{
    assert forall|u: FileIdentityView| #[trigger] discovered_identities(paths1).contains(u)
        <==> discovered_identities(paths2).contains(u) by {
        lemma_resolved_membership(paths1, u);
        lemma_resolved_membership(paths2, u);
        if exists|i: int|
            0 <= i < paths1.len() && resolution_succeeds(
                #[trigger] paths1[i],
                None,
            ) && identity_of(paths1[i].parts) == u {
            let i = choose|i: int|
                0 <= i < paths1.len() && resolution_succeeds(
                    #[trigger] paths1[i],
                    None,
                ) && identity_of(paths1[i].parts) == u;
            assert(paths1.to_set().contains(paths1[i]));
            assert(paths2.contains(paths1[i]));
            let i2 = choose|i2: int| 0 <= i2 < paths2.len() && paths2[i2] == paths1[i];
            assert(resolution_succeeds(paths2[i2], None) && identity_of(paths2[i2].parts) == u);
        }
        if exists|i: int|
            0 <= i < paths2.len() && resolution_succeeds(
                #[trigger] paths2[i],
                None,
            ) && identity_of(paths2[i].parts) == u {
            let i = choose|i: int|
                0 <= i < paths2.len() && resolution_succeeds(
                    #[trigger] paths2[i],
                    None,
                ) && identity_of(paths2[i].parts) == u;
            assert(paths2.to_set().contains(paths2[i]));
            assert(paths1.contains(paths2[i]));
            let i1 = choose|i1: int| 0 <= i1 < paths1.len() && paths1[i1] == paths2[i];
            assert(resolution_succeeds(paths1[i1], None) && identity_of(paths1[i1].parts) == u);
        }
    }
    assert(discovered_identities(paths1) =~= discovered_identities(paths2));
}

/// Turns found paths into the references handed to the indexers: exactly
/// the in-order identities of the paths the platform can resolve, the rare
/// rest dropped.
pub fn paths_to_documents(paths: &Vec<WsPath>) -> (r: Vec<DocumentInfo>)
    ensures
        r.deep_view() == resolved_documents(paths.deep_view()),
{
    let n = paths.len();
    let mut out: Vec<DocumentInfo> = Vec::new();
    let mut i: usize = 0;
    proof {
        assert(paths.deep_view().take(0) =~= Seq::<WsPathView>::empty());
        assert(out.deep_view() =~= resolved_documents(paths.deep_view().take(0)));
    }
    while i < n
        invariant
            n == paths@.len(),
            0 <= i <= n,
            out.deep_view() == resolved_documents(paths.deep_view().take(i as int)),
        decreases n - i,
    {
        proof {
            assert(paths.deep_view().take(i + 1).drop_last() =~= paths.deep_view().take(i as int));
            assert(paths.deep_view().take(i + 1).last() == paths.deep_view()[i as int]);
        }
        match DocumentInfo::from_pathbuf(&paths[i]) {
            Ok(d) => {
                let ghost dv = d@;
                let ghost prevv = out@;
                let ghost prevd = out.deep_view();
                out.push(d);
                proof {
                    assert(dv =~= resolved_documents(paths.deep_view().take(i + 1)).last());
                    assert forall|j: int| 0 <= j < prevd.len() implies #[trigger] out.deep_view()[j]
                        == prevd[j] by {
                        assert(out@[j] == prevv[j]);
                    }
                    assert(out.deep_view()[prevd.len() as int] == dv);
                    assert(out.deep_view() =~= resolved_documents(paths.deep_view().take(i + 1)));
                }
            },
            Err(_) => {
                assert(out.deep_view() == resolved_documents(paths.deep_view().take(i + 1)));
            },
        }
        i += 1;
    }
    proof {
        assert(paths.deep_view().take(n as int) =~= paths.deep_view());
    }
    out
}

} // verus!
