//! Decisions of the command-line front end: which action a cleanup takes,
//! how system-command scopes are run and logged, which installed
//! application an uninstall addresses, and how an application directory is
//! moved to another drive.
//!
//! Like the system operations, commands are prepared here and launched by
//! the host, which hands back what it observed.

use vstd::prelude::*;
use crate::guard::{
    audit_notes, audit_plan, check, check_model, lemma_audit_separator_insensitive, check_uninstall_string, normalize_spec, notes_view,
    uninstall_model, AuditFlags, AuditNote, AuditResult, Verdict, VerdictModel,
};
use crate::inventory::{name_matches, InstalledApp};
use crate::system_ops::{
    debug_exit_code, debug_exit_code_exec, drive_letter, finish_cmd, finished, lit_concat,
    parse_drive_letter, refusal, refused, CmdLaunch, CmdResult, CmdStep, ProcessOutcome,
};
use crate::sort::{is_permutation, sorted_desc_stable, stable_order_desc};
use crate::text::{
    append_str, ascii_lower_seq, chars_of, concat, contains, has_sub, lowercase, replace_char,
    replace_char_exec, seq_eq, string_of, to_ascii_lowercase, unicode_lowercase,
};

verus! {

// ───────────────────────────── actions ─────────────────────────────

/// How a scope disposes of what it matches.
#[derive(Debug, Clone, Copy, PartialEq, Eq, Structural)]
pub enum Mode {
    Recycle,
    Quarantine,
    Delete,
    /// The scope runs a system command instead of matching files.
    SystemCmd,
}

/// Whether a scope matches single files or whole directories.
#[derive(Debug, Clone, Copy, PartialEq, Eq, Structural)]
pub enum RecycleGranularity {
    File,
    Directory,
}

/// What a cleanup does with the paths it removes.
#[derive(Debug, Clone, Copy, PartialEq, Eq, Structural)]
pub enum Action {
    Recycle,
    Quarantine,
    Delete,
}

/// The mode and granularity of one scope.
#[derive(Debug, Clone, Copy)]
pub struct ScopeKind {
    pub mode: Mode,
    pub granularity: RecycleGranularity,
}

/// The action of a file mode.
pub open spec fn mode_action(mode: Mode) -> Action {
    match mode {
        Mode::Quarantine => Action::Quarantine,
        Mode::Delete => Action::Delete,
        _ => Action::Recycle,
    }
}

/// The action a scope's matches are shown with: hard delete wins for file
/// scopes, directory scopes always recycle, and otherwise the mode decides.
/// A system-command scope never reaches this choice.
pub fn action_for(mode: Mode, granularity: RecycleGranularity, hard_delete: bool) -> (a: Action)
    requires
        (hard_delete && granularity != RecycleGranularity::Directory) || granularity
            == RecycleGranularity::Directory || mode != Mode::SystemCmd,
    ensures
        a == (if hard_delete && granularity != RecycleGranularity::Directory {
            Action::Delete
        } else if granularity == RecycleGranularity::Directory {
            Action::Recycle
        } else {
            mode_action(mode)
        }),
{
    if hard_delete && granularity != RecycleGranularity::Directory {
        return Action::Delete;
    }
    if granularity == RecycleGranularity::Directory {
        return Action::Recycle;
    }
    match mode {
        Mode::Recycle => Action::Recycle,
        Mode::Quarantine => Action::Quarantine,
        Mode::Delete => Action::Delete,
        Mode::SystemCmd => Action::Recycle,
    }
}

/// The name an action is reported under.
pub fn action_name(a: Action) -> (r: &'static str)
    ensures
        r@ == match a {
            Action::Recycle => "recycle"@,
            Action::Quarantine => "quarantine"@,
            Action::Delete => "delete"@,
        },
{
    match a {
        Action::Recycle => "recycle",
        Action::Quarantine => "quarantine",
        Action::Delete => "delete",
    }
}

pub open spec fn hard_delete_on_dirs_message() -> Seq<char> {
    "hard_delete not allowed on directory-granularity scopes (would permanently remove entire dirs)"@
}

/// The action of a whole cleanup: hard delete is refused when a directory
/// scope takes part; without it, the cleanup deletes when every scope
/// deletes, quarantines when every scope quarantines, and recycles otherwise.
pub fn plan_action(scopes: &Vec<ScopeKind>, hard_delete: bool) -> (r: Result<Action, String>)
    ensures
        hard_delete && (exists|i: int|
            0 <= i < scopes@.len() && (#[trigger] scopes@[i]).granularity
                == RecycleGranularity::Directory) ==> (r matches Err(e) && e@
            == hard_delete_on_dirs_message()),
        hard_delete && !(exists|i: int|
            0 <= i < scopes@.len() && (#[trigger] scopes@[i]).granularity
                == RecycleGranularity::Directory) ==> r == Ok::<Action, String>(Action::Delete),
        !hard_delete ==> r == Ok::<Action, String>(
            if forall|i: int| 0 <= i < scopes@.len() ==> (#[trigger] scopes@[i]).mode == Mode::Delete {
                Action::Delete
            } else if forall|i: int|
                0 <= i < scopes@.len() ==> (#[trigger] scopes@[i]).mode == Mode::Quarantine {
                Action::Quarantine
            } else {
                Action::Recycle
            },
        ),
{
    let mut any_dir = false;
    let mut all_delete = true;
    let mut all_quarantine = true;
    let mut i: usize = 0;
    while i < scopes.len()
        invariant
            i <= scopes@.len(),
            any_dir == exists|j: int|
                0 <= j < i && (#[trigger] scopes@[j]).granularity == RecycleGranularity::Directory,
            all_delete == forall|j: int| 0 <= j < i ==> (#[trigger] scopes@[j]).mode == Mode::Delete,
            all_quarantine == forall|j: int|
                0 <= j < i ==> (#[trigger] scopes@[j]).mode == Mode::Quarantine,
        decreases scopes@.len() - i,
    {
        let s = scopes[i];
        if s.granularity == RecycleGranularity::Directory {
            any_dir = true;
        }
        if s.mode != Mode::Delete {
            all_delete = false;
        }
        if s.mode != Mode::Quarantine {
            all_quarantine = false;
        }
        i = i + 1;
    }
    if hard_delete && !any_dir {
        Ok(Action::Delete)
    } else if hard_delete {
        Err(
            String::from_str(
                "hard_delete not allowed on directory-granularity scopes (would permanently remove entire dirs)",
            ),
        )
    } else if all_delete {
        Ok(Action::Delete)
    } else if all_quarantine {
        Ok(Action::Quarantine)
    } else {
        Ok(Action::Recycle)
    }
}

/// Where a set of scopes is sent.
#[derive(Debug, Clone, Copy, PartialEq, Eq, Structural)]
pub enum ScopeRoute {
    /// Every scope runs a system command.
    SystemCmd,
    /// No scope runs a system command.
    Files,
    /// Both kinds are present, which is refused.
    Mixed,
}

/// System-command scopes are run apart from file scopes, and the two kinds
/// are never mixed in one call.
pub fn route_scopes(modes: &Vec<Mode>) -> (r: ScopeRoute)
    ensures
        r == (if forall|i: int| 0 <= i < modes@.len() ==> #[trigger] modes@[i] == Mode::SystemCmd {
            ScopeRoute::SystemCmd
        } else if exists|i: int| 0 <= i < modes@.len() && #[trigger] modes@[i] == Mode::SystemCmd {
            ScopeRoute::Mixed
        } else {
            ScopeRoute::Files
        }),
{
    let mut all = true;
    let mut any = false;
    let mut i: usize = 0;
    while i < modes.len()
        invariant
            i <= modes@.len(),
            all == forall|j: int| 0 <= j < i ==> #[trigger] modes@[j] == Mode::SystemCmd,
            any == exists|j: int| 0 <= j < i && #[trigger] modes@[j] == Mode::SystemCmd,
        decreases modes@.len() - i,
    {
        if modes[i] == Mode::SystemCmd {
            any = true;
        } else {
            all = false;
        }
        i = i + 1;
    }
    if all {
        ScopeRoute::SystemCmd
    } else if any {
        ScopeRoute::Mixed
    } else {
        ScopeRoute::Files
    }
}

// ───────────────────────────── previews and cleanups ─────────────────────────────

/// The positions of the scopes a run covers: all of them, or those whose id
/// is the filter.
pub fn select_scopes(scope_ids: &Vec<String>, filter: Option<&str>) -> (r: Vec<usize>)
    ensures
        lists_exactly(
            r@,
            scope_ids@.len() as int,
            |i: int|
                match filter {
                    Some(f) => scope_ids@[i]@ == f@,
                    None => true,
                },
        ),
{
    let ghost p = |i: int|
        match filter {
            Some(f) => scope_ids@[i]@ == f@,
            None => true,
        };
    let mut r: Vec<usize> = Vec::new();
    let mut i: usize = 0;
    while i < scope_ids.len()
        invariant
            i <= scope_ids@.len(),
            p == (|i: int|
                match filter {
                    Some(f) => scope_ids@[i]@ == f@,
                    None => true,
                }),
            lists_exactly(r@, i as int, p),
        decreases scope_ids@.len() - i,
    {
        let keep = match filter {
            Some(f) => seq_eq(&chars_of(scope_ids[i].as_str()), &chars_of(f)),
            None => true,
        };
        let ghost old_r = r@;
        if keep {
            r.push(i);
        }
        proof {
            assert(p(i as int) == keep);
            assert forall|j: int| 0 <= j < i + 1 && #[trigger] p(j) implies exists|a: int|
                0 <= a < r@.len() && r@[a] == j by {
                if j < i {
                    let a = choose|a: int| 0 <= a < old_r.len() && old_r[a] == j;
                    assert(r@[a] == j);
                } else {
                    assert(r@[r@.len() - 1] == j);
                }
            }
        }
        i = i + 1;
    }
    r
}

/// A path a file scope matched.
#[derive(Debug)]
pub struct MatchedPath {
    pub path: String,
    pub size: u64,
    pub is_dir: bool,
}

/// What one file scope matched.
#[derive(Debug)]
pub struct ScopeMatches {
    pub scope_id: String,
    pub mode: Mode,
    pub granularity: RecycleGranularity,
    pub items: Vec<MatchedPath>,
}

/// One line of a preview.
#[derive(Debug)]
pub struct MatchedItem {
    /// The path with `/` separators.
    pub path: String,
    pub size: u64,
    pub is_dir: bool,
    pub scope_id: String,
    /// The name of the action the scope takes.
    pub action: String,
}

/// The preview of a cleanup.
#[derive(Debug)]
pub struct PreviewReport {
    pub matched: Vec<MatchedItem>,
    /// Total size of the matched paths (saturating).
    pub total_bytes: u64,
    pub total_count: u64,
    /// Paths the guard would block.
    pub guard_blocked: Vec<AuditNote>,
    /// Paths the guard warns about.
    pub guard_warnings: Vec<AuditNote>,
}

pub open spec fn action_label(a: Action) -> Seq<char> {
    match a {
        Action::Recycle => "recycle"@,
        Action::Quarantine => "quarantine"@,
        Action::Delete => "delete"@,
    }
}

/// The mathematical value of a preview line.
pub struct ItemModel {
    pub path: Seq<char>,
    pub size: u64,
    pub is_dir: bool,
    pub scope_id: Seq<char>,
    pub action: Seq<char>,
}

pub open spec fn item_view(m: MatchedItem) -> ItemModel {
    ItemModel { path: m.path@, size: m.size, is_dir: m.is_dir, scope_id: m.scope_id@, action: m.action@ }
}

/// The preview line of a path matched by scope `s`.
pub open spec fn item_of(s: ScopeMatches, m: MatchedPath) -> ItemModel {
    ItemModel {
        path: replace_char(m.path@, '\\', '/'),
        size: m.size,
        is_dir: m.is_dir,
        scope_id: s.scope_id@,
        action: action_label(
            if s.granularity == RecycleGranularity::Directory {
                Action::Recycle
            } else {
                mode_action(s.mode)
            },
        ),
    }
}

/// The preview lines of the scopes, scope after scope.
pub open spec fn items_of(scopes: Seq<ScopeMatches>) -> Seq<ItemModel>
    decreases scopes.len(),
{
    if scopes.len() == 0 {
        Seq::empty()
    } else {
        items_of(scopes.drop_last()) + scopes.last().items@.map_values(
            |m: MatchedPath| item_of(scopes.last(), m),
        )
    }
}

pub open spec fn item_sizes(items: Seq<ItemModel>) -> Seq<u64> {
    items.map_values(|m: ItemModel| m.size)
}

/// The paths the guard is shown: the preview paths with `/` turned into
/// the platform's separator.
pub open spec fn audited_paths(items: Seq<ItemModel>, separator: char) -> Seq<Seq<char>> {
    items.map_values(|m: ItemModel| replace_char(m.path, '/', separator))
}

/// Previews a cleanup of file scopes: every matched path with its action,
/// their total size, and what the guard would block or warn about (without
/// `allow_system`). `separator` is the platform's path separator.
pub fn preview_report(scopes: &Vec<ScopeMatches>, separator: char) -> (r: PreviewReport)
    requires
        forall|i: int| 0 <= i < scopes@.len() ==> (#[trigger] scopes@[i]).mode != Mode::SystemCmd,
        items_of(scopes@).len() <= u64::MAX,
    ensures
        r.matched@.map_values(|m: MatchedItem| item_view(m)) == items_of(scopes@),
        r.total_bytes == saturating_sum(item_sizes(items_of(scopes@))),
        r.total_count == items_of(scopes@).len(),
        (notes_view(r.guard_blocked@), notes_view(r.guard_warnings@)) == audit_notes(
            audited_paths(items_of(scopes@), separator),
            false,
        ),
{
    let mut matched: Vec<MatchedItem> = Vec::new();
    let mut total: u64 = 0;
    let mut i: usize = 0;
    while i < scopes.len()
        invariant
            i <= scopes@.len(),
            forall|k: int| 0 <= k < scopes@.len() ==> (#[trigger] scopes@[k]).mode != Mode::SystemCmd,
            matched@.map_values(|m: MatchedItem| item_view(m)) == items_of(scopes@.take(i as int)),
            total == saturating_sum(item_sizes(items_of(scopes@.take(i as int)))),
        decreases scopes@.len() - i,
    {
        let scope = &scopes[i];
        assert(scopes@.take(i + 1).drop_last() =~= scopes@.take(i as int));
        assert(scopes@.take(i + 1).last() == scopes@[i as int]);
        let action = action_for(scope.mode, scope.granularity, false);
        let name = action_name(action);
        let ghost before = matched@.map_values(|m: MatchedItem| item_view(m));
        let mut j: usize = 0;
        while j < scope.items.len()
            invariant
                j <= scope.items@.len(),
                i < scopes@.len(),
                scope == scopes@[i as int],
                scope.mode != Mode::SystemCmd,
                name@ == action_label(
                    if scope.granularity == RecycleGranularity::Directory {
                        Action::Recycle
                    } else {
                        mode_action(scope.mode)
                    },
                ),
                matched@.map_values(|m: MatchedItem| item_view(m)) == before + scope.items@.take(
                    j as int,
                ).map_values(|m: MatchedPath| item_of(*scope, m)),
                total == saturating_sum(item_sizes(matched@.map_values(|m: MatchedItem| item_view(m)))),
            decreases scope.items@.len() - j,
        {
            let it = &scope.items[j];
            let path = string_of(&replace_char_exec(&chars_of(it.path.as_str()), '\\', '/'));
            let ghost prev = matched@.map_values(|m: MatchedItem| item_view(m));
            total = total.saturating_add(it.size);
            matched.push(
                MatchedItem {
                    path,
                    size: it.size,
                    is_dir: it.is_dir,
                    scope_id: scope.scope_id.clone(),
                    action: String::from_str(name),
                },
            );
            j = j + 1;
            proof {
                let now = matched@.map_values(|m: MatchedItem| item_view(m));
                assert(now =~= prev.push(item_of(*scope, *it)));
                assert(scope.items@.take(j as int) =~= scope.items@.take(j - 1).push(*it));
                assert(now =~= before + scope.items@.take(j as int).map_values(
                    |m: MatchedPath| item_of(*scope, m),
                ));
                assert(item_sizes(now).drop_last() =~= item_sizes(prev));
            }
        }
        assert(scope.items@.take(scope.items@.len() as int) =~= scope.items@);
        i = i + 1;
    }
    assert(scopes@.take(scopes@.len() as int) =~= scopes@);
    let ghost items = items_of(scopes@);
    let mut paths: Vec<String> = Vec::new();
    let mut k: usize = 0;
    while k < matched.len()
        invariant
            k <= matched@.len(),
            matched@.map_values(|m: MatchedItem| item_view(m)) == items,
            paths@.map_values(|s: String| s@) == audited_paths(items, separator).take(k as int),
        decreases matched@.len() - k,
    {
        proof {
            assert(matched@.map_values(|m: MatchedItem| item_view(m))[k as int] == item_view(
                matched@[k as int],
            ));
        }
        let p = string_of(&replace_char_exec(&chars_of(matched[k].path.as_str()), '/', separator));
        let ghost prev = paths@.map_values(|s: String| s@);
        paths.push(p);
        k = k + 1;
        proof {
            let ap = audited_paths(items, separator);
            assert(ap[k - 1] == replace_char(items[k - 1].path, '/', separator));
            assert(paths@.map_values(|s: String| s@) =~= prev.push(p@));
            assert(ap.take(k as int) =~= ap.take(k - 1).push(ap[k - 1]));
        }
        assert(paths@.map_values(|s: String| s@) =~= audited_paths(items, separator).take(k as int));
    }
    assert(paths@.map_values(|s: String| s@) =~= audited_paths(items, separator));
    let flags = AuditFlags { allow_system: false, confirmed_scaffolds: Vec::new() };
    let verdict = audit_plan(paths.as_slice(), &flags);
    let (guard_blocked, guard_warnings) = match verdict {
        AuditResult::Approved { warnings } => (Vec::new(), warnings),
        AuditResult::Rejected { blocked, warnings } => (blocked, warnings),
    };
    let total_count = matched.len() as u64;
    PreviewReport { matched, total_bytes: total, total_count, guard_blocked, guard_warnings }
}

proof fn lemma_items_follow_paths(scopes: Seq<ScopeMatches>)
    ensures
        items_of(scopes).len() == all_paths(scopes).len(),
        forall|k: int|
            0 <= k < items_of(scopes).len() ==> (#[trigger] items_of(scopes)[k]).path == replace_char(
                all_paths(scopes)[k],
                '\\',
                '/',
            ),
    decreases scopes.len(),
{
    if scopes.len() > 0 {
        let init = scopes.drop_last();
        lemma_items_follow_paths(init);
        let last = scopes.last();
        let a = items_of(init);
        let b = last.items@.map_values(|m: MatchedPath| item_of(last, m));
        let pa = all_paths(init);
        let pb = last.items@.map_values(|m: MatchedPath| m.path@);
        assert forall|k: int| 0 <= k < items_of(scopes).len() implies (#[trigger] items_of(
            scopes,
        )[k]).path == replace_char(all_paths(scopes)[k], '\\', '/') by {
            if k < a.len() {
                assert(items_of(scopes)[k] == a[k]);
                assert(all_paths(scopes)[k] == pa[k]);
            } else {
                assert(items_of(scopes)[k] == b[k - a.len()]);
                assert(all_paths(scopes)[k] == pb[k - a.len()]);
            }
        }
    }
}

/// A preview shows the guard verdicts that running the same cleanup meets
/// without `allow_system`: the same blocked paths and the same warnings,
/// whichever separator the platform uses.
pub proof fn lemma_preview_shows_run_verdicts(scopes: Seq<ScopeMatches>, separator: char)
    requires
        separator == '/' || separator == '\\',
    ensures
        audit_notes(audited_paths(items_of(scopes), separator), false) == audit_notes(
            all_paths(scopes),
            false,
        ),
{
    lemma_items_follow_paths(scopes);
    let a = audited_paths(items_of(scopes), separator);
    let b = all_paths(scopes);
    assert forall|i: int| 0 <= i < a.len() implies replace_char(#[trigger] a[i], '\\', '/') == replace_char(
        b[i],
        '\\',
        '/',
    ) by {
        let x = replace_char(b[i], '\\', '/');
        assert(items_of(scopes)[i].path == x);
        assert(a[i] == replace_char(x, '/', separator));
        assert(replace_char(replace_char(x, '/', separator), '\\', '/') =~= x);
    }
    lemma_audit_separator_insensitive(a, b, false);
}

/// What a cleanup run comes to.
#[derive(Debug)]
pub enum ExecuteDecision {
    /// No path matched; nothing runs.
    NoPaths,
    /// The guard blocked some paths; nothing runs.
    Blocked { blocked: Vec<AuditNote>, warnings: Vec<AuditNote> },
    /// The run was refused (hard delete on directory scopes).
    Refused(String),
    /// The cleanup runs with this action; `reason` goes to the undo log.
    Run { action: Action, reason: String, warnings: Vec<AuditNote> },
}

/// All matched paths, scope after scope.
pub open spec fn all_paths(scopes: Seq<ScopeMatches>) -> Seq<Seq<char>>
    decreases scopes.len(),
{
    if scopes.len() == 0 {
        Seq::empty()
    } else {
        all_paths(scopes.drop_last()) + scopes.last().items@.map_values(|m: MatchedPath| m.path@)
    }
}

pub open spec fn kinds_of(scopes: Seq<ScopeMatches>) -> Seq<ScopeKind> {
    scopes.map_values(|s: ScopeMatches| ScopeKind { mode: s.mode, granularity: s.granularity })
}

/// Decides a cleanup of file scopes: with nothing matched nothing runs; the
/// guard audits every matched path first (protected paths pass only with
/// `allow_system`) and a single blocked path stops the run; then the action
/// is chosen as [`plan_action`] does.
pub fn execute_decision(
    scaffold_id: &str,
    scopes: &Vec<ScopeMatches>,
    hard_delete: bool,
    allow_system: bool,
) -> (r: ExecuteDecision)
    ensures
        all_paths(scopes@).len() == 0 ==> r is NoPaths,
        all_paths(scopes@).len() > 0 ==> ({
            let notes = audit_notes(all_paths(scopes@), allow_system);
            let kinds = kinds_of(scopes@);
            let any_dir = exists|i: int|
                0 <= i < kinds.len() && (#[trigger] kinds[i]).granularity
                    == RecycleGranularity::Directory;
            if notes.0.len() > 0 {
                r matches ExecuteDecision::Blocked { blocked, warnings } && notes_view(blocked@)
                    == notes.0 && notes_view(warnings@) == notes.1
            } else if hard_delete && any_dir {
                r matches ExecuteDecision::Refused(m) && m@ == hard_delete_on_dirs_message()
            } else {
                r matches ExecuteDecision::Run { action, reason, warnings } && reason@
                    == "pinkbin-cli scaffold "@ + scaffold_id@ && notes_view(warnings@) == notes.1
                    && action == (if hard_delete {
                    Action::Delete
                } else if forall|i: int| 0 <= i < kinds.len() ==> (#[trigger] kinds[i]).mode == Mode::Delete {
                    Action::Delete
                } else if forall|i: int|
                    0 <= i < kinds.len() ==> (#[trigger] kinds[i]).mode == Mode::Quarantine {
                    Action::Quarantine
                } else {
                    Action::Recycle
                })
            }
        }),
{
    let mut paths: Vec<String> = Vec::new();
    let mut kinds: Vec<ScopeKind> = Vec::new();
    let mut i: usize = 0;
    while i < scopes.len()
        invariant
            i <= scopes@.len(),
            paths@.map_values(|s: String| s@) == all_paths(scopes@.take(i as int)),
            kinds@ == kinds_of(scopes@.take(i as int)),
        decreases scopes@.len() - i,
    {
        let scope = &scopes[i];
        assert(scopes@.take(i + 1).drop_last() =~= scopes@.take(i as int));
        assert(scopes@.take(i + 1).last() == scopes@[i as int]);
        let ghost before = paths@.map_values(|s: String| s@);
        let mut j: usize = 0;
        while j < scope.items.len()
            invariant
                j <= scope.items@.len(),
                paths@.map_values(|s: String| s@) == before + scope.items@.take(j as int).map_values(
                    |m: MatchedPath| m.path@,
                ),
            decreases scope.items@.len() - j,
        {
            let ghost prev = paths@.map_values(|s: String| s@);
            paths.push(scope.items[j].path.clone());
            j = j + 1;
            assert(paths@.map_values(|s: String| s@) =~= prev.push(scope.items@[j - 1].path@));
            assert(scope.items@.take(j as int) =~= scope.items@.take(j - 1).push(scope.items@[j - 1]));
            assert(paths@.map_values(|s: String| s@) =~= before + scope.items@.take(j as int).map_values(
                |m: MatchedPath| m.path@,
            ));
        }
        assert(scope.items@.take(scope.items@.len() as int) =~= scope.items@);
        kinds.push(ScopeKind { mode: scope.mode, granularity: scope.granularity });
        i = i + 1;
        assert(kinds@ =~= kinds_of(scopes@.take(i as int)));
    }
    assert(scopes@.take(scopes@.len() as int) =~= scopes@);
    if paths.len() == 0 {
        return ExecuteDecision::NoPaths;
    }
    let flags = AuditFlags { allow_system, confirmed_scaffolds: Vec::new() };
    let (blocked, warnings) = match audit_plan(paths.as_slice(), &flags) {
        AuditResult::Approved { warnings } => (Vec::new(), warnings),
        AuditResult::Rejected { blocked, warnings } => (blocked, warnings),
    };
    if blocked.len() > 0 {
        return ExecuteDecision::Blocked { blocked, warnings };
    }
    match plan_action(&kinds, hard_delete) {
        Ok(action) => {
            let mut reason = chars_of("pinkbin-cli scaffold ");
            append_str(&mut reason, scaffold_id);
            ExecuteDecision::Run { action, reason: string_of(&reason), warnings }
        },
        Err(m) => ExecuteDecision::Refused(m),
    }
}

// ───────────────────────────── walking ─────────────────────────────

/// Directory names that a walk never enters, in lowercase.
pub open spec fn pruned_names() -> Seq<Seq<char>> {
    seq!["$recycle.bin"@, "system volume information"@, ".trash"@, ".trashes"@]
}

fn pruned_name(i: usize) -> (r: &'static str)
    requires
        i < 4,
    ensures
        r@ == pruned_names()[i as int],
{
    if i == 0 {
        "$recycle.bin"
    } else if i == 1 {
        "system volume information"
    } else if i == 2 {
        ".trash"
    } else {
        ".trashes"
    }
}

/// A directory the walk skips: the recycle bin, the volume information and
/// the trash folders, whatever their ASCII case.
pub fn is_pruned_system_dir(name: &str) -> (r: bool)
    ensures
        r == pruned_names().contains(ascii_lower_seq(name@)),
{
    let lower = to_ascii_lowercase(&chars_of(name));
    let mut i: usize = 0;
    while i < 4
        invariant
            i <= 4,
            lower@ == ascii_lower_seq(name@),
            forall|j: int| 0 <= j < i ==> pruned_names()[j] != lower@,
        decreases 4 - i,
    {
        let p = chars_of(pruned_name(i));
        if seq_eq(&lower, &p) {
            assert(pruned_names()[i as int] == lower@);
            return true;
        }
        i = i + 1;
    }
    assert(!pruned_names().contains(lower@)) by {
        if pruned_names().contains(lower@) {
            let j = choose|j: int| 0 <= j < pruned_names().len() && pruned_names()[j] == lower@;
            assert(pruned_names()[j] != lower@);
        }
    }
    false
}

/// Sum of sizes, stopping at `u64::MAX`.
pub open spec fn saturating_sum(sizes: Seq<u64>) -> int
    decreases sizes.len(),
{
    if sizes.len() == 0 {
        0
    } else {
        let s = saturating_sum(sizes.drop_last()) + sizes.last();
        if s > u64::MAX {
            u64::MAX as int
        } else {
            s
        }
    }
}

/// The total size of the files under a directory, given the size of each,
/// added up with saturation.
pub fn dir_size(file_sizes: &Vec<u64>) -> (r: u64)
    ensures
        r == saturating_sum(file_sizes@),
{
    let mut total: u64 = 0;
    let mut i: usize = 0;
    while i < file_sizes.len()
        invariant
            i <= file_sizes@.len(),
            total == saturating_sum(file_sizes@.take(i as int)),
        decreases file_sizes@.len() - i,
    {
        assert(file_sizes@.take(i + 1).drop_last() =~= file_sizes@.take(i as int));
        total = total.saturating_add(file_sizes[i]);
        i = i + 1;
    }
    assert(file_sizes@.take(file_sizes@.len() as int) =~= file_sizes@);
    total
}

/// A directory matched by a scope: the byte length of its path and the
/// path's components.
#[derive(Debug)]
pub struct MatchedDir {
    pub byte_len: usize,
    pub components: Vec<String>,
}

pub open spec fn components_of(d: MatchedDir) -> Seq<Seq<char>> {
    d.components@.map_values(|c: String| c@)
}

/// `base` is a whole-component prefix of `path` (`Path::starts_with`).
pub open spec fn starts_with_components(path: Seq<Seq<char>>, base: Seq<Seq<char>>) -> bool {
    base.len() <= path.len() && path.take(base.len() as int) == base
}

/// Keys that order directories by path length, shortest first.
pub open spec fn shortness(ds: Seq<MatchedDir>) -> Seq<u64> {
    ds.map_values(|d: MatchedDir| (u64::MAX - d.byte_len) as u64)
}

/// Walking `order` from the front, the positions kept: each directory not
/// below one already kept.
pub open spec fn kept_dirs(ds: Seq<MatchedDir>, order: Seq<usize>) -> Seq<usize>
    decreases order.len(),
{
    if order.len() == 0 {
        Seq::empty()
    } else {
        let prev = kept_dirs(ds, order.drop_last());
        let c = order.last();
        if exists|k: int|
            0 <= k < prev.len() && starts_with_components(
                components_of(ds[c as int]),
                components_of(ds[#[trigger] prev[k] as int]),
            ) {
            prev
        } else {
            prev.push(c)
        }
    }
}

fn starts_with_components_exec(path: &Vec<String>, base: &Vec<String>) -> (r: bool)
    ensures
        r == starts_with_components(
            path@.map_values(|c: String| c@),
            base@.map_values(|c: String| c@),
        ),
{
    let ghost pv = path@.map_values(|c: String| c@);
    let ghost bv = base@.map_values(|c: String| c@);
    if base.len() > path.len() {
        return false;
    }
    let mut i: usize = 0;
    while i < base.len()
        invariant
            base@.len() <= path@.len(),
            i <= base@.len(),
            pv == path@.map_values(|c: String| c@),
            bv == base@.map_values(|c: String| c@),
            forall|j: int| 0 <= j < i ==> pv[j] == bv[j],
        decreases base@.len() - i,
    {
        if path[i] != base[i] {
            assert(pv.take(bv.len() as int)[i as int] != bv[i as int]);
            return false;
        }
        i = i + 1;
    }
    assert(pv.take(bv.len() as int) =~= bv);
    true
}

/// The matched directories that are not inside another matched directory:
/// taken shortest path first (ties in match order), each is kept unless a
/// kept one is a component prefix of it. The result lists positions in
/// `dirs`, in the order they were kept.
pub fn prune_nested_dirs(dirs: &Vec<MatchedDir>) -> (r: Vec<usize>)
    ensures
        exists|p: Seq<usize>|
            #![trigger is_permutation(p, dirs@.len())]
            is_permutation(p, dirs@.len()) && sorted_desc_stable(shortness(dirs@), p) && r@ == kept_dirs(
                dirs@,
                p,
            ),
{
    let mut keys: Vec<u64> = Vec::new();
    let mut i: usize = 0;
    while i < dirs.len()
        invariant
            i <= dirs@.len(),
            keys@ == shortness(dirs@).take(i as int),
        decreases dirs@.len() - i,
    {
        let len = dirs[i].byte_len as u64;
        keys.push(u64::MAX - len);
        i = i + 1;
        assert(keys@ =~= shortness(dirs@).take(i as int));
    }
    assert(keys@ =~= shortness(dirs@));
    let p = stable_order_desc(&keys);
    let mut kept: Vec<usize> = Vec::new();
    let mut j: usize = 0;
    while j < p.len()
        invariant
            j <= p@.len() == dirs@.len(),
            is_permutation(p@, dirs@.len()),
            kept@ == kept_dirs(dirs@, p@.take(j as int)),
            forall|k: int| 0 <= k < kept@.len() ==> #[trigger] kept@[k] < dirs@.len(),
        decreases p@.len() - j,
    {
        let c = p[j];
        let mut inside = false;
        let mut k: usize = 0;
        while k < kept.len()
            invariant
                k <= kept@.len(),
                c < dirs@.len(),
                forall|q: int| 0 <= q < kept@.len() ==> #[trigger] kept@[q] < dirs@.len(),
                inside == exists|q: int|
                    0 <= q < k && starts_with_components(
                        components_of(dirs@[c as int]),
                        components_of(dirs@[#[trigger] kept@[q] as int]),
                    ),
            decreases kept@.len() - k,
        {
            if starts_with_components_exec(&dirs[c].components, &dirs[kept[k]].components) {
                inside = true;
            }
            k = k + 1;
        }
        assert(p@.take(j + 1).drop_last() =~= p@.take(j as int));
        assert(p@.take(j + 1).last() == c);
        if !inside {
            kept.push(c);
        }
        j = j + 1;
    }
    assert(p@.take(p@.len() as int) =~= p@);
    kept
}

// ───────────────────────────── elevation ─────────────────────────────

/// `args` without any `--elevate`.
pub open spec fn without_elevate(args: Seq<String>) -> Seq<Seq<char>>
    decreases args.len(),
{
    if args.len() == 0 {
        Seq::empty()
    } else if args.last()@ == "--elevate"@ {
        without_elevate(args.drop_last())
    } else {
        without_elevate(args.drop_last()).push(args.last()@)
    }
}

/// The elevated child never receives `--elevate` from its parent's
/// arguments, so it cannot ask for elevation again.
pub proof fn lemma_child_never_elevates(args: Seq<String>)
    ensures
        forall|k: int|
            0 <= k < without_elevate(args).len() ==> #[trigger] without_elevate(args)[k] != "--elevate"@,
    decreases args.len(),
{
    if args.len() > 0 {
        let rest = args.drop_last();
        lemma_child_never_elevates(rest);
        let w = without_elevate(args);
        if args.last()@ != "--elevate"@ {
            assert forall|k: int| 0 <= k < w.len() implies #[trigger] w[k] != "--elevate"@ by {
                if k < w.len() - 1 {
                    assert(w[k] == without_elevate(rest)[k]);
                }
            }
        }
    }
}

/// The arguments of the elevated child: those of the parent without
/// `--elevate`, then `--elevated-output` and the file that receives its
/// output.
pub fn elevated_child_args(args: &Vec<String>, output_path: &str) -> (r: Vec<String>)
    ensures
        r@.map_values(|s: String| s@) == without_elevate(args@).push("--elevated-output"@).push(
            output_path@,
        ),
{
    let flag = String::from_str("--elevate");
    let mut r: Vec<String> = Vec::new();
    let mut i: usize = 0;
    while i < args.len()
        invariant
            i <= args@.len(),
            flag@ == "--elevate"@,
            r@.map_values(|s: String| s@) == without_elevate(args@.take(i as int)),
        decreases args@.len() - i,
    {
        assert(args@.take(i + 1).drop_last() =~= args@.take(i as int));
        if args[i] != flag {
            r.push(args[i].clone());
            assert(r@.map_values(|s: String| s@) =~= without_elevate(args@.take(i as int)).push(
                args@[i as int]@,
            ));
        }
        i = i + 1;
    }
    assert(args@.take(args@.len() as int) =~= args@);
    let ghost before = r@;
    r.push(String::from_str("--elevated-output"));
    r.push(String::from_str(output_path));
    assert(r@.map_values(|s: String| s@) =~= before.map_values(|s: String| s@).push(
        "--elevated-output"@,
    ).push(output_path@));
    r
}


// ───────────────────────────── system-command scopes ─────────────────────────────

/// Result of one system-command scope.
#[derive(Debug)]
pub struct SystemCmdResult {
    pub scope_id: String,
    pub command: String,
    pub executed: bool,
    pub requires_admin: bool,
    pub exit_code: Option<i32>,
    pub stdout: String,
    pub stderr: String,
    pub error: Option<String>,
}

impl SystemCmdResult {
    /// A dry-run result is still worth an audit entry when there was a
    /// command and nothing went wrong.
    pub fn dry_run_is_actionable(&self) -> (r: bool)
        ensures
            r == (self.command@.len() > 0 && self.error is None),
    {
        !self.command.as_str().is_empty() && self.error.is_none()
    }
}

/// The command part of a scope result.
pub open spec fn cmd_part(r: SystemCmdResult) -> CmdResult {
    CmdResult {
        command: r.command,
        executed: r.executed,
        requires_admin: r.requires_admin,
        exit_code: r.exit_code,
        stdout: r.stdout,
        stderr: r.stderr,
        error: r.error,
    }
}

fn with_scope(scope_id: String, c: CmdResult) -> (r: SystemCmdResult)
    ensures
        r.scope_id == scope_id,
        cmd_part(r) == c,
{
    SystemCmdResult {
        scope_id,
        command: c.command,
        executed: c.executed,
        requires_admin: c.requires_admin,
        exit_code: c.exit_code,
        stdout: c.stdout,
        stderr: c.stderr,
        error: c.error,
    }
}

/// Either the final result of a scope, or the command to launch first.
#[derive(Debug)]
pub enum SystemCmdStep {
    Done(SystemCmdResult),
    Run { scope_id: String, launch: CmdLaunch },
}

pub open spec fn unwrap_or_empty(s: Option<String>) -> Seq<char> {
    match s {
        Some(c) => c@,
        None => Seq::empty(),
    }
}

pub open spec fn system_cmd_non_windows() -> Seq<char> {
    "system_cmd 只能在 Windows 上执行(当前非 Windows 环境)"@
}

pub open spec fn dry_run_admin_note() -> Seq<char> {
    "[dry-run] 注意: 此命令需要管理员权限"@
}

/// The step of one system-command scope: an empty command is refused, a
/// dry run reports what would run, a host that is not Windows refuses, and
/// anything else is launched. A missing command counts as empty and a
/// missing admin flag as `false`.
pub fn system_cmd_step(
    scope_id: String,
    command: Option<String>,
    requires_admin: Option<bool>,
    dry_run: bool,
    on_windows: bool,
) -> (step: SystemCmdStep)
    ensures
        ({
            let cmd = unwrap_or_empty(command);
            let admin = requires_admin == Some(true);
            if cmd.len() == 0 {
                step matches SystemCmdStep::Done(r) && r.scope_id == scope_id && refused(
                    cmd_part(r),
                    Seq::empty(),
                    admin,
                    "scope.command 为空"@,
                )
            } else if dry_run {
                step matches SystemCmdStep::Done(r) && r.scope_id == scope_id && r.command@ == cmd
                    && !r.executed && r.requires_admin == admin && r.exit_code is None && r.stdout@
                    == "[dry-run] 将运行: "@ + cmd && r.stderr@ == (if admin {
                    dry_run_admin_note()
                } else {
                    Seq::<char>::empty()
                }) && r.error is None
            } else if !on_windows {
                step matches SystemCmdStep::Done(r) && r.scope_id == scope_id && refused(
                    cmd_part(r),
                    cmd,
                    admin,
                    system_cmd_non_windows(),
                )
            } else {
                step matches SystemCmdStep::Run { scope_id: id, launch } && id == scope_id
                    && launch.command@ == cmd && launch.requires_admin == admin
            }
        }),
{
    let command = match command {
        Some(c) => c,
        None => String::new(),
    };
    let requires_admin = match requires_admin {
        Some(b) => b,
        None => false,
    };
    if command.as_str().is_empty() {
        let r = refusal(String::new(), requires_admin, String::from_str("scope.command 为空"));
        return SystemCmdStep::Done(with_scope(scope_id, r));
    }
    if dry_run {
        let stdout = lit_concat("[dry-run] 将运行: ", &chars_of(command.as_str()));
        let stderr = if requires_admin {
            String::from_str("[dry-run] 注意: 此命令需要管理员权限")
        } else {
            String::new()
        };
        return SystemCmdStep::Done(
            SystemCmdResult {
                scope_id,
                command,
                executed: false,
                requires_admin,
                exit_code: None,
                stdout,
                stderr,
                error: None,
            },
        );
    }
    if !on_windows {
        let r = refusal(
            command,
            requires_admin,
            String::from_str("system_cmd 只能在 Windows 上执行(当前非 Windows 环境)"),
        );
        return SystemCmdStep::Done(with_scope(scope_id, r));
    }
    SystemCmdStep::Run { scope_id, launch: CmdLaunch { command, requires_admin } }
}

/// The result of a launched scope command, as [`finish_cmd`] reads the
/// outcome.
pub fn system_cmd_finish(scope_id: String, launch: CmdLaunch, outcome: ProcessOutcome) -> (r:
    SystemCmdResult)
    ensures
        r.scope_id == scope_id,
        finished(cmd_part(r), launch, outcome),
{
    let c = finish_cmd(launch, outcome);
    with_scope(scope_id, c)
}

/// What the preview of a system-command scope shows.
#[derive(Debug)]
pub struct SystemCmdScopePreview {
    pub scope_id: String,
    pub label: String,
    pub command: String,
    pub requires_admin: bool,
    /// The directory the command works on, with `/` separators.
    pub target_path: String,
    pub target_exists: bool,
    pub target_size_bytes: u64,
    pub target_file_count: u64,
}

/// Previews a system-command scope: its command (empty when missing), its
/// admin flag (`false` when missing) and the directory it works on, with
/// that directory's size and file count when it exists (zero when it could
/// not be scanned).
pub fn system_cmd_scope_preview(
    scope_id: String,
    label: String,
    command: Option<String>,
    requires_admin: Option<bool>,
    target: &str,
    target_exists: bool,
    scanned: Option<(u64, u64)>,
) -> (r: SystemCmdScopePreview)
    ensures
        r.scope_id == scope_id,
        r.label == label,
        r.command@ == unwrap_or_empty(command),
        r.requires_admin == (requires_admin == Some(true)),
        r.target_path@ == replace_char(target@, '\\', '/'),
        r.target_exists == target_exists,
        (r.target_size_bytes, r.target_file_count) == (match (target_exists, scanned) {
            (true, Some(sc)) => sc,
            _ => (0u64, 0u64),
        }),
{
    let command = match command {
        Some(c) => c,
        None => String::new(),
    };
    let requires_admin = match requires_admin {
        Some(b) => b,
        None => false,
    };
    let (size, count) = if target_exists {
        match scanned {
            Some(sc) => sc,
            None => (0, 0),
        }
    } else {
        (0, 0)
    };
    SystemCmdScopePreview {
        scope_id,
        label,
        command,
        requires_admin,
        target_path: string_of(&replace_char_exec(&chars_of(target), '\\', '/')),
        target_exists,
        target_size_bytes: size,
        target_file_count: count,
    }
}

/// `r` lists, in increasing order, exactly the indices below `n` that
/// satisfy `p`.
pub open spec fn lists_exactly(r: Seq<usize>, n: int, p: spec_fn(int) -> bool) -> bool {
    &&& forall|a: int, b: int| 0 <= a < b < r.len() ==> r[a] < r[b]
    &&& forall|a: int| 0 <= a < r.len() ==> (#[trigger] r[a]) < n && p(r[a] as int)
    &&& forall|i: int| 0 <= i < n && #[trigger] p(i) ==> exists|a: int| 0 <= a < r.len() && r[a] == i
}

/// A scope result is logged when its command ran, or when it would have
/// run in a dry run.
pub open spec fn logged(r: SystemCmdResult) -> bool {
    r.executed || (r.command@.len() > 0 && r.error is None)
}

/// The results that go to the undo log, in order.
pub fn undo_log_entries(results: &Vec<SystemCmdResult>) -> (r: Vec<usize>)
    ensures
        lists_exactly(r@, results@.len() as int, |i: int| logged(results@[i])),
{
    let ghost p = |i: int| logged(results@[i]);
    let mut r: Vec<usize> = Vec::new();
    let mut i: usize = 0;
    while i < results.len()
        invariant
            i <= results@.len(),
            p == (|i: int| logged(results@[i])),
            lists_exactly(r@, i as int, p),
        decreases results@.len() - i,
    {
        let ghost old_r = r@;
        if results[i].executed || results[i].dry_run_is_actionable() {
            r.push(i);
            proof {
                assert forall|j: int| 0 <= j < i + 1 && #[trigger] p(j) implies exists|a: int|
                    0 <= a < r@.len() && r@[a] == j by {
                    if j < i {
                        let a = choose|a: int| 0 <= a < old_r.len() && old_r[a] == j;
                        assert(r@[a] == j);
                    } else {
                        assert(r@[r@.len() - 1] == j);
                    }
                }
            }
        } else {
            proof {
                assert forall|j: int| 0 <= j < i + 1 && #[trigger] p(j) implies exists|a: int|
                    0 <= a < r@.len() && r@[a] == j by {
                    if j == i {
                        assert(!p(j));
                    }
                }
            }
        }
        i = i + 1;
    }
    r
}


// ───────────────────────────── guard verdicts ─────────────────────────────

/// The label of a verdict and, for a warning or a block, its reason.
pub open spec fn verdict_label(v: VerdictModel) -> (Seq<char>, Option<Seq<char>>) {
    match v {
        VerdictModel::Block(r) => ("block"@, Some(r)),
        VerdictModel::Warn(r) => ("warn"@, Some(r)),
        VerdictModel::Pass => ("pass"@, None),
        VerdictModel::NeedsReview => ("needs_review"@, None),
    }
}

pub open spec fn opt_view(o: Option<String>) -> Option<Seq<char>> {
    match o {
        Some(s) => Some(s@),
        None => None,
    }
}

/// Reports a verdict as its label and reason.
pub fn label_verdict(v: Verdict) -> (r: (String, Option<String>))
    ensures
        (r.0@, opt_view(r.1)) == verdict_label(v@),
{
    match v {
        Verdict::Block(reason) => (String::from_str("block"), Some(reason)),
        Verdict::Warn(reason) => (String::from_str("warn"), Some(reason)),
        Verdict::Pass => (String::from_str("pass"), None),
        Verdict::NeedsReview => (String::from_str("needs_review"), None),
    }
}

// ───────────────────────────── uninstall ─────────────────────────────

/// The application's name equals the query, ignoring case.
pub open spec fn exact_name(apps: Seq<InstalledApp>, query: Seq<char>, i: int) -> bool {
    unicode_lowercase(apps[i].name@) == unicode_lowercase(query)
}

pub open spec fn any_exact_name(apps: Seq<InstalledApp>, query: Seq<char>) -> bool {
    exists|i: int| 0 <= i < apps.len() && #[trigger] exact_name(apps, query, i)
}

/// The applications an uninstall addresses: those whose name equals the
/// query ignoring case, or, when there is none, those whose name contains it.
pub open spec fn is_uninstall_candidates(r: Seq<usize>, apps: Seq<InstalledApp>, query: Seq<char>) -> bool {
    if any_exact_name(apps, query) {
        lists_exactly(r, apps.len() as int, |i: int| exact_name(apps, query, i))
    } else {
        lists_exactly(r, apps.len() as int, |i: int| name_matches(apps[i].name@, query))
    }
}

/// Indices of the applications an uninstall of `app_name` addresses.
pub fn uninstall_candidates(apps: &Vec<InstalledApp>, app_name: &str) -> (r: Vec<usize>)
    ensures
        is_uninstall_candidates(r@, apps@, app_name@),
{
    let q = lowercase(&chars_of(app_name));
    let ghost pe = |i: int| exact_name(apps@, app_name@, i);
    let ghost ps = |i: int| name_matches(apps@[i].name@, app_name@);
    let mut exact: Vec<usize> = Vec::new();
    let mut sub: Vec<usize> = Vec::new();
    let mut i: usize = 0;
    while i < apps.len()
        invariant
            i <= apps@.len(),
            q@ == unicode_lowercase(app_name@),
            pe == (|i: int| exact_name(apps@, app_name@, i)),
            ps == (|i: int| name_matches(apps@[i].name@, app_name@)),
            lists_exactly(exact@, i as int, pe),
            lists_exactly(sub@, i as int, ps),
        decreases apps@.len() - i,
    {
        let name = lowercase(&chars_of(apps[i].name.as_str()));
        let is_exact = seq_eq(&name, &q);
        let is_sub = contains(&name, &q);
        let ghost old_e = exact@;
        let ghost old_s = sub@;
        if is_exact {
            exact.push(i);
        }
        if is_sub {
            sub.push(i);
        }
        proof {
            assert(pe(i as int) == is_exact);
            assert(ps(i as int) == is_sub);
            assert forall|j: int| 0 <= j < i + 1 && #[trigger] pe(j) implies exists|a: int|
                0 <= a < exact@.len() && exact@[a] == j by {
                if j < i {
                    let a = choose|a: int| 0 <= a < old_e.len() && old_e[a] == j;
                    assert(exact@[a] == j);
                } else {
                    assert(exact@[exact@.len() - 1] == j);
                }
            }
            assert forall|j: int| 0 <= j < i + 1 && #[trigger] ps(j) implies exists|a: int|
                0 <= a < sub@.len() && sub@[a] == j by {
                if j < i {
                    let a = choose|a: int| 0 <= a < old_s.len() && old_s[a] == j;
                    assert(sub@[a] == j);
                } else {
                    assert(sub@[sub@.len() - 1] == j);
                }
            }
        }
        i = i + 1;
    }
    if exact.len() > 0 {
        assert(pe(exact@[0] as int));
        exact
    } else {
        assert(!any_exact_name(apps@, app_name@)) by {
            if any_exact_name(apps@, app_name@) {
                let j = choose|j: int| 0 <= j < apps@.len() && #[trigger] exact_name(apps@, app_name@, j);
                assert(pe(j));
            }
        }
        sub
    }
}

/// The command an uninstall runs: with `silent`, MSI uninstallers get
/// `/quiet /noreboot` and others `/S`, unless they already carry `/s`.
pub open spec fn silent_command(raw: Seq<char>, silent: bool) -> Seq<char> {
    if !silent {
        raw
    } else if has_sub(unicode_lowercase(raw), "msiexec"@) {
        raw + " /quiet /noreboot"@
    } else if !has_sub(unicode_lowercase(raw), "/s"@) {
        raw + " /S"@
    } else {
        raw
    }
}

/// Builds the command an uninstall runs.
pub fn uninstall_command(raw: &str, silent: bool) -> (r: String)
    ensures
        r@ == silent_command(raw@, silent),
{
    let mut v = chars_of(raw);
    if silent {
        let lower = lowercase(&v);
        if contains(&lower, &chars_of("msiexec")) {
            append_str(&mut v, " /quiet /noreboot");
        } else if !contains(&lower, &chars_of("/s")) {
            append_str(&mut v, " /S");
        }
    }
    string_of(&v)
}

/// What an uninstall request comes to before anything runs.
#[derive(Debug)]
pub struct UninstallPlan {
    /// Indices of the matched applications.
    pub candidates: Vec<usize>,
    /// `"skip"` unless exactly one application matched, else the label of the
    /// guard's verdict on its uninstall string.
    pub guard_verdict: String,
    pub guard_reason: Option<String>,
    /// The command to run, when exactly one application matched and the
    /// guard does not block it.
    pub command_run: Option<String>,
    /// Whether the command needs administrator rights (a machine-wide install).
    pub requires_admin: bool,
}

pub open spec fn uninstall_string_of(app: InstalledApp) -> Seq<char> {
    unwrap_or_empty(app.uninstall_string)
}

/// Plans an uninstall of `app_name`: it addresses one application only, and
/// never one whose uninstall string the guard blocks.
pub fn plan_uninstall(apps: &Vec<InstalledApp>, app_name: &str, silent: bool) -> (r: UninstallPlan)
    ensures
        is_uninstall_candidates(r.candidates@, apps@, app_name@),
        r.candidates@.len() != 1 ==> r.guard_verdict@ == "skip"@ && r.guard_reason is None
            && r.command_run is None && !r.requires_admin,
        r.candidates@.len() == 1 ==> ({
            let app = apps@[r.candidates@[0] as int];
            let label = verdict_label(uninstall_model(uninstall_string_of(app)));
            &&& (r.guard_verdict@, opt_view(r.guard_reason)) == label
            &&& r.requires_admin == !app.is_per_user
            &&& if label.0 == "block"@ {
                r.command_run is None
            } else {
                r.command_run is Some && r.command_run->0@ == silent_command(
                    uninstall_string_of(app),
                    silent,
                )
            }
        }),
{
    let candidates = uninstall_candidates(apps, app_name);
    if candidates.len() != 1 {
        return UninstallPlan {
            candidates,
            guard_verdict: String::from_str("skip"),
            guard_reason: None,
            command_run: None,
            requires_admin: false,
        };
    }
    let app = &apps[candidates[0]];
    let raw = match &app.uninstall_string {
        Some(s) => s.clone(),
        None => String::new(),
    };
    let (guard_verdict, guard_reason) = label_verdict(check_uninstall_string(raw.as_str()));
    let blocked = guard_verdict == String::from_str("block");
    let command_run = if blocked {
        None
    } else {
        Some(uninstall_command(raw.as_str(), silent))
    };
    UninstallPlan {
        candidates,
        guard_verdict,
        guard_reason,
        command_run,
        requires_admin: !app.is_per_user,
    }
}

/// What a dry-run uninstall reports.
pub fn uninstall_dry_run(command_run: String, requires_admin: bool) -> (r: CmdResult)
    ensures
        r.command@ == command_run@,
        !r.executed,
        r.requires_admin == requires_admin,
        r.exit_code is None,
        r.stdout@ == "[dry-run] 将执行上述卸载命令"@,
        r.stderr@.len() == 0,
        r.error is None,
{
    CmdResult {
        command: command_run,
        executed: false,
        requires_admin,
        exit_code: None,
        stdout: String::from_str("[dry-run] 将执行上述卸载命令"),
        stderr: String::new(),
        error: None,
    }
}

pub open spec fn uninstall_non_windows() -> Seq<char> {
    "卸载命令只能在 Windows 上执行(当前非 Windows 环境)"@
}

/// The step of a real uninstall: refused off Windows, launched otherwise
/// (its outcome is read by [`finish_cmd`]).
pub fn uninstall_step(command_run: String, requires_admin: bool, on_windows: bool) -> (step: CmdStep)
    ensures
        !on_windows ==> (step matches CmdStep::Done(r) && refused(
            r,
            command_run@,
            requires_admin,
            uninstall_non_windows(),
        )),
        on_windows ==> (step matches CmdStep::Run(l) && l.command@ == command_run@
            && l.requires_admin == requires_admin),
{
    if !on_windows {
        CmdStep::Done(
            refusal(
                command_run,
                requires_admin,
                String::from_str("卸载命令只能在 Windows 上执行(当前非 Windows 环境)"),
            ),
        )
    } else {
        CmdStep::Run(CmdLaunch { command: command_run, requires_admin })
    }
}


// ───────────────────────────── migrate an application ─────────────────────────────

/// One step of moving an application.
#[derive(Debug)]
pub struct MigrateStep {
    pub step: String,
    pub description: String,
    pub executed: bool,
    pub exit_code: Option<i32>,
    pub stdout: String,
    pub stderr: String,
    pub error: Option<String>,
}

/// A command that a move runs, with its step name and description.
#[derive(Debug)]
pub struct MigrateCommand {
    pub step: String,
    pub description: String,
    pub command: String,
}

/// What a request to move an application comes to before anything runs.
#[derive(Debug)]
pub struct MigratePlan {
    /// The target drive letter, upper case.
    pub target_drive: String,
    pub target_path: String,
    pub guard_verdict: String,
    pub guard_reason: Option<String>,
    /// The guard blocks the source: nothing is to run.
    pub blocked: bool,
    /// The commands to run, in order; none when the guard blocks the source.
    pub commands: Vec<MigrateCommand>,
}

/// Each backslash doubled.
pub open spec fn double_backslashes(s: Seq<char>) -> Seq<char>
    decreases s.len(),
{
    if s.len() == 0 {
        Seq::empty()
    } else if s.last() == '\\' {
        double_backslashes(s.drop_last()) + seq!['\\', '\\']
    } else {
        double_backslashes(s.drop_last()).push(s.last())
    }
}

fn double_backslashes_exec(s: &str) -> (r: Vec<char>)
    ensures
        r@ == double_backslashes(s@),
{
    let c = chars_of(s);
    let mut r: Vec<char> = Vec::new();
    let mut i: usize = 0;
    while i < c.len()
        invariant
            i <= c@.len(),
            c@ == s@,
            r@ == double_backslashes(c@.take(i as int)),
        decreases c@.len() - i,
    {
        assert(c@.take(i + 1).drop_last() =~= c@.take(i as int));
        if c[i] == '\\' {
            r.push('\\');
            r.push('\\');
        } else {
            r.push(c[i]);
        }
        i = i + 1;
        assert(r@ =~= double_backslashes(c@.take(i as int)));
    }
    assert(c@.take(c@.len() as int) =~= c@);
    r
}

/// Where an application moves: the root of the target drive, under the
/// directory's own name (or `MigratedApp` when it has none).
pub open spec fn migrate_target(letter: char, file_name: Option<Seq<char>>) -> Seq<char> {
    seq![letter] + ":\\"@ + match file_name {
        Some(n) => n,
        None => "MigratedApp"@,
    }
}

/// Copies the directory tree with its permissions.
pub open spec fn robocopy_command(source: Seq<char>, target: Seq<char>) -> Seq<char> {
    "robocopy \""@ + source + "\" \""@ + target + "\" /E /COPYALL /R:1 /W:1 /NFL /NDL /NP"@
}

/// Points the `InstallLocation` of the uninstall entries under the source
/// to the target.
pub open spec fn registry_command(source: Seq<char>, target: Seq<char>) -> Seq<char> {
    "powershell -Command \"Get-ChildItem 'HKLM:\\SOFTWARE\\Microsoft\\Windows\\CurrentVersion\\Uninstall','HKLM:\\SOFTWARE\\WOW6432Node\\Microsoft\\Windows\\CurrentVersion\\Uninstall','HKCU:\\SOFTWARE\\Microsoft\\Windows\\CurrentVersion\\Uninstall' | ForEach-Object { $p = Get-ItemProperty $_.PSPath; if ($p.InstallLocation -like '"@
        + double_backslashes(source)
        + "*') { Set-ItemProperty -Path $_.PSPath -Name InstallLocation -Value '"@
        + double_backslashes(target) + "' } }\""@
}

/// Retargets the Start-menu shortcuts that point under the source.
pub open spec fn shortcut_command(appdata: Seq<char>, source: Seq<char>, target: Seq<char>) -> Seq<char> {
    "powershell -Command \"$shell = New-Object -ComObject WScript.Shell; Get-ChildItem -Path 'C:\\ProgramData\\Microsoft\\Windows\\Start Menu','"@
        + appdata
        + "\\Microsoft\\Windows\\Start Menu' -Recurse -Filter *.lnk | ForEach-Object { $s = $shell.CreateShortcut($_.FullName); if ($s.TargetPath -like '"@
        + source + "*') { $s.TargetPath = $s.TargetPath.Replace('"@ + source + "', '"@ + target
        + "'); $s.Save() } }\""@
}

pub open spec fn bad_drive_message(target_drive: Seq<char>) -> Seq<char> {
    "target_drive 必须是单个盘符(如 D),收到: "@ + target_drive
}

/// The commands of a move, in order: copy, registry, shortcuts.
pub open spec fn migrate_commands_ok(
    cmds: Seq<MigrateCommand>,
    source: Seq<char>,
    target: Seq<char>,
    appdata: Seq<char>,
) -> bool {
    &&& cmds.len() == 3
    &&& cmds[0].step@ == "robocopy"@
    &&& cmds[0].description@ == "复制目录到 "@ + target
    &&& cmds[0].command@ == robocopy_command(source, target)
    &&& cmds[1].step@ == "update_registry"@
    &&& cmds[1].description@ == "修改注册表 InstallLocation 指向新路径"@
    &&& cmds[1].command@ == registry_command(source, target)
    &&& cmds[2].step@ == "update_shortcuts"@
    &&& cmds[2].description@ == "更新开始菜单快捷方式指向新路径"@
    &&& cmds[2].command@ == shortcut_command(appdata, source, target)
}

/// Plans moving the application installed at `source_path` (whose last
/// component is `file_name`) to `target_drive`. The drive must be a single
/// letter (a trailing `:` or `\` is allowed); a source the guard blocks gets
/// no command. `appdata` is the user's roaming application-data directory.
pub fn plan_migrate_app(
    source_path: &str,
    file_name: Option<&str>,
    target_drive: &str,
    appdata: &str,
) -> (r: Result<MigratePlan, String>)
    ensures
        drive_letter(target_drive@) is None ==> (r matches Err(e) && e@ == bad_drive_message(
            target_drive@,
        )),
        drive_letter(target_drive@) matches Some(u) ==> (r matches Ok(p) && {
            let target = migrate_target(
                u,
                match file_name {
                    Some(n) => Some(n@),
                    None => None,
                },
            );
            let label = verdict_label(check_model(normalize_spec(source_path@)));
            &&& p.target_drive@ == seq![u]
            &&& p.target_path@ == target
            &&& (p.guard_verdict@, opt_view(p.guard_reason)) == label
            &&& p.blocked == (label.0 == "block"@)
            &&& if label.0 == "block"@ {
                p.commands@.len() == 0
            } else {
                migrate_commands_ok(p.commands@, source_path@, target, appdata@)
            }
        }),
{
    let letter = match parse_drive_letter(target_drive) {
        Some(u) => u,
        None => {
            return Err(lit_concat("target_drive 必须是单个盘符(如 D),收到: ", &chars_of(target_drive)));
        },
    };
    let mut drive: Vec<char> = Vec::new();
    drive.push(letter);
    let mut target: Vec<char> = Vec::new();
    target.push(letter);
    append_str(&mut target, ":\\");
    match file_name {
        Some(n) => append_str(&mut target, n),
        None => append_str(&mut target, "MigratedApp"),
    }
    let target_path = string_of(&target);
    let (guard_verdict, guard_reason) = label_verdict(check(source_path));
    let mut commands: Vec<MigrateCommand> = Vec::new();
    let blocked = guard_verdict == String::from_str("block");
    if !blocked {
        let mut robo: Vec<char> = Vec::new();
        append_str(&mut robo, "robocopy \"");
        append_str(&mut robo, source_path);
        append_str(&mut robo, "\" \"");
        append_str(&mut robo, target_path.as_str());
        append_str(&mut robo, "\" /E /COPYALL /R:1 /W:1 /NFL /NDL /NP");
        let mut desc: Vec<char> = Vec::new();
        append_str(&mut desc, "复制目录到 ");
        append_str(&mut desc, target_path.as_str());
        commands.push(
            MigrateCommand {
                step: String::from_str("robocopy"),
                description: string_of(&desc),
                command: string_of(&robo),
            },
        );
        let mut reg: Vec<char> = Vec::new();
        append_str(
            &mut reg,
            "powershell -Command \"Get-ChildItem 'HKLM:\\SOFTWARE\\Microsoft\\Windows\\CurrentVersion\\Uninstall','HKLM:\\SOFTWARE\\WOW6432Node\\Microsoft\\Windows\\CurrentVersion\\Uninstall','HKCU:\\SOFTWARE\\Microsoft\\Windows\\CurrentVersion\\Uninstall' | ForEach-Object { $p = Get-ItemProperty $_.PSPath; if ($p.InstallLocation -like '",
        );
        let ds = double_backslashes_exec(source_path);
        let reg = concat(&reg, &ds);
        let mut reg = reg;
        append_str(&mut reg, "*') { Set-ItemProperty -Path $_.PSPath -Name InstallLocation -Value '");
        let dt = double_backslashes_exec(target_path.as_str());
        let reg = concat(&reg, &dt);
        let mut reg = reg;
        append_str(&mut reg, "' } }\"");
        commands.push(
            MigrateCommand {
                step: String::from_str("update_registry"),
                description: String::from_str("修改注册表 InstallLocation 指向新路径"),
                command: string_of(&reg),
            },
        );
        let mut lnk: Vec<char> = Vec::new();
        append_str(
            &mut lnk,
            "powershell -Command \"$shell = New-Object -ComObject WScript.Shell; Get-ChildItem -Path 'C:\\ProgramData\\Microsoft\\Windows\\Start Menu','",
        );
        append_str(&mut lnk, appdata);
        append_str(
            &mut lnk,
            "\\Microsoft\\Windows\\Start Menu' -Recurse -Filter *.lnk | ForEach-Object { $s = $shell.CreateShortcut($_.FullName); if ($s.TargetPath -like '",
        );
        append_str(&mut lnk, source_path);
        append_str(&mut lnk, "*') { $s.TargetPath = $s.TargetPath.Replace('");
        append_str(&mut lnk, source_path);
        append_str(&mut lnk, "', '");
        append_str(&mut lnk, target_path.as_str());
        append_str(&mut lnk, "'); $s.Save() } }\"");
        commands.push(
            MigrateCommand {
                step: String::from_str("update_shortcuts"),
                description: String::from_str("更新开始菜单快捷方式指向新路径"),
                command: string_of(&lnk),
            },
        );
    }
    Ok(
        MigratePlan {
            target_drive: string_of(&drive),
            target_path,
            guard_verdict,
            guard_reason,
            blocked,
            commands,
        },
    )
}


/// Either a finished step, or the command to launch for it.
#[derive(Debug)]
pub enum MigrateStepStart {
    Done(MigrateStep),
    Run(CmdLaunch),
}

/// How a step is reported before anything runs: a dry run says what would
/// run, a host that is not Windows refuses, anything else is launched.
pub fn migrate_step_start(step: &str, description: &str, command: &str, dry_run: bool, on_windows: bool) -> (r:
    MigrateStepStart)
    ensures
        dry_run ==> (r matches MigrateStepStart::Done(s) && s.step@ == step@ && s.description@
            == description@ && !s.executed && s.exit_code is None && s.stdout@ == "[dry-run] 将运行: "@
            + command@ && s.stderr@.len() == 0 && s.error is None),
        !dry_run && !on_windows ==> (r matches MigrateStepStart::Done(s) && s.step@ == step@
            && s.description@ == description@ && !s.executed && s.exit_code is None
            && s.stdout@.len() == 0 && s.stderr@.len() == 0 && (s.error matches Some(e) && e@
            == "此命令只能在 Windows 上执行(当前非 Windows 环境)"@)),
        !dry_run && on_windows ==> (r matches MigrateStepStart::Run(l) && l.command@ == command@
            && !l.requires_admin),
{
    if dry_run {
        return MigrateStepStart::Done(
            MigrateStep {
                step: String::from_str(step),
                description: String::from_str(description),
                executed: false,
                exit_code: None,
                stdout: lit_concat("[dry-run] 将运行: ", &chars_of(command)),
                stderr: String::new(),
                error: None,
            },
        );
    }
    if !on_windows {
        return MigrateStepStart::Done(
            MigrateStep {
                step: String::from_str(step),
                description: String::from_str(description),
                executed: false,
                exit_code: None,
                stdout: String::new(),
                stderr: String::new(),
                error: Some(String::from_str("此命令只能在 Windows 上执行(当前非 Windows 环境)")),
            },
        );
    }
    MigrateStepStart::Run(CmdLaunch { command: String::from_str(command), requires_admin: false })
}

/// A launched step succeeded: robocopy reports success with exit codes
/// below 8, other commands with a successful exit status.
pub open spec fn step_succeeded(step: Seq<char>, exit_code: Option<i32>, success: bool) -> bool {
    if step == "robocopy"@ {
        exit_code matches Some(c) && c < 8
    } else {
        success
    }
}

/// The report of a launched step.
pub fn migrate_step_finish(step: &str, description: &str, outcome: ProcessOutcome) -> (r: MigrateStep)
    ensures
        r.step@ == step@,
        r.description@ == description@,
        match outcome {
            ProcessOutcome::Exited { exit_code, success, stdout, stderr } => {
                &&& r.executed == step_succeeded(step@, exit_code, success)
                &&& r.exit_code == exit_code
                &&& r.stdout@ == stdout@
                &&& r.stderr@ == stderr@
                &&& if r.executed {
                    r.error is None
                } else {
                    r.error matches Some(e) && e@ == "退出码: "@ + debug_exit_code(exit_code)
                }
            },
            ProcessOutcome::SpawnFailed(msg) => {
                &&& !r.executed
                &&& r.exit_code is None
                &&& r.stdout@.len() == 0
                &&& r.stderr@.len() == 0
                &&& r.error matches Some(e) && e@ == "命令启动失败: "@ + msg@
            },
        },
{
    match outcome {
        ProcessOutcome::Exited { exit_code, success, stdout, stderr } => {
            let is_robocopy = seq_eq(&chars_of(step), &chars_of("robocopy"));
            let ok = if is_robocopy {
                match exit_code {
                    Some(c) => c < 8,
                    None => false,
                }
            } else {
                success
            };
            let error = if ok {
                None
            } else {
                Some(lit_concat("退出码: ", &debug_exit_code_exec(exit_code)))
            };
            MigrateStep {
                step: String::from_str(step),
                description: String::from_str(description),
                executed: ok,
                exit_code,
                stdout,
                stderr,
                error,
            }
        },
        ProcessOutcome::SpawnFailed(msg) => MigrateStep {
            step: String::from_str(step),
            description: String::from_str(description),
            executed: false,
            exit_code: None,
            stdout: String::new(),
            stderr: String::new(),
            error: Some(lit_concat("命令启动失败: ", &chars_of(msg.as_str()))),
        },
    }
}

/// The last step of every move: the source directory stays in place until
/// the user has checked the new one.
pub fn keep_source_step() -> (r: MigrateStep)
    ensures
        r.step@ == "keep_source"@,
        r.description@ == "保留原目录(验证新路径可用后手动删除,避免迁移失败导致软件损坏)"@,
        r.executed,
        r.exit_code is None,
        r.stdout@.len() == 0,
        r.stderr@.len() == 0,
        r.error is None,
{
    MigrateStep {
        step: String::from_str("keep_source"),
        description: String::from_str("保留原目录(验证新路径可用后手动删除,避免迁移失败导致软件损坏)"),
        executed: true,
        exit_code: None,
        stdout: String::new(),
        stderr: String::new(),
        error: None,
    }
}

} // verus!
