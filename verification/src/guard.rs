//! Risk gate for every cleanup action: classifies single paths, audits whole
//! plans, and screens uninstall command strings.
//!
//! Paths are compared case-insensitively after turning `\` into `/` and
//! dropping trailing `/`. System-critical locations are always blocked unless
//! the caller passes `allow_system`, and even then they stay on record.

use vstd::prelude::*;
use crate::text::{
    chars_of, concat, contains, ends_with, ends_with_exec, has_sub, lowercase, occurs_at, occurs_at_exec,
    replace_char, replace_char_exec, seq_eq, starts_with, starts_with_exec, string_of, trim_end_char,
    trim_end_char_exec, unicode_lowercase,
};

verus! {

/// Outcome of auditing a whole plan.
pub enum AuditResult {
    /// No path was blocked; `warnings` lists the paths the caller should surface.
    Approved { warnings: Vec<AuditNote> },
    /// At least one path was blocked; the caller must abort.
    Rejected { blocked: Vec<AuditNote>, warnings: Vec<AuditNote> },
}

/// One audited path with the reason it was flagged.
#[derive(Debug, Clone)]
pub struct AuditNote {
    pub path: String,
    pub reason: String,
    pub class: Class,
}

/// Classification of a single path.
#[derive(Debug, Clone, Copy, PartialEq, Eq, Structural)]
pub enum Class {
    /// System-critical location; always blocked.
    Protected,
    /// User data directory; needs explicit confirmation.
    UserData,
    /// System temporary files.
    SystemTemp,
    /// Cache-like location.
    Cache,
    /// Not recognised; left to the agent.
    Unknown,
}

/// Verdict on one path or command.
#[derive(Debug)]
pub enum Verdict {
    Pass,
    Warn(String),
    Block(String),
    NeedsReview,
}

/// Audit options. `allow_system` is the only escape hatch: protected paths
/// become warnings instead of blocks.
#[derive(Debug, Clone)]
pub struct AuditFlags {
    pub allow_system: bool,
    /// Scaffolds the user explicitly confirmed.
    pub confirmed_scaffolds: Vec<String>,
}

impl Default for AuditFlags {
    fn default() -> (r: Self)
        ensures
            !r.allow_system,
            r.confirmed_scaffolds@.len() == 0,
    {
        AuditFlags { allow_system: false, confirmed_scaffolds: Vec::new() }
    }
}

/// Mathematical value of a [`Verdict`].
pub enum VerdictModel {
    Pass,
    Warn(Seq<char>),
    Block(Seq<char>),
    NeedsReview,
}

impl View for Verdict {
    type V = VerdictModel;

    open spec fn view(&self) -> VerdictModel {
        match self {
            Verdict::Pass => VerdictModel::Pass,
            Verdict::Warn(r) => VerdictModel::Warn(r@),
            Verdict::Block(r) => VerdictModel::Block(r@),
            Verdict::NeedsReview => VerdictModel::NeedsReview,
        }
    }
}

/// Mathematical value of an [`AuditNote`].
pub struct NoteModel {
    pub path: Seq<char>,
    pub reason: Seq<char>,
    pub class: Class,
}

impl View for AuditNote {
    type V = NoteModel;

    open spec fn view(&self) -> NoteModel {
        NoteModel { path: self.path@, reason: self.reason@, class: self.class }
    }
}

/// Mathematical value of an [`AuditResult`].
pub enum AuditModel {
    Approved(Seq<NoteModel>),
    Rejected(Seq<NoteModel>, Seq<NoteModel>),
}

pub open spec fn notes_view(v: Seq<AuditNote>) -> Seq<NoteModel> {
    v.map_values(|n: AuditNote| n@)
}

impl View for AuditResult {
    type V = AuditModel;

    open spec fn view(&self) -> AuditModel {
        match self {
            AuditResult::Approved { warnings } => AuditModel::Approved(notes_view(warnings@)),
            AuditResult::Rejected { blocked, warnings } => AuditModel::Rejected(
                notes_view(blocked@),
                notes_view(warnings@),
            ),
        }
    }
}

// ───────────────────────────── rule tables ─────────────────────────────

/// System-critical prefixes (lowercase, `/`-separated). Anything at or below
/// one of them is blocked.
pub open spec fn protected_paths() -> Seq<Seq<char>> {
    seq![
        "c:/windows/system32"@,
        "c:/windows/syswow64"@,
        "c:/windows/winsxs"@,
        "c:/windows/boot"@,
        "c:/windows/efi"@,
        "c:/windows/fonts"@,
        "c:/windows/system"@,
        "c:/windows/system32/config"@,
        "c:/boot"@,
        "c:/efi"@,
        "c:/$recycle.bin"@,
        "c:/system volume information"@,
        "c:/windows/system32/config"@,
        "c:/program files"@,
        "c:/program files (x86)"@,
        "c:/programdata"@,
    ]
}

fn protected_path(i: usize) -> (r: &'static str)
    requires
        i < 16,
    ensures
        r@ == protected_paths()[i as int],
{
    match i {
        0 => "c:/windows/system32",
        1 => "c:/windows/syswow64",
        2 => "c:/windows/winsxs",
        3 => "c:/windows/boot",
        4 => "c:/windows/efi",
        5 => "c:/windows/fonts",
        6 => "c:/windows/system",
        7 => "c:/windows/system32/config",
        8 => "c:/boot",
        9 => "c:/efi",
        10 => "c:/$recycle.bin",
        11 => "c:/system volume information",
        12 => "c:/windows/system32/config",
        13 => "c:/program files",
        14 => "c:/program files (x86)",
        _ => "c:/programdata",
    }
}

/// Directory names that mark user data at any depth.
pub open spec fn user_data_names() -> Seq<Seq<char>> {
    seq!["documents"@, "pictures"@, "music"@, "videos"@, "desktop"@]
}

fn user_data_name(i: usize) -> (r: &'static str)
    requires
        i < 5,
    ensures
        r@ == user_data_names()[i as int],
{
    match i {
        0 => "documents",
        1 => "pictures",
        2 => "music",
        3 => "videos",
        _ => "desktop",
    }
}

// ───────────────────────────── single paths ─────────────────────────────

/// Lowercase, `\` turned into `/`, trailing `/` removed.
pub open spec fn normalize_spec(path: Seq<char>) -> Seq<char> {
    trim_end_char(unicode_lowercase(replace_char(path, '\\', '/')), '/')
}

/// `norm` is the protected prefix `prot` itself or lies below it.
pub open spec fn under_prefix(norm: Seq<char>, prot: Seq<char>) -> bool {
    norm =~= prot || starts_with(norm, prot.push('/'))
}

/// Index of the first protected prefix, from position `i` on, that covers `norm`.
pub open spec fn protected_from(norm: Seq<char>, i: int) -> Option<int>
    decreases 16 - i,
{
    if i < 0 || i >= 16 {
        None
    } else if under_prefix(norm, protected_paths()[i]) {
        Some(i)
    } else {
        protected_from(norm, i + 1)
    }
}

/// `name` is a whole `/`-delimited segment of `s` starting at index `i`.
pub open spec fn segment_at(s: Seq<char>, name: Seq<char>, i: int) -> bool {
    &&& occurs_at(s, name, i)
    &&& (i == 0 || s[i - 1] == '/')
    &&& (i + name.len() == s.len() || s[i + name.len()] == '/')
}

/// Some segment of `norm` is a user-data directory name.
pub open spec fn has_user_segment(norm: Seq<char>) -> bool {
    exists|k: int, i: int| 0 <= k < 5 && #[trigger] segment_at(norm, user_data_names()[k], i)
}

pub open spec fn is_system_temp_spec(norm: Seq<char>) -> bool {
    ||| has_sub(norm, "/temp/"@)
    ||| ends_with(norm, "/temp"@)
    ||| has_sub(norm, "/windows/temp/"@)
    ||| has_sub(norm, "/tmp/"@)
}

pub open spec fn is_cache_like_spec(norm: Seq<char>) -> bool {
    let lower = unicode_lowercase(norm);
    ||| has_sub(lower, "/cache/"@)
    ||| ends_with(lower, "/cache"@)
    ||| has_sub(lower, "/caches/"@)
    ||| has_sub(lower, "/.cache/"@)
    ||| has_sub(lower, "/logs/"@)
    ||| has_sub(lower, "/log/"@)
}

pub open spec fn block_reason(prot: Seq<char>) -> Seq<char> {
    "系统关键路径:"@ + prot
}

pub open spec fn user_data_reason() -> Seq<char> {
    "用户数据目录,需用户显式确认"@
}

/// The Windows directory itself. Only the directory is protected by this
/// rule: below it, only the protected prefixes block (`c:/windows/temp`
/// stays a temp location).
pub open spec fn windows_dir() -> Seq<char> {
    "c:/windows"@
}

/// The verdict on a normalized path: protected prefixes first, then the
/// Windows directory itself, then user-data segments, then temp and cache
/// markers, otherwise review.
pub open spec fn check_model(norm: Seq<char>) -> VerdictModel {
    match protected_from(norm, 0) {
        Some(i) => VerdictModel::Block(block_reason(protected_paths()[i])),
        None => if norm =~= windows_dir() {
            VerdictModel::Block(block_reason(windows_dir()))
        } else if has_user_segment(norm) {
            VerdictModel::Warn(user_data_reason())
        } else if is_system_temp_spec(norm) || is_cache_like_spec(norm) {
            VerdictModel::Pass
        } else {
            VerdictModel::NeedsReview
        },
    }
}

/// Path normalization: lowercase, `\` → `/`, trailing `/` removed.
pub fn normalize(path: &str) -> (r: String)
    ensures
        r@ == normalize_spec(path@),
{
    let v = chars_of(path);
    let v = replace_char_exec(&v, '\\', '/');
    let v = lowercase(&v);
    let v = trim_end_char_exec(&v, '/');
    string_of(&v)
}

fn under_prefix_exec(norm: &Vec<char>, prot: &Vec<char>) -> (r: bool)
    ensures
        r == under_prefix(norm@, prot@),
{
    if seq_eq(norm, prot) {
        return true;
    }
    let mut p = prot.clone();
    p.push('/');
    starts_with_exec(norm, &p)
}

fn segment_at_exec(s: &Vec<char>, name: &Vec<char>, i: usize) -> (r: bool)
    ensures
        r == segment_at(s@, name@, i as int),
{
    if !occurs_at_exec(s, name, i) {
        return false;
    }
    assert(i + name.len() <= s.len());
    let left = i == 0 || s[i - 1] == '/';
    let end = i + name.len();
    let right = end == s.len() || s[end] == '/';
    left && right
}

/// Whether some `/`-delimited segment of `norm` is a user-data directory name.
fn has_user_segment_exec(norm: &Vec<char>) -> (r: bool)
    ensures
        r == has_user_segment(norm@),
{
    let mut k: usize = 0;
    while k < 5
        invariant
            k <= 5,
            forall|kk: int, i: int| 0 <= kk < k ==> !segment_at(norm@, user_data_names()[kk], i),
        decreases 5 - k,
    {
        let name = chars_of(user_data_name(k));
        let mut i: usize = 0;
        while i < norm.len()
            invariant
                k < 5,
                name@ == user_data_names()[k as int],
                forall|kk: int, j: int| 0 <= kk < k ==> !segment_at(norm@, user_data_names()[kk], j),
                forall|j: int| 0 <= j < i ==> !segment_at(norm@, user_data_names()[k as int], j),
            decreases norm.len() - i,
        {
            if segment_at_exec(norm, &name, i) {
                assert(segment_at(norm@, user_data_names()[k as int], i as int));
                return true;
            }
            i = i + 1;
        }
        if segment_at_exec(norm, &name, i) {
            assert(segment_at(norm@, user_data_names()[k as int], i as int));
            return true;
        }
        assert forall|j: int| !segment_at(norm@, user_data_names()[k as int], j) by {
            if j > norm@.len() {
                assert(!occurs_at(norm@, user_data_names()[k as int], j));
            }
        }
        k = k + 1;
    }
    false
}

fn lit_contains(s: &Vec<char>, lit: &str) -> (r: bool)
    ensures
        r == has_sub(s@, lit@),
{
    let p = chars_of(lit);
    contains(s, &p)
}

fn lit_ends_with(s: &Vec<char>, lit: &str) -> (r: bool)
    ensures
        r == ends_with(s@, lit@),
{
    let p = chars_of(lit);
    ends_with_exec(s, &p)
}

/// Temp-directory markers on a normalized path.
pub fn is_system_temp(norm: &str) -> (r: bool)
    ensures
        r == is_system_temp_spec(norm@),
{
    let v = chars_of(norm);
    lit_contains(&v, "/temp/") || lit_ends_with(&v, "/temp") || lit_contains(&v, "/windows/temp/")
        || lit_contains(&v, "/tmp/")
}

/// Cache and log directory markers (compared after lowercasing).
pub fn is_cache_like(norm: &str) -> (r: bool)
    ensures
        r == is_cache_like_spec(norm@),
{
    let v = chars_of(norm);
    let lower = lowercase(&v);
    lit_contains(&lower, "/cache/") || lit_ends_with(&lower, "/cache") || lit_contains(
        &lower,
        "/caches/",
    ) || lit_contains(&lower, "/.cache/") || lit_contains(&lower, "/logs/") || lit_contains(
        &lower,
        "/log/",
    )
}

fn string_of_lits(a: &str, b: &str) -> (r: String)
    ensures
        r@ == a@ + b@,
{
    let va = chars_of(a);
    let vb = chars_of(b);
    let v = concat(&va, &vb);
    string_of(&v)
}

/// Classifies one path: Block for system-critical locations, Warn for user
/// data, Pass for temp and cache locations, NeedsReview otherwise.
pub fn check(path: &str) -> (v: Verdict)
    ensures
        v@ == check_model(normalize_spec(path@)),
{
    let norm_s = normalize(path);
    let norm = chars_of(norm_s.as_str());
    let ghost n = norm@;
    let mut i: usize = 0;
    while i < 16
        invariant
            i <= 16,
            norm@ == n,
            n == normalize_spec(path@),
            protected_from(n, 0) == protected_from(n, i as int),
        decreases 16 - i,
    {
        let prot_s = protected_path(i);
        let prot = chars_of(prot_s);
        if under_prefix_exec(&norm, &prot) {
            assert(protected_from(n, i as int) == Some(i as int));
            return Verdict::Block(string_of_lits("系统关键路径:", prot_s));
        }
        i = i + 1;
    }
    if seq_eq(&norm, &chars_of("c:/windows")) {
        return Verdict::Block(string_of_lits("系统关键路径:", "c:/windows"));
    }
    if has_user_segment_exec(&norm) {
        return Verdict::Warn(String::from_str("用户数据目录,需用户显式确认"));
    }
    if is_system_temp(norm_s.as_str()) {
        return Verdict::Pass;
    }
    if is_cache_like(norm_s.as_str()) {
        return Verdict::Pass;
    }
    Verdict::NeedsReview
}


// ───────────────────────────── plans ─────────────────────────────

pub open spec fn review_reason() -> Seq<char> {
    "未识别路径,需 agent 判断"@
}

pub open spec fn allow_system_reason(reason: Seq<char>) -> Seq<char> {
    "allow_system 放行:"@ + reason
}

/// Adds the note for one path to the `(blocked, warnings)` lists.
pub open spec fn audit_step(
    acc: (Seq<NoteModel>, Seq<NoteModel>),
    path: Seq<char>,
    allow_system: bool,
) -> (Seq<NoteModel>, Seq<NoteModel>) {
    let shown = normalize_spec(path);
    match check_model(normalize_spec(path)) {
        VerdictModel::Pass => acc,
        VerdictModel::Warn(r) => (
            acc.0,
            acc.1.push(NoteModel { path: shown, reason: r, class: Class::UserData }),
        ),
        VerdictModel::NeedsReview => (
            acc.0,
            acc.1.push(NoteModel { path: shown, reason: review_reason(), class: Class::Unknown }),
        ),
        VerdictModel::Block(r) => if allow_system {
            (
                acc.0,
                acc.1.push(
                    NoteModel {
                        path: shown,
                        reason: allow_system_reason(r),
                        class: Class::Protected,
                    },
                ),
            )
        } else {
            (
                acc.0.push(NoteModel { path: shown, reason: r, class: Class::Protected }),
                acc.1,
            )
        },
    }
}

/// The `(blocked, warnings)` lists for a plan, in plan order.
pub open spec fn audit_notes(paths: Seq<Seq<char>>, allow_system: bool) -> (
    Seq<NoteModel>,
    Seq<NoteModel>,
)
    decreases paths.len(),
{
    if paths.len() == 0 {
        (Seq::empty(), Seq::empty())
    } else {
        audit_step(audit_notes(paths.drop_last(), allow_system), paths.last(), allow_system)
    }
}

/// Approved exactly when nothing was blocked.
pub open spec fn audit_model(paths: Seq<Seq<char>>, allow_system: bool) -> AuditModel {
    let notes = audit_notes(paths, allow_system);
    if notes.0.len() == 0 {
        AuditModel::Approved(notes.1)
    } else {
        AuditModel::Rejected(notes.0, notes.1)
    }
}

pub open spec fn strings_view(v: Seq<String>) -> Seq<Seq<char>> {
    v.map_values(|s: String| s@)
}

/// Audits a whole plan. Passing paths leave no note; warned and unrecognised
/// paths become warnings; protected paths are blocked, or downgraded to a
/// warning that records the override when `allow_system` is set.
pub fn audit_plan(paths: &[String], flags: &AuditFlags) -> (r: AuditResult)
    ensures
        r@ == audit_model(strings_view(paths@), flags.allow_system),
{
    let ghost ps = strings_view(paths@);
    let mut blocked: Vec<AuditNote> = Vec::new();
    let mut warnings: Vec<AuditNote> = Vec::new();
    let mut i: usize = 0;
    while i < paths.len()
        invariant
            i <= paths.len(),
            ps == strings_view(paths@),
            (notes_view(blocked@), notes_view(warnings@)) == audit_notes(
                ps.take(i as int),
                flags.allow_system,
            ),
        decreases paths.len() - i,
    {
        let p = &paths[i];
        assert(ps.take(i + 1).drop_last() =~= ps.take(i as int));
        assert(ps.take(i + 1).last() == p@);
        let verdict = check(p.as_str());
        let shown = normalize(p.as_str());
        match verdict {
            Verdict::Pass => {},
            Verdict::Warn(r) => {
                warnings.push(AuditNote { path: shown, reason: r, class: Class::UserData });
            },
            Verdict::NeedsReview => {
                warnings.push(
                    AuditNote {
                        path: shown,
                        reason: String::from_str("未识别路径,需 agent 判断"),
                        class: Class::Unknown,
                    },
                );
            },
            Verdict::Block(r) => {
                if flags.allow_system {
                    let rv = chars_of(r.as_str());
                    let head = chars_of("allow_system 放行:");
                    let reason = string_of(&concat(&head, &rv));
                    warnings.push(AuditNote { path: shown, reason, class: Class::Protected });
                } else {
                    blocked.push(AuditNote { path: shown, reason: r, class: Class::Protected });
                }
            },
        }
        i = i + 1;
        assert(notes_view(blocked@) =~= audit_notes(ps.take(i as int), flags.allow_system).0);
        assert(notes_view(warnings@) =~= audit_notes(ps.take(i as int), flags.allow_system).1);
    }
    assert(ps.take(paths@.len() as int) =~= ps);
    if blocked.len() == 0 {
        AuditResult::Approved { warnings }
    } else {
        AuditResult::Rejected { blocked, warnings }
    }
}

/// Before deleting from a duplicate group at least one copy must remain:
/// blocks when every member is marked for deletion.
pub fn check_dedup_group(group_len: usize, delete_len: usize) -> (v: Verdict)
    ensures
        delete_len >= group_len ==> v@ == VerdictModel::Block(
            "重复文件组全部被标记删除,至少保留 1 个"@,
        ),
        delete_len < group_len ==> v@ == VerdictModel::Pass,
{
    if delete_len >= group_len {
        return Verdict::Block(String::from_str("重复文件组全部被标记删除,至少保留 1 个"));
    }
    Verdict::Pass
}

// ───────────────────────────── uninstall strings ─────────────────────────────

/// Command patterns that are never allowed, with their explanations.
pub open spec fn block_patterns() -> Seq<(Seq<char>, Seq<char>)> {
    seq![
        ("format "@, "format 命令会格式化磁盘"@),
        ("diskpart"@, "diskpart 可破坏分区表"@),
        ("rd /s /q c:\\windows"@, "递归删除 Windows 目录"@),
        ("del /f /s /q c:\\"@, "递归强删 C 盘根"@),
        ("rmdir /s /q c:\\windows"@, "递归删除 Windows 目录"@),
        ("reg delete hklm\\system"@, "删除系统注册表项"@),
        ("reg delete hklm\\software\\microsoft\\windows"@, "删除 Windows 注册表项"@),
        ("shutdown"@, "shutdown 会导致关机/重启"@),
        ("-noexit -command"@, "PowerShell -noexit 可能执行任意脚本"@),
    ]
}

fn block_pattern(i: usize) -> (r: (&'static str, &'static str))
    requires
        i < 9,
    ensures
        (r.0@, r.1@) == block_patterns()[i as int],
{
    match i {
        0 => ("format ", "format 命令会格式化磁盘"),
        1 => ("diskpart", "diskpart 可破坏分区表"),
        2 => ("rd /s /q c:\\windows", "递归删除 Windows 目录"),
        3 => ("del /f /s /q c:\\", "递归强删 C 盘根"),
        4 => ("rmdir /s /q c:\\windows", "递归删除 Windows 目录"),
        5 => ("reg delete hklm\\system", "删除系统注册表项"),
        6 => ("reg delete hklm\\software\\microsoft\\windows", "删除 Windows 注册表项"),
        7 => ("shutdown", "shutdown 会导致关机/重启"),
        _ => ("-noexit -command", "PowerShell -noexit 可能执行任意脚本"),
    }
}

/// Legitimate but noteworthy command patterns.
pub open spec fn warn_patterns() -> Seq<Seq<char>> {
    seq!["cmd /c"@, "powershell"@, "msiexec"@, "wscript"@, "cscript"@]
}

fn warn_pattern(i: usize) -> (r: &'static str)
    requires
        i < 5,
    ensures
        r@ == warn_patterns()[i as int],
{
    match i {
        0 => "cmd /c",
        1 => "powershell",
        2 => "msiexec",
        3 => "wscript",
        _ => "cscript",
    }
}

/// First block pattern, from index `i` on, that occurs in `lower`.
pub open spec fn block_from(lower: Seq<char>, i: int) -> Option<int>
    decreases 9 - i,
{
    if i < 0 || i >= 9 {
        None
    } else if has_sub(lower, block_patterns()[i].0) {
        Some(i)
    } else {
        block_from(lower, i + 1)
    }
}

/// First warn pattern, from index `i` on, that occurs in `lower`.
pub open spec fn warn_from(lower: Seq<char>, i: int) -> Option<int>
    decreases 5 - i,
{
    if i < 0 || i >= 5 {
        None
    } else if has_sub(lower, warn_patterns()[i]) {
        Some(i)
    } else {
        warn_from(lower, i + 1)
    }
}

pub open spec fn uninstall_block_reason(pat: Seq<char>, why: Seq<char>) -> Seq<char> {
    "uninstall_string 含危险命令模式 ("@ + pat + "): "@ + why
}

pub open spec fn uninstall_warn_reason(pat: Seq<char>) -> Seq<char> {
    "uninstall_string 含 "@ + pat + " —— 正常但需 agent 确认来源可信"@
}

/// The verdict on an uninstall command: the first dangerous pattern blocks,
/// otherwise the first noteworthy pattern warns, otherwise it passes.
pub open spec fn uninstall_model(s: Seq<char>) -> VerdictModel {
    let lower = unicode_lowercase(s);
    match block_from(lower, 0) {
        Some(i) => VerdictModel::Block(
            uninstall_block_reason(block_patterns()[i].0, block_patterns()[i].1),
        ),
        None => match warn_from(lower, 0) {
            Some(i) => VerdictModel::Warn(uninstall_warn_reason(warn_patterns()[i])),
            None => VerdictModel::Pass,
        },
    }
}

fn join3(a: &str, b: &str, c: &str) -> (r: String)
    ensures
        r@ == a@ + b@ + c@,
{
    let ab = concat(&chars_of(a), &chars_of(b));
    let abc = concat(&ab, &chars_of(c));
    string_of(&abc)
}

/// Screens an uninstall command string for destructive command patterns
/// (Block) and for interpreters worth a second look (Warn).
pub fn check_uninstall_string(s: &str) -> (v: Verdict)
    ensures
        v@ == uninstall_model(s@),
{
    let lower = lowercase(&chars_of(s));
    let ghost l = lower@;
    let mut i: usize = 0;
    while i < 9
        invariant
            i <= 9,
            lower@ == l,
            l == unicode_lowercase(s@),
            block_from(l, 0) == block_from(l, i as int),
        decreases 9 - i,
    {
        let (pat, why) = block_pattern(i);
        if contains(&lower, &chars_of(pat)) {
            assert(block_from(l, i as int) == Some(i as int));
            let head = join3("uninstall_string 含危险命令模式 (", pat, "): ");
            let r = concat(&chars_of(head.as_str()), &chars_of(why));
            return Verdict::Block(string_of(&r));
        }
        i = i + 1;
    }
    let mut j: usize = 0;
    while j < 5
        invariant
            j <= 5,
            lower@ == l,
            l == unicode_lowercase(s@),
            block_from(l, 0) == None::<int>,
            warn_from(l, 0) == warn_from(l, j as int),
        decreases 5 - j,
    {
        let pat = warn_pattern(j);
        if contains(&lower, &chars_of(pat)) {
            assert(warn_from(l, j as int) == Some(j as int));
            return Verdict::Warn(join3("uninstall_string 含 ", pat, " —— 正常但需 agent 确认来源可信"));
        }
        j = j + 1;
    }
    Verdict::Pass
}

// ───────────────────────────── laws ─────────────────────────────

proof fn lemma_block_from_some(lower: Seq<char>, i: int)
    requires
        0 <= i <= 9,
    ensures
        block_from(lower, i) is Some <==> exists|k: int|
            i <= k < 9 && has_sub(lower, #[trigger] block_patterns()[k].0),
    decreases 9 - i,
{
    if i < 9 {
        lemma_block_from_some(lower, i + 1);
        if exists|k: int| i <= k < 9 && has_sub(lower, #[trigger] block_patterns()[k].0) {
            let k = choose|k: int| i <= k < 9 && has_sub(lower, #[trigger] block_patterns()[k].0);
            if k > i {
                assert(i + 1 <= k < 9);
            }
        }
    }
}

proof fn lemma_warn_from_some(lower: Seq<char>, i: int)
    requires
        0 <= i <= 5,
    ensures
        warn_from(lower, i) is Some <==> exists|k: int| i <= k < 5 && has_sub(lower, #[trigger] warn_patterns()[k]),
    decreases 5 - i,
{
    if i < 5 {
        lemma_warn_from_some(lower, i + 1);
        if exists|k: int| i <= k < 5 && has_sub(lower, #[trigger] warn_patterns()[k]) {
            let k = choose|k: int| i <= k < 5 && has_sub(lower, #[trigger] warn_patterns()[k]);
            if k > i {
                assert(i + 1 <= k < 5);
            }
        }
    }
}

/// An uninstall command is blocked exactly when one of the dangerous
/// patterns occurs in it (ignoring case); otherwise it is a warning exactly
/// when one of the noteworthy patterns occurs; otherwise it passes. It is
/// never left for review.
pub proof fn lemma_uninstall_verdict_iff(s: Seq<char>)
    ensures
        ({
            let lower = unicode_lowercase(s);
            let blocked = exists|k: int| 0 <= k < 9 && has_sub(lower, #[trigger] block_patterns()[k].0);
            let warned = exists|k: int| 0 <= k < 5 && has_sub(lower, #[trigger] warn_patterns()[k]);
            &&& uninstall_model(s) is Block <==> blocked
            &&& uninstall_model(s) is Warn <==> !blocked && warned
            &&& uninstall_model(s) is Pass <==> !blocked && !warned
            &&& uninstall_model(s) !is NeedsReview
        }),
{
    lemma_block_from_some(unicode_lowercase(s), 0);
    lemma_warn_from_some(unicode_lowercase(s), 0);
}

proof fn lemma_protected_from_some(n: Seq<char>, i: int)
    requires
        0 <= i <= 16,
    ensures
        protected_from(n, i) is Some <==> exists|k: int| i <= k < 16 && under_prefix(n, #[trigger] protected_paths()[k]),
    decreases 16 - i,
{
    if i < 16 {
        lemma_protected_from_some(n, i + 1);
        if exists|k: int| i <= k < 16 && under_prefix(n, #[trigger] protected_paths()[k]) {
            let k = choose|k: int| i <= k < 16 && under_prefix(n, #[trigger] protected_paths()[k]);
            if k > i {
                assert(i + 1 <= k < 16);
            }
        }
    }
}

proof fn lemma_protected_literal(n: Seq<char>)
    ensures
        protected_from(n, 0) is Some <==> ((n =~= "c:/windows/system32"@ || starts_with(n, "c:/windows/system32"@.push('/'))) || (n =~= "c:/windows/syswow64"@ || starts_with(n, "c:/windows/syswow64"@.push('/'))) || (n =~= "c:/windows/winsxs"@ || starts_with(n, "c:/windows/winsxs"@.push('/'))) || (n =~= "c:/windows/boot"@ || starts_with(n, "c:/windows/boot"@.push('/'))) || (n =~= "c:/windows/efi"@ || starts_with(n, "c:/windows/efi"@.push('/'))) || (n =~= "c:/windows/fonts"@ || starts_with(n, "c:/windows/fonts"@.push('/'))) || (n =~= "c:/windows/system"@ || starts_with(n, "c:/windows/system"@.push('/'))) || (n =~= "c:/boot"@ || starts_with(n, "c:/boot"@.push('/'))) || (n =~= "c:/efi"@ || starts_with(n, "c:/efi"@.push('/'))) || (n =~= "c:/$recycle.bin"@ || starts_with(n, "c:/$recycle.bin"@.push('/'))) || (n =~= "c:/system volume information"@ || starts_with(n, "c:/system volume information"@.push('/'))) || (n =~= "c:/program files"@ || starts_with(n, "c:/program files"@.push('/'))) || (n =~= "c:/program files (x86)"@ || starts_with(n, "c:/program files (x86)"@.push('/'))) || (n =~= "c:/programdata"@ || starts_with(n, "c:/programdata"@.push('/')))),
{
    lemma_protected_from_some(n, 0);
    let pp = protected_paths();
    assert(pp[0] == "c:/windows/system32"@ && pp[1] == "c:/windows/syswow64"@ && pp[2] == "c:/windows/winsxs"@ && pp[3] == "c:/windows/boot"@ && pp[4] == "c:/windows/efi"@ && pp[5] == "c:/windows/fonts"@ && pp[6] == "c:/windows/system"@ && pp[7] == "c:/windows/system32/config"@ && pp[8] == "c:/boot"@ && pp[9] == "c:/efi"@ && pp[10] == "c:/$recycle.bin"@ && pp[11] == "c:/system volume information"@ && pp[12] == "c:/windows/system32/config"@ && pp[13] == "c:/program files"@ && pp[14] == "c:/program files (x86)"@ && pp[15] == "c:/programdata"@);
    // `c:/windows/system32/config` lies below `c:/windows/system32`
    if under_prefix(n, pp[7]) {
        assert(starts_with(n, pp[0].push('/'))) by {
            let q = "c:/windows/system32"@.push('/');
            reveal_strlit("c:/windows/system32");
            reveal_strlit("c:/windows/system32/config");
            if n =~= pp[7] {
                assert(n.subrange(0, q.len() as int) =~= q);
            } else {
                assert(n.subrange(0, q.len() as int) =~= pp[7].push('/').subrange(0, q.len() as int));
                assert(pp[7].push('/').subrange(0, q.len() as int) =~= q);
            }
        }
    }
    if protected_from(n, 0) is Some {
        let k = choose|k: int| 0 <= k < 16 && under_prefix(n, #[trigger] pp[k]);
        assert(k == 0 || k == 1 || k == 2 || k == 3 || k == 4 || k == 5 || k == 6 || k == 7 || k == 8 || k == 9 || k == 10 || k == 11 || k == 12 || k == 13 || k == 14 || k == 15);
    }
    if (n =~= "c:/windows/system32"@ || starts_with(n, "c:/windows/system32"@.push('/'))) { assert(under_prefix(n, pp[0])); }
    if (n =~= "c:/windows/syswow64"@ || starts_with(n, "c:/windows/syswow64"@.push('/'))) { assert(under_prefix(n, pp[1])); }
    if (n =~= "c:/windows/winsxs"@ || starts_with(n, "c:/windows/winsxs"@.push('/'))) { assert(under_prefix(n, pp[2])); }
    if (n =~= "c:/windows/boot"@ || starts_with(n, "c:/windows/boot"@.push('/'))) { assert(under_prefix(n, pp[3])); }
    if (n =~= "c:/windows/efi"@ || starts_with(n, "c:/windows/efi"@.push('/'))) { assert(under_prefix(n, pp[4])); }
    if (n =~= "c:/windows/fonts"@ || starts_with(n, "c:/windows/fonts"@.push('/'))) { assert(under_prefix(n, pp[5])); }
    if (n =~= "c:/windows/system"@ || starts_with(n, "c:/windows/system"@.push('/'))) { assert(under_prefix(n, pp[6])); }
    if (n =~= "c:/boot"@ || starts_with(n, "c:/boot"@.push('/'))) { assert(under_prefix(n, pp[8])); }
    if (n =~= "c:/efi"@ || starts_with(n, "c:/efi"@.push('/'))) { assert(under_prefix(n, pp[9])); }
    if (n =~= "c:/$recycle.bin"@ || starts_with(n, "c:/$recycle.bin"@.push('/'))) { assert(under_prefix(n, pp[10])); }
    if (n =~= "c:/system volume information"@ || starts_with(n, "c:/system volume information"@.push('/'))) { assert(under_prefix(n, pp[11])); }
    if (n =~= "c:/program files"@ || starts_with(n, "c:/program files"@.push('/'))) { assert(under_prefix(n, pp[13])); }
    if (n =~= "c:/program files (x86)"@ || starts_with(n, "c:/program files (x86)"@.push('/'))) { assert(under_prefix(n, pp[14])); }
    if (n =~= "c:/programdata"@ || starts_with(n, "c:/programdata"@.push('/'))) { assert(under_prefix(n, pp[15])); }
}

proof fn lemma_user_literal(n: Seq<char>)
    ensures
        has_user_segment(n) <==> ((exists|i: int| #[trigger] segment_at(n, "documents"@, i)) || (exists|i: int| #[trigger] segment_at(n, "pictures"@, i)) || (exists|i: int| #[trigger] segment_at(n, "music"@, i)) || (exists|i: int| #[trigger] segment_at(n, "videos"@, i)) || (exists|i: int| #[trigger] segment_at(n, "desktop"@, i))),
{
    let un = user_data_names();
    assert(un[0] == "documents"@ && un[1] == "pictures"@ && un[2] == "music"@ && un[3] == "videos"@ && un[4] == "desktop"@);
    if has_user_segment(n) {
        let (k, i) = choose|k: int, i: int| 0 <= k < 5 && #[trigger] segment_at(n, un[k], i);
        assert(k == 0 || k == 1 || k == 2 || k == 3 || k == 4);
    }
    if exists|i: int| #[trigger] segment_at(n, "documents"@, i) {
        let i = choose|i: int| #[trigger] segment_at(n, "documents"@, i);
        assert(segment_at(n, un[0], i));
    }
    if exists|i: int| #[trigger] segment_at(n, "pictures"@, i) {
        let i = choose|i: int| #[trigger] segment_at(n, "pictures"@, i);
        assert(segment_at(n, un[1], i));
    }
    if exists|i: int| #[trigger] segment_at(n, "music"@, i) {
        let i = choose|i: int| #[trigger] segment_at(n, "music"@, i);
        assert(segment_at(n, un[2], i));
    }
    if exists|i: int| #[trigger] segment_at(n, "videos"@, i) {
        let i = choose|i: int| #[trigger] segment_at(n, "videos"@, i);
        assert(segment_at(n, un[3], i));
    }
    if exists|i: int| #[trigger] segment_at(n, "desktop"@, i) {
        let i = choose|i: int| #[trigger] segment_at(n, "desktop"@, i);
        assert(segment_at(n, un[4], i));
    }
}

/// A path is blocked exactly when it is the Windows directory itself or lies
/// at or below one of the protected locations listed here; among the rest,
/// it is a warning exactly when one of its segments is a user-data folder
/// name.
pub proof fn lemma_block_and_warn_literal(n: Seq<char>)
    ensures
        ({
            let protected = (n =~= "c:/windows/system32"@ || starts_with(n, "c:/windows/system32"@.push('/'))) || (n =~= "c:/windows/syswow64"@ || starts_with(n, "c:/windows/syswow64"@.push('/'))) || (n =~= "c:/windows/winsxs"@ || starts_with(n, "c:/windows/winsxs"@.push('/'))) || (n =~= "c:/windows/boot"@ || starts_with(n, "c:/windows/boot"@.push('/'))) || (n =~= "c:/windows/efi"@ || starts_with(n, "c:/windows/efi"@.push('/'))) || (n =~= "c:/windows/fonts"@ || starts_with(n, "c:/windows/fonts"@.push('/'))) || (n =~= "c:/windows/system"@ || starts_with(n, "c:/windows/system"@.push('/'))) || (n =~= "c:/boot"@ || starts_with(n, "c:/boot"@.push('/'))) || (n =~= "c:/efi"@ || starts_with(n, "c:/efi"@.push('/'))) || (n =~= "c:/$recycle.bin"@ || starts_with(n, "c:/$recycle.bin"@.push('/'))) || (n =~= "c:/system volume information"@ || starts_with(n, "c:/system volume information"@.push('/'))) || (n =~= "c:/program files"@ || starts_with(n, "c:/program files"@.push('/'))) || (n =~= "c:/program files (x86)"@ || starts_with(n, "c:/program files (x86)"@.push('/'))) || (n =~= "c:/programdata"@ || starts_with(n, "c:/programdata"@.push('/')));
            let user = (exists|i: int| #[trigger] segment_at(n, "documents"@, i)) || (exists|i: int| #[trigger] segment_at(n, "pictures"@, i)) || (exists|i: int| #[trigger] segment_at(n, "music"@, i)) || (exists|i: int| #[trigger] segment_at(n, "videos"@, i)) || (exists|i: int| #[trigger] segment_at(n, "desktop"@, i));
            &&& check_model(n) is Block <==> protected || n =~= "c:/windows"@
            &&& check_model(n) !is Block ==> (check_model(n) is Warn <==> user)
        }),
{
    lemma_protected_literal(n);
    lemma_user_literal(n);
}

/// Only temp and cache locations pass: a path that is neither blocked nor
/// user data passes exactly when it holds one of the markers below, each a
/// whole path segment (`/temp/`, `/tmp/`, `/windows/temp/`, `/cache/`,
/// `/caches/`, `/.cache/`, `/logs/`, `/log/`, or a last segment `temp` or
/// `cache`); otherwise it is left for review. A segment that merely begins
/// with `cache` (`cache-server`) marks nothing.
pub proof fn lemma_pass_iff_temp_or_cache_segment(n: Seq<char>)
    ensures
        ({
            let l = unicode_lowercase(n);
            let marked = has_sub(n, "/temp/"@) || ends_with(n, "/temp"@) || has_sub(n, "/windows/temp/"@)
                || has_sub(n, "/tmp/"@) || has_sub(l, "/cache/"@) || ends_with(l, "/cache"@) || has_sub(
                l,
                "/caches/"@,
            ) || has_sub(l, "/.cache/"@) || has_sub(l, "/logs/"@) || has_sub(l, "/log/"@);
            &&& check_model(n) is Pass ==> marked
            &&& check_model(n) !is Block && check_model(n) !is Warn ==> (check_model(n) is Pass <==> marked)
            &&& check_model(n) is NeedsReview <==> (check_model(n) !is Block && check_model(n) !is Warn
                && !marked)
        }),
{
}

/// Every dangerous command blocks an uninstall string that contains it,
/// whatever its case, and only they do; among the rest, every noteworthy
/// interpreter warns and only they do; anything else passes. The reason
/// names the first listed command found.
pub proof fn lemma_uninstall_patterns_literal(s: Seq<char>)
    ensures
        ({
            let l = unicode_lowercase(s);
            let dangerous = has_sub(l, "format "@) || has_sub(l, "diskpart"@) || has_sub(
                l,
                "rd /s /q c:\\windows"@,
            ) || has_sub(l, "del /f /s /q c:\\"@) || has_sub(l, "rmdir /s /q c:\\windows"@) || has_sub(
                l,
                "reg delete hklm\\system"@,
            ) || has_sub(l, "reg delete hklm\\software\\microsoft\\windows"@) || has_sub(l, "shutdown"@)
                || has_sub(l, "-noexit -command"@);
            let noteworthy = has_sub(l, "cmd /c"@) || has_sub(l, "powershell"@) || has_sub(l, "msiexec"@)
                || has_sub(l, "wscript"@) || has_sub(l, "cscript"@);
            &&& uninstall_model(s) is Block <==> dangerous
            &&& uninstall_model(s) is Warn <==> !dangerous && noteworthy
            &&& uninstall_model(s) is Pass <==> !dangerous && !noteworthy
            &&& (has_sub(l, "format "@)) ==> uninstall_model(s) == VerdictModel::Block(
                "uninstall_string 含危险命令模式 (format ): format 命令会格式化磁盘"@,
            )
            &&& (!has_sub(l, "format "@) && has_sub(l, "diskpart"@)) ==> uninstall_model(s) == VerdictModel::Block(
                "uninstall_string 含危险命令模式 (diskpart): diskpart 可破坏分区表"@,
            )
            &&& (!has_sub(l, "format "@) && !has_sub(l, "diskpart"@) && has_sub(l, "rd /s /q c:\\windows"@)) ==> uninstall_model(s) == VerdictModel::Block(
                "uninstall_string 含危险命令模式 (rd /s /q c:\\windows): 递归删除 Windows 目录"@,
            )
            &&& (!has_sub(l, "format "@) && !has_sub(l, "diskpart"@) && !has_sub(l, "rd /s /q c:\\windows"@) && has_sub(l, "del /f /s /q c:\\"@)) ==> uninstall_model(s) == VerdictModel::Block(
                "uninstall_string 含危险命令模式 (del /f /s /q c:\\): 递归强删 C 盘根"@,
            )
            &&& (!has_sub(l, "format "@) && !has_sub(l, "diskpart"@) && !has_sub(l, "rd /s /q c:\\windows"@) && !has_sub(l, "del /f /s /q c:\\"@) && has_sub(l, "rmdir /s /q c:\\windows"@)) ==> uninstall_model(s) == VerdictModel::Block(
                "uninstall_string 含危险命令模式 (rmdir /s /q c:\\windows): 递归删除 Windows 目录"@,
            )
            &&& (!has_sub(l, "format "@) && !has_sub(l, "diskpart"@) && !has_sub(l, "rd /s /q c:\\windows"@) && !has_sub(l, "del /f /s /q c:\\"@) && !has_sub(l, "rmdir /s /q c:\\windows"@) && has_sub(l, "reg delete hklm\\system"@)) ==> uninstall_model(s) == VerdictModel::Block(
                "uninstall_string 含危险命令模式 (reg delete hklm\\system): 删除系统注册表项"@,
            )
            &&& (!has_sub(l, "format "@) && !has_sub(l, "diskpart"@) && !has_sub(l, "rd /s /q c:\\windows"@) && !has_sub(l, "del /f /s /q c:\\"@) && !has_sub(l, "rmdir /s /q c:\\windows"@) && !has_sub(l, "reg delete hklm\\system"@) && has_sub(l, "reg delete hklm\\software\\microsoft\\windows"@)) ==> uninstall_model(s) == VerdictModel::Block(
                "uninstall_string 含危险命令模式 (reg delete hklm\\software\\microsoft\\windows): 删除 Windows 注册表项"@,
            )
            &&& (!has_sub(l, "format "@) && !has_sub(l, "diskpart"@) && !has_sub(l, "rd /s /q c:\\windows"@) && !has_sub(l, "del /f /s /q c:\\"@) && !has_sub(l, "rmdir /s /q c:\\windows"@) && !has_sub(l, "reg delete hklm\\system"@) && !has_sub(l, "reg delete hklm\\software\\microsoft\\windows"@) && has_sub(l, "shutdown"@)) ==> uninstall_model(s) == VerdictModel::Block(
                "uninstall_string 含危险命令模式 (shutdown): shutdown 会导致关机/重启"@,
            )
            &&& (!has_sub(l, "format "@) && !has_sub(l, "diskpart"@) && !has_sub(l, "rd /s /q c:\\windows"@) && !has_sub(l, "del /f /s /q c:\\"@) && !has_sub(l, "rmdir /s /q c:\\windows"@) && !has_sub(l, "reg delete hklm\\system"@) && !has_sub(l, "reg delete hklm\\software\\microsoft\\windows"@) && !has_sub(l, "shutdown"@) && has_sub(l, "-noexit -command"@)) ==> uninstall_model(s) == VerdictModel::Block(
                "uninstall_string 含危险命令模式 (-noexit -command): PowerShell -noexit 可能执行任意脚本"@,
            )
            &&& (!dangerous && has_sub(l, "cmd /c"@)) ==> uninstall_model(s) == VerdictModel::Warn(
                "uninstall_string 含 cmd /c —— 正常但需 agent 确认来源可信"@,
            )
            &&& (!dangerous && !has_sub(l, "cmd /c"@) && has_sub(l, "powershell"@)) ==> uninstall_model(s) == VerdictModel::Warn(
                "uninstall_string 含 powershell —— 正常但需 agent 确认来源可信"@,
            )
            &&& (!dangerous && !has_sub(l, "cmd /c"@) && !has_sub(l, "powershell"@) && has_sub(l, "msiexec"@)) ==> uninstall_model(s) == VerdictModel::Warn(
                "uninstall_string 含 msiexec —— 正常但需 agent 确认来源可信"@,
            )
            &&& (!dangerous && !has_sub(l, "cmd /c"@) && !has_sub(l, "powershell"@) && !has_sub(l, "msiexec"@) && has_sub(l, "wscript"@)) ==> uninstall_model(s) == VerdictModel::Warn(
                "uninstall_string 含 wscript —— 正常但需 agent 确认来源可信"@,
            )
            &&& (!dangerous && !has_sub(l, "cmd /c"@) && !has_sub(l, "powershell"@) && !has_sub(l, "msiexec"@) && !has_sub(l, "wscript"@) && has_sub(l, "cscript"@)) ==> uninstall_model(s) == VerdictModel::Warn(
                "uninstall_string 含 cscript —— 正常但需 agent 确认来源可信"@,
            )
        }),
{
    let l = unicode_lowercase(s);
    lemma_block_from_some(l, 0);
    lemma_warn_from_some(l, 0);
    reveal_with_fuel(block_from, 10);
    reveal_with_fuel(warn_from, 6);
    let bp = block_patterns();
    let wp = warn_patterns();
    assert(bp[0].0 == "format "@ && bp[1].0 == "diskpart"@ && bp[2].0 == "rd /s /q c:\\windows"@
        && bp[3].0 == "del /f /s /q c:\\"@ && bp[4].0 == "rmdir /s /q c:\\windows"@ && bp[5].0
        == "reg delete hklm\\system"@ && bp[6].0 == "reg delete hklm\\software\\microsoft\\windows"@
        && bp[7].0 == "shutdown"@ && bp[8].0 == "-noexit -command"@);
    assert(wp[0] == "cmd /c"@ && wp[1] == "powershell"@ && wp[2] == "msiexec"@ && wp[3] == "wscript"@
        && wp[4] == "cscript"@);
    reveal_strlit("uninstall_string 含危险命令模式 (");
    reveal_strlit("): ");
    reveal_strlit("uninstall_string 含 ");
    reveal_strlit(" —— 正常但需 agent 确认来源可信");
    reveal_strlit("format ");
    reveal_strlit("format 命令会格式化磁盘");
    reveal_strlit("uninstall_string 含危险命令模式 (format ): format 命令会格式化磁盘");
    assert(uninstall_block_reason("format "@, "format 命令会格式化磁盘"@) =~= "uninstall_string 含危险命令模式 (format ): format 命令会格式化磁盘"@);
    reveal_strlit("diskpart");
    reveal_strlit("diskpart 可破坏分区表");
    reveal_strlit("uninstall_string 含危险命令模式 (diskpart): diskpart 可破坏分区表");
    assert(uninstall_block_reason("diskpart"@, "diskpart 可破坏分区表"@) =~= "uninstall_string 含危险命令模式 (diskpart): diskpart 可破坏分区表"@);
    reveal_strlit("rd /s /q c:\\windows");
    reveal_strlit("递归删除 Windows 目录");
    reveal_strlit("uninstall_string 含危险命令模式 (rd /s /q c:\\windows): 递归删除 Windows 目录");
    assert(uninstall_block_reason("rd /s /q c:\\windows"@, "递归删除 Windows 目录"@) =~= "uninstall_string 含危险命令模式 (rd /s /q c:\\windows): 递归删除 Windows 目录"@);
    reveal_strlit("del /f /s /q c:\\");
    reveal_strlit("递归强删 C 盘根");
    reveal_strlit("uninstall_string 含危险命令模式 (del /f /s /q c:\\): 递归强删 C 盘根");
    assert(uninstall_block_reason("del /f /s /q c:\\"@, "递归强删 C 盘根"@) =~= "uninstall_string 含危险命令模式 (del /f /s /q c:\\): 递归强删 C 盘根"@);
    reveal_strlit("rmdir /s /q c:\\windows");
    reveal_strlit("递归删除 Windows 目录");
    reveal_strlit("uninstall_string 含危险命令模式 (rmdir /s /q c:\\windows): 递归删除 Windows 目录");
    assert(uninstall_block_reason("rmdir /s /q c:\\windows"@, "递归删除 Windows 目录"@) =~= "uninstall_string 含危险命令模式 (rmdir /s /q c:\\windows): 递归删除 Windows 目录"@);
    reveal_strlit("reg delete hklm\\system");
    reveal_strlit("删除系统注册表项");
    reveal_strlit("uninstall_string 含危险命令模式 (reg delete hklm\\system): 删除系统注册表项");
    assert(uninstall_block_reason("reg delete hklm\\system"@, "删除系统注册表项"@) =~= "uninstall_string 含危险命令模式 (reg delete hklm\\system): 删除系统注册表项"@);
    reveal_strlit("reg delete hklm\\software\\microsoft\\windows");
    reveal_strlit("删除 Windows 注册表项");
    reveal_strlit("uninstall_string 含危险命令模式 (reg delete hklm\\software\\microsoft\\windows): 删除 Windows 注册表项");
    assert(uninstall_block_reason("reg delete hklm\\software\\microsoft\\windows"@, "删除 Windows 注册表项"@) =~= "uninstall_string 含危险命令模式 (reg delete hklm\\software\\microsoft\\windows): 删除 Windows 注册表项"@);
    reveal_strlit("shutdown");
    reveal_strlit("shutdown 会导致关机/重启");
    reveal_strlit("uninstall_string 含危险命令模式 (shutdown): shutdown 会导致关机/重启");
    assert(uninstall_block_reason("shutdown"@, "shutdown 会导致关机/重启"@) =~= "uninstall_string 含危险命令模式 (shutdown): shutdown 会导致关机/重启"@);
    reveal_strlit("-noexit -command");
    reveal_strlit("PowerShell -noexit 可能执行任意脚本");
    reveal_strlit("uninstall_string 含危险命令模式 (-noexit -command): PowerShell -noexit 可能执行任意脚本");
    assert(uninstall_block_reason("-noexit -command"@, "PowerShell -noexit 可能执行任意脚本"@) =~= "uninstall_string 含危险命令模式 (-noexit -command): PowerShell -noexit 可能执行任意脚本"@);
    reveal_strlit("cmd /c");
    reveal_strlit("uninstall_string 含 cmd /c —— 正常但需 agent 确认来源可信");
    assert(uninstall_warn_reason("cmd /c"@) =~= "uninstall_string 含 cmd /c —— 正常但需 agent 确认来源可信"@);
    reveal_strlit("powershell");
    reveal_strlit("uninstall_string 含 powershell —— 正常但需 agent 确认来源可信");
    assert(uninstall_warn_reason("powershell"@) =~= "uninstall_string 含 powershell —— 正常但需 agent 确认来源可信"@);
    reveal_strlit("msiexec");
    reveal_strlit("uninstall_string 含 msiexec —— 正常但需 agent 确认来源可信");
    assert(uninstall_warn_reason("msiexec"@) =~= "uninstall_string 含 msiexec —— 正常但需 agent 确认来源可信"@);
    reveal_strlit("wscript");
    reveal_strlit("uninstall_string 含 wscript —— 正常但需 agent 确认来源可信");
    assert(uninstall_warn_reason("wscript"@) =~= "uninstall_string 含 wscript —— 正常但需 agent 确认来源可信"@);
    reveal_strlit("cscript");
    reveal_strlit("uninstall_string 含 cscript —— 正常但需 agent 确认来源可信");
    assert(uninstall_warn_reason("cscript"@) =~= "uninstall_string 含 cscript —— 正常但需 agent 确认来源可信"@);
}

/// With `allow_system` set, no plan is ever rejected.
pub proof fn lemma_allow_system_never_rejects(paths: Seq<Seq<char>>)
    ensures
        audit_notes(paths, true).0.len() == 0,
        audit_model(paths, true) is Approved,
    decreases paths.len(),
{
    if paths.len() > 0 {
        lemma_allow_system_never_rejects(paths.drop_last());
    }
}

/// Without `allow_system`, a plan is rejected exactly when one of its paths
/// is classified Block.
pub proof fn lemma_rejected_iff_some_path_blocked(paths: Seq<Seq<char>>)
    ensures
        audit_model(paths, false) is Rejected <==> exists|i: int|
            0 <= i < paths.len() && (#[trigger] check_model(normalize_spec(paths[i]))) is Block,
    decreases paths.len(),
{
    if paths.len() > 0 {
        let init = paths.drop_last();
        lemma_rejected_iff_some_path_blocked(init);
        if exists|i: int| 0 <= i < init.len() && (#[trigger] check_model(normalize_spec(init[i]))) is Block {
            let i = choose|i: int| 0 <= i < init.len() && (#[trigger] check_model(normalize_spec(init[i]))) is Block;
            assert(paths[i] == init[i]);
        }
        if exists|i: int| 0 <= i < paths.len() && (#[trigger] check_model(normalize_spec(paths[i]))) is Block {
            let i = choose|i: int| 0 <= i < paths.len() && (#[trigger] check_model(normalize_spec(paths[i]))) is Block;
            if i < paths.len() - 1 {
                assert(init[i] == paths[i]);
            }
        }
    }
}

/// `allow_system` drops no note: every note that would have been blocked or
/// warned without it is a warning with it, in the same number.
pub proof fn lemma_allow_system_keeps_every_note(paths: Seq<Seq<char>>)
    ensures
        audit_notes(paths, true).1.len() == audit_notes(paths, false).0.len() + audit_notes(
            paths,
            false,
        ).1.len(),
    decreases paths.len(),
{
    if paths.len() > 0 {
        lemma_allow_system_keeps_every_note(paths.drop_last());
    }
}

proof fn lemma_protected_from_finds(norm: Seq<char>, i: int, k: int)
    requires
        0 <= i <= k < 16,
        under_prefix(norm, protected_paths()[k]),
    ensures
        protected_from(norm, i) is Some,
    decreases k - i,
{
    if i < k && !under_prefix(norm, protected_paths()[i]) {
        lemma_protected_from_finds(norm, i + 1, k);
    }
}

/// A path at or below any protected prefix is blocked, whatever its case
/// and separators.
pub proof fn lemma_protected_prefix_blocks(path: Seq<char>, k: int)
    requires
        0 <= k < 16,
        under_prefix(normalize_spec(path), protected_paths()[k]),
    ensures
        check_model(normalize_spec(path)) is Block,
{
    lemma_protected_from_finds(normalize_spec(path), 0, k);
}

/// `\` and `/` are interchangeable: paths that agree once backslashes are
/// turned into slashes get the same verdict.
pub proof fn lemma_separator_insensitive(a: Seq<char>, b: Seq<char>)
    requires
        replace_char(a, '\\', '/') =~= replace_char(b, '\\', '/'),
    ensures
        check_model(normalize_spec(a)) == check_model(normalize_spec(b)),
{
}

/// Plans whose paths agree one by one once backslashes are turned into
/// slashes get the same blocked paths and warnings.
pub proof fn lemma_audit_separator_insensitive(a: Seq<Seq<char>>, b: Seq<Seq<char>>, allow_system: bool)
    requires
        a.len() == b.len(),
        forall|i: int| 0 <= i < a.len() ==> replace_char(#[trigger] a[i], '\\', '/') == replace_char(b[i], '\\', '/'),
    ensures
        audit_notes(a, allow_system) == audit_notes(b, allow_system),
    decreases a.len(),
{
    if a.len() > 0 {
        lemma_audit_separator_insensitive(a.drop_last(), b.drop_last(), allow_system);
        assert(replace_char(a.last(), '\\', '/') == replace_char(b.last(), '\\', '/')) by {
            assert(a.last() == a[a.len() - 1]);
        }
        lemma_separator_insensitive(a.last(), b.last());
    }
}

/// Paths that agree after lowercasing get the same verdict.
pub proof fn lemma_case_insensitive(a: Seq<char>, b: Seq<char>)
    requires
        unicode_lowercase(replace_char(a, '\\', '/')) =~= unicode_lowercase(
            replace_char(b, '\\', '/'),
        ),
    ensures
        check_model(normalize_spec(a)) == check_model(normalize_spec(b)),
{
}

/// The Windows directory itself is always blocked, whatever its case and
/// separators.
pub proof fn lemma_windows_dir_blocks(path: Seq<char>)
    requires
        normalize_spec(path) =~= windows_dir(),
    ensures
        check_model(normalize_spec(path)) is Block,
{
}

/// A user-data directory name at any depth, on any drive, makes a path that
/// is not protected a warning.
pub proof fn lemma_user_data_warns(path: Seq<char>, k: int, i: int)
    requires
        0 <= k < 5,
        segment_at(normalize_spec(path), user_data_names()[k], i),
        protected_from(normalize_spec(path), 0) is None,
    ensures
        check_model(normalize_spec(path)) == VerdictModel::Warn(user_data_reason()),
{
    let n = normalize_spec(path);
    let name = user_data_names()[k];
    if n =~= windows_dir() {
        reveal_strlit("c:/windows");
        reveal_strlit("documents");
        reveal_strlit("pictures");
        reveal_strlit("music");
        reveal_strlit("videos");
        reveal_strlit("desktop");
        assert(n.subrange(i, i + name.len())[0] == name[0]);
        assert(n[i] == name[0]);
        if i > 0 {
            assert(n[i - 1] == '/');
            assert(i == 3);
        }
        assert(false);
    }
}

} // verus!
