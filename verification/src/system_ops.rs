//! System-level space operations: hibernation file, page file, restore
//! points, and the analysis of large programs that could move off `C:`.
//!
//! Commands are prepared here and run by the host: a [`CmdStep`] either is
//! already the final [`CmdResult`] (invalid input, empty command, a host that
//! is not Windows) or asks the host to launch a command, whose outcome
//! [`finish_cmd`] turns into the final result.

use vstd::prelude::*;
use crate::json::{
    as_str, as_u64, get, get_spec, opt_str, opt_u64, parse_json, parsed_json, Json,
};
use crate::sort::{is_permutation, sorted_desc_stable, stable_order_desc};
use crate::text::{
    ascii_upper, chars_of, concat, contains, count_from, count_matches, decimal, digits_value,
    find_from, find_from_exec, has_sub, i32_to_decimal, int_decimal, is_ascii_alpha,
    keep_digits, keep_digits_exec, last_index_before, lemma_keep_digits_all_digits,
    lines, lines_from, lowercase, next_line, parse_u64_digits, rfind_char, seq_eq, slice_of,
    string_of, to_ascii_upper_char, trim_end_char, trim_end_char_exec, trim_exec, trim_ws,
    u64_to_decimal, unicode_lowercase,
};

verus! {

// ───────────────────────────── command results ─────────────────────────────

/// Result of running (or refusing to run) a system command.
#[derive(Debug, Clone)]
pub struct CmdResult {
    pub command: String,
    pub executed: bool,
    pub requires_admin: bool,
    pub exit_code: Option<i32>,
    pub stdout: String,
    pub stderr: String,
    pub error: Option<String>,
}

/// A command the host is asked to run with `cmd /C`.
#[derive(Debug)]
pub struct CmdLaunch {
    pub command: String,
    pub requires_admin: bool,
}

/// Either the final result, or a command to launch first.
#[derive(Debug)]
pub enum CmdStep {
    Done(CmdResult),
    Run(CmdLaunch),
}

/// What the host observed when it launched a command.
#[derive(Debug)]
pub enum ProcessOutcome {
    /// The process ran; `success` is the exit status' success flag.
    Exited { exit_code: Option<i32>, success: bool, stdout: String, stderr: String },
    /// The process could not be started; the host's error text.
    SpawnFailed(String),
}

pub open spec fn non_windows_reason() -> Seq<char> {
    "此命令只能在 Windows 上执行(当前非 Windows 环境)"@
}

/// `r` reports that `command` was not run, for the reason `error`.
pub open spec fn refused(r: CmdResult, command: Seq<char>, requires_admin: bool, error: Seq<char>) -> bool {
    &&& r.command@ == command
    &&& !r.executed
    &&& r.requires_admin == requires_admin
    &&& r.exit_code is None
    &&& r.stdout@.len() == 0
    &&& r.stderr@.len() == 0
    &&& r.error matches Some(e) && e@ == error
}

/// The step for running `command`: an empty command and a host that is not
/// Windows are answered at once, anything else is launched.
pub open spec fn run_step(step: CmdStep, command: Seq<char>, requires_admin: bool, on_windows: bool) -> bool {
    if command.len() == 0 {
        step matches CmdStep::Done(r) && refused(r, Seq::empty(), requires_admin, "command 为空"@)
    } else if !on_windows {
        step matches CmdStep::Done(r) && refused(r, command, requires_admin, non_windows_reason())
    } else {
        step matches CmdStep::Run(l) && l.command@ == command && l.requires_admin == requires_admin
    }
}

/// `{:?}` of an `Option<i32>`.
pub open spec fn debug_exit_code(code: Option<i32>) -> Seq<char> {
    match code {
        Some(c) => "Some("@ + int_decimal(c as int) + ")"@,
        None => "None"@,
    }
}

/// The final result of a launched command.
pub open spec fn finished(r: CmdResult, launch: CmdLaunch, outcome: ProcessOutcome) -> bool {
    &&& r.command@ == launch.command@
    &&& r.requires_admin == launch.requires_admin
    &&& match outcome {
        ProcessOutcome::Exited { exit_code, success, stdout, stderr } => {
            &&& r.executed == success
            &&& r.exit_code == exit_code
            &&& r.stdout@ == stdout@
            &&& r.stderr@ == stderr@
            &&& if success {
                r.error is None
            } else {
                r.error matches Some(e) && e@ == "命令退出码: "@ + debug_exit_code(exit_code)
            }
        },
        ProcessOutcome::SpawnFailed(msg) => {
            &&& !r.executed
            &&& r.exit_code is None
            &&& r.stdout@.len() == 0
            &&& r.stderr@.len() == 0
            &&& r.error matches Some(e) && e@ == "命令启动失败: "@ + msg@
        },
    }
}

pub(crate) fn refusal(command: String, requires_admin: bool, error: String) -> (r: CmdResult)
    ensures
        refused(r, command@, requires_admin, error@),
{
    CmdResult {
        command,
        executed: false,
        requires_admin,
        exit_code: None,
        stdout: String::new(),
        stderr: String::new(),
        error: Some(error),
    }
}

pub(crate) fn lit_concat(a: &str, b: &Vec<char>) -> (r: String)
    ensures
        r@ == a@ + b@,
{
    string_of(&concat(&chars_of(a), b))
}

/// Decides how to run a command: refuses an empty command and any command
/// on a host that is not Windows, otherwise asks the host to launch it.
pub fn run_cmd(command: &str, requires_admin: bool, on_windows: bool) -> (step: CmdStep)
    ensures
        run_step(step, command@, requires_admin, on_windows),
{
    if command.is_empty() {
        return CmdStep::Done(refusal(String::new(), requires_admin, String::from_str("command 为空")));
    }
    if !on_windows {
        return CmdStep::Done(
            refusal(
                String::from_str(command),
                requires_admin,
                String::from_str("此命令只能在 Windows 上执行(当前非 Windows 环境)"),
            ),
        );
    }
    CmdStep::Run(CmdLaunch { command: String::from_str(command), requires_admin })
}

pub(crate) fn debug_exit_code_exec(code: Option<i32>) -> (r: Vec<char>)
    ensures
        r@ == debug_exit_code(code),
{
    match code {
        Some(c) => {
            let inner = concat(&chars_of("Some("), &i32_to_decimal(c));
            concat(&inner, &chars_of(")"))
        },
        None => chars_of("None"),
    }
}

/// Turns what the host observed into the command's result: it counts as
/// executed exactly when the process exited successfully.
pub fn finish_cmd(launch: CmdLaunch, outcome: ProcessOutcome) -> (r: CmdResult)
    ensures
        finished(r, launch, outcome),
{
    let ghost l = launch;
    let ghost o = outcome;
    let CmdLaunch { command, requires_admin } = launch;
    match outcome {
        ProcessOutcome::Exited { exit_code, success, stdout, stderr } => {
            let error = if success {
                None
            } else {
                Some(lit_concat("命令退出码: ", &debug_exit_code_exec(exit_code)))
            };
            CmdResult { command, executed: success, requires_admin, exit_code, stdout, stderr, error }
        },
        ProcessOutcome::SpawnFailed(msg) => {
            let e = lit_concat("命令启动失败: ", &chars_of(msg.as_str()));
            CmdResult {
                command,
                executed: false,
                requires_admin,
                exit_code: None,
                stdout: String::new(),
                stderr: String::new(),
                error: Some(e),
            }
        },
    }
}

// ───────────────────────────── hibernate ─────────────────────────────

/// State of hibernation and of its file.
#[derive(Debug, Clone)]
pub struct HibernateStatus {
    pub enabled: bool,
    pub hiberfil_path: String,
    /// Size of the hibernation file, `None` when it is missing or unreadable.
    pub hiberfil_size_bytes: Option<u64>,
    pub size_percent: Option<u32>,
    /// Raw `powercfg /a` output.
    pub powercfg_a_output: String,
    pub requires_admin: bool,
}

/// Hibernation status from the size of `C:\hiberfil.sys` (if it could be
/// read) and the output of `powercfg /a`: enabled when the file exists and
/// the output does not say hibernation has been removed.
pub fn hibernate_status(hiberfil_size_bytes: Option<u64>, powercfg_a_output: String) -> (r: HibernateStatus)
    ensures
        r.enabled == (hiberfil_size_bytes is Some && !has_sub(
            unicode_lowercase(powercfg_a_output@),
            "hibernation has been removed"@,
        )),
        r.hiberfil_path@ == "C:\\hiberfil.sys"@,
        r.hiberfil_size_bytes == hiberfil_size_bytes,
        r.size_percent is None,
        r.powercfg_a_output@ == powercfg_a_output@,
        !r.requires_admin,
{
    let lower = lowercase(&chars_of(powercfg_a_output.as_str()));
    let removed = contains(&lower, &chars_of("hibernation has been removed"));
    HibernateStatus {
        enabled: hiberfil_size_bytes.is_some() && !removed,
        hiberfil_path: String::from_str("C:\\hiberfil.sys"),
        hiberfil_size_bytes,
        size_percent: None,
        powercfg_a_output,
        requires_admin: false,
    }
}

/// Turns hibernation off (`powercfg /h off`, administrator).
pub fn hibernate_off(on_windows: bool) -> (step: CmdStep)
    ensures
        run_step(step, "powercfg /h off"@, true, on_windows),
{
    run_cmd("powercfg /h off", true, on_windows)
}

/// Turns hibernation on (`powercfg /h on`, administrator).
pub fn hibernate_on(on_windows: bool) -> (step: CmdStep)
    ensures
        run_step(step, "powercfg /h on"@, true, on_windows),
{
    run_cmd("powercfg /h on", true, on_windows)
}

/// Sets the hibernation file size as a percentage of RAM
/// (`powercfg /h /size <percent>`); only 50 to 100 is accepted.
pub fn hibernate_set_size(percent: u32, on_windows: bool) -> (step: CmdStep)
    ensures
        !(50 <= percent <= 100) ==> (step matches CmdStep::Done(r) && refused(
            r,
            Seq::empty(),
            true,
            "percent 必须在 50-100 之间,收到 "@ + decimal(percent as nat),
        )),
        50 <= percent <= 100 ==> run_step(
            step,
            "powercfg /h /size "@ + decimal(percent as nat),
            true,
            on_windows,
        ),
{
    let digits = u64_to_decimal(percent as u64);
    if percent < 50 || percent > 100 {
        return CmdStep::Done(
            refusal(String::new(), true, lit_concat("percent 必须在 50-100 之间,收到 ", &digits)),
        );
    }
    let cmd = lit_concat("powercfg /h /size ", &digits);
    run_cmd(cmd.as_str(), true, on_windows)
}

// ───────────────────────────── pagefile ─────────────────────────────

/// Page file configuration.
#[derive(Debug, Clone)]
pub struct PagefileStatus {
    pub pagefiles: Vec<PagefileEntry>,
    pub auto_managed: bool,
    pub requires_admin: bool,
}

/// One configured page file.
#[derive(Debug, Clone)]
pub struct PagefileEntry {
    /// Such as `C:\pagefile.sys`.
    pub name: String,
    /// Its first character, the drive letter.
    pub drive: String,
    pub current_size_bytes: Option<u64>,
    pub peak_usage_bytes: Option<u64>,
    pub allocated_base_size_mb: Option<u64>,
    pub current_usage_mb: Option<u64>,
    pub peak_usage_mb: Option<u64>,
}

/// The items of the `Win32_PageFileUsage` query output: nothing for blank
/// or `null` output or output that is not JSON, the elements of an array, a
/// single object by itself.
pub open spec fn pagefile_items(output: Seq<char>) -> Seq<Json> {
    if trim_ws(output).len() == 0 || trim_ws(output) == "null"@ {
        Seq::empty()
    } else {
        match parsed_json(output) {
            Some(v) => match v {
                Json::Array(a) => a@,
                Json::Object(_) => seq![v],
                _ => Seq::empty(),
            },
            None => Seq::empty(),
        }
    }
}

/// The `Name` member of an item, empty when missing or not a string.
pub open spec fn item_name(item: Json) -> Seq<char> {
    match opt_str(get_spec(item, "Name"@)) {
        Some(n) => n,
        None => Seq::empty(),
    }
}

/// The items that name a page file, in order.
pub open spec fn named_items(items: Seq<Json>) -> Seq<Json>
    decreases items.len(),
{
    if items.len() == 0 {
        Seq::empty()
    } else if item_name(items.last()).len() > 0 {
        named_items(items.drop_last()).push(items.last())
    } else {
        named_items(items.drop_last())
    }
}

/// `e` is the entry read from `item`.
pub open spec fn entry_of(e: PagefileEntry, item: Json) -> bool {
    &&& e.name@ == item_name(item)
    &&& e.drive@ == seq![item_name(item)[0]]
    &&& e.current_size_bytes is None
    &&& e.peak_usage_bytes is None
    &&& e.allocated_base_size_mb == opt_u64(get_spec(item, "AllocatedBaseSize"@))
    &&& e.current_usage_mb == opt_u64(get_spec(item, "CurrentUsage"@))
    &&& e.peak_usage_mb == opt_u64(get_spec(item, "PeakUsage"@))
}

fn member_u64(item: &Json, key: &str) -> (r: Option<u64>)
    ensures
        r == opt_u64(get_spec(*item, key@)),
{
    match get(item, key) {
        Some(v) => as_u64(v),
        None => None,
    }
}

fn entry_from_item(item: &Json) -> (r: Option<PagefileEntry>)
    ensures
        item_name(*item).len() == 0 ==> r is None,
        item_name(*item).len() > 0 ==> (r matches Some(e) && entry_of(e, *item)),
{
    let name = match get(item, "Name") {
        Some(v) => match as_str(v) {
            Some(s) => chars_of(s.as_str()),
            None => Vec::new(),
        },
        None => Vec::new(),
    };
    if name.len() == 0 {
        return None;
    }
    let mut drive: Vec<char> = Vec::new();
    drive.push(name[0]);
    assert(drive@ =~= seq![name@[0]]);
    Some(
        PagefileEntry {
            name: string_of(&name),
            drive: string_of(&drive),
            current_size_bytes: None,
            peak_usage_bytes: None,
            allocated_base_size_mb: member_u64(item, "AllocatedBaseSize"),
            current_usage_mb: member_u64(item, "CurrentUsage"),
            peak_usage_mb: member_u64(item, "PeakUsage"),
        },
    )
}

fn entries_from_items(items: &Vec<Json>) -> (r: Vec<PagefileEntry>)
    ensures
        r@.len() == named_items(items@).len(),
        forall|i: int| 0 <= i < r@.len() ==> entry_of(#[trigger] r@[i], named_items(items@)[i]),
{
    let mut r: Vec<PagefileEntry> = Vec::new();
    let mut i: usize = 0;
    while i < items.len()
        invariant
            i <= items.len(),
            r@.len() == named_items(items@.take(i as int)).len(),
            forall|k: int| 0 <= k < r@.len() ==> entry_of(#[trigger] r@[k], named_items(items@.take(i as int))[k]),
        decreases items.len() - i,
    {
        assert(items@.take(i + 1).drop_last() =~= items@.take(i as int));
        assert(items@.take(i + 1).last() == items@[i as int]);
        match entry_from_item(&items[i]) {
            Some(e) => {
                r.push(e);
            },
            None => {},
        }
        i = i + 1;
    }
    assert(items@.take(items.len() as int) =~= items@);
    r
}

/// Page file status from the JSON printed by the `Win32_PageFileUsage`
/// query and the text printed for `AutomaticManagedPagefile`.
pub fn pagefile_status(usage_output: &str, auto_output: &str) -> (r: PagefileStatus)
    ensures
        r.pagefiles@.len() == named_items(pagefile_items(usage_output@)).len(),
        forall|i: int|
            0 <= i < r.pagefiles@.len() ==> entry_of(
                #[trigger] r.pagefiles@[i],
                named_items(pagefile_items(usage_output@))[i],
            ),
        r.auto_managed == (unicode_lowercase(trim_ws(auto_output@)) == "true"@),
        !r.requires_admin,
{
    let out = chars_of(usage_output);
    let trimmed = trim_exec(&out);
    let mut pagefiles: Vec<PagefileEntry> = Vec::new();
    assert(named_items(Seq::<Json>::empty()) =~= Seq::<Json>::empty());
    if trimmed.len() != 0 && !seq_eq(&trimmed, &chars_of("null")) {
        match parse_json(usage_output) {
            Some(v) => {
                match &v {
                    Json::Array(a) => {
                        pagefiles = entries_from_items(a);
                    },
                    Json::Object(_) => {
                        assert(seq![v].drop_last() =~= Seq::<Json>::empty());
                        assert(seq![v].last() == v);
                        assert(named_items(Seq::<Json>::empty()) =~= Seq::<Json>::empty());
                        assert(pagefile_items(usage_output@) == seq![v]);
                        match entry_from_item(&v) {
                            Some(e) => {
                                pagefiles.push(e);
                            },
                            None => {},
                        }
                    },
                    _ => {},
                }
            },
            None => {},
        }
    } else {
        assert(trimmed@.len() == 0 || trimmed@ =~= "null"@);
    }
    let auto = lowercase(&trim_exec(&chars_of(auto_output)));
    let auto_managed = seq_eq(&auto, &chars_of("true"));
    PagefileStatus { pagefiles, auto_managed, requires_admin: false }
}

/// The drive letter named by a target such as `d`, `D:` or ` D:\`
/// (surrounding whitespace, trailing `:` and `\` are ignored), in upper case;
/// `None` unless exactly one ASCII letter remains.
pub open spec fn drive_letter(target: Seq<char>) -> Option<char> {
    let d = trim_end_char(trim_end_char(trim_ws(target), ':'), '\\');
    if d.len() == 1 && is_ascii_alpha(d[0]) {
        Some(ascii_upper(d[0]))
    } else {
        None
    }
}

/// Reads a drive letter as [`drive_letter`] describes.
pub fn parse_drive_letter(target: &str) -> (r: Option<char>)
    ensures
        r == drive_letter(target@),
{
    let t = trim_exec(&chars_of(target));
    let t = trim_end_char_exec(&t, ':');
    let d = trim_end_char_exec(&t, '\\');
    if d.len() == 1 && (('a' <= d[0] && d[0] <= 'z') || ('A' <= d[0] && d[0] <= 'Z')) {
        Some(to_ascii_upper_char(d[0]))
    } else {
        None
    }
}

pub open spec fn pagefile_command(letter: char) -> Seq<char> {
    "wmic computersystem set AutomaticManagedPagefile=False && wmic pagefilesetting where name=\"C:\\\\pagefile.sys\" delete && wmic pagefilesetting create name=\""@
        + seq![letter] + ":\\\\pagefile.sys\""@
}

/// Moves the page file to another drive (administrator, effective after a
/// reboot): disables automatic management, deletes the `C:` page file
/// setting and creates one on the target drive.
pub fn pagefile_migrate(target_drive: &str, on_windows: bool) -> (step: CmdStep)
    ensures
        drive_letter(target_drive@) is None ==> (step matches CmdStep::Done(r) && refused(
            r,
            Seq::empty(),
            true,
            "target_drive 必须是单个盘符(如 D),收到: "@ + target_drive@,
        )),
        drive_letter(target_drive@) matches Some(u) ==> run_step(
            step,
            pagefile_command(u),
            true,
            on_windows,
        ),
{
    match parse_drive_letter(target_drive) {
        None => CmdStep::Done(
            refusal(
                String::new(),
                true,
                lit_concat("target_drive 必须是单个盘符(如 D),收到: ", &chars_of(target_drive)),
            ),
        ),
        Some(u) => {
            let mut letter: Vec<char> = Vec::new();
            letter.push(u);
            let head = concat(
                &chars_of(
                    "wmic computersystem set AutomaticManagedPagefile=False && wmic pagefilesetting where name=\"C:\\\\pagefile.sys\" delete && wmic pagefilesetting create name=\"",
                ),
                &letter,
            );
            let cmd = concat(&head, &chars_of(":\\\\pagefile.sys\""));
            assert(letter@ =~= seq![u]);
            let cmd = string_of(&cmd);
            run_cmd(cmd.as_str(), true, on_windows)
        },
    }
}

// ───────────────────────────── restore points ─────────────────────────────

/// Shadow copy state.
#[derive(Debug, Clone)]
pub struct RestorePointStatus {
    pub shadow_count: usize,
    pub vssadmin_output: String,
    pub used_space_bytes: Option<u64>,
    pub allocated_space_bytes: Option<u64>,
    pub requires_admin: bool,
}

/// `str::parse::<u64>` on a string of ASCII digits.
pub open spec fn parse_digits(d: Seq<char>) -> Option<u64> {
    if d.len() == 0 || digits_value(d) > u64::MAX {
        None
    } else {
        Some(digits_value(d) as u64)
    }
}

/// The byte count on one `vssadmin list shadowstorage` line: the line must
/// mention the (lowercased) keyword and `bytes`; the digits between its last
/// `(` and the next ` bytes` are read.
pub open spec fn vss_line_value(line: Seq<char>, keyword_lower: Seq<char>) -> Option<u64> {
    let lower = unicode_lowercase(line);
    if has_sub(lower, keyword_lower) && has_sub(lower, "bytes"@) {
        match last_index_before(line, '(', line.len() as int) {
            Some(start) => match find_from(line, " bytes"@, start) {
                Some(end) => parse_digits(keep_digits(line.subrange(start + 1, end))),
                None => None,
            },
            None => None,
        }
    } else {
        None
    }
}

/// The first line that yields a value.
pub open spec fn first_vss_value(ls: Seq<Seq<char>>, keyword_lower: Seq<char>) -> Option<u64>
    decreases ls.len(),
{
    if ls.len() == 0 {
        None
    } else {
        match vss_line_value(ls[0], keyword_lower) {
            Some(v) => Some(v),
            None => first_vss_value(ls.drop_first(), keyword_lower),
        }
    }
}

proof fn lemma_last_index_before(s: Seq<char>, c: char, end: int)
    ensures
        last_index_before(s, c, end) matches Some(k) ==> 0 <= k < end && k < s.len() && s[k] == c,
    decreases end,
{
    if 0 < end <= s.len() && s[end - 1] != c {
        lemma_last_index_before(s, c, end - 1);
    }
}

proof fn lemma_find_from(s: Seq<char>, pat: Seq<char>, i: int)
    ensures
        find_from(s, pat, i) matches Some(k) ==> i <= k && crate::text::occurs_at(s, pat, k),
    decreases s.len() + 1 - i,
{
    if 0 <= i <= s.len() && !crate::text::occurs_at(s, pat, i) {
        lemma_find_from(s, pat, i + 1);
    }
}

fn vss_line_value_exec(line: &Vec<char>, keyword_lower: &Vec<char>) -> (r: Option<u64>)
    ensures
        r == vss_line_value(line@, keyword_lower@),
{
    let lower = lowercase(line);
    if !(contains(&lower, keyword_lower) && contains(&lower, &chars_of("bytes"))) {
        return None;
    }
    proof {
        lemma_last_index_before(line@, '(', line@.len() as int);
    }
    let start = match rfind_char(line, '(') {
        Some(s) => s,
        None => return None,
    };
    let pat = chars_of(" bytes");
    proof {
        lemma_find_from(line@, pat@, start as int);
    }
    let end = match find_from_exec(line, &pat, start) {
        Some(e) => e,
        None => return None,
    };
    proof {
        reveal_strlit(" bytes");
        assert(pat@[0] == ' ');
        assert(line@.subrange(end as int, end + pat@.len())[0] == line@[end as int]);
    }
    assert(end > start);
    let num = slice_of(line, start + 1, end);
    let cleaned = keep_digits_exec(&num);
    proof {
        lemma_keep_digits_all_digits(num@);
    }
    parse_u64_digits(&cleaned)
}

proof fn lemma_first_vss_cons(l: Seq<char>, rest: Seq<Seq<char>>, kw: Seq<char>)
    ensures
        first_vss_value(seq![l] + rest, kw) == (match vss_line_value(l, kw) {
            Some(v) => Some(v),
            None => first_vss_value(rest, kw),
        }),
{
    assert((seq![l] + rest)[0] == l);
    assert((seq![l] + rest).drop_first() =~= rest);
}

/// Reads a byte count from `vssadmin list shadowstorage` output, such as
/// `Used Shadow Copy Storage space: 5.2 GB (5,589,345,234 bytes)`: the first
/// line that mentions `keyword` (ignoring case) and yields a number.
pub fn parse_vss_storage(output: &str, keyword: &str) -> (r: Option<u64>)
    ensures
        r == first_vss_value(lines(output@), unicode_lowercase(keyword@)),
{
    let s = chars_of(output);
    let kw = lowercase(&chars_of(keyword));
    let mut start: usize = 0;
    while start < s.len()
        invariant
            start <= s@.len(),
            s@ == output@,
            kw@ == unicode_lowercase(keyword@),
            first_vss_value(lines(output@), kw@) == first_vss_value(lines_from(s@, start as int), kw@),
        decreases s.len() - start,
    {
        let (line, next) = next_line(&s, start);
        proof {
            lemma_first_vss_cons(line@, lines_from(s@, next as int), kw@);
        }
        match vss_line_value_exec(&line, &kw) {
            Some(v) => {
                return Some(v);
            },
            None => {},
        }
        start = next;
    }
    assert(lines_from(s@, start as int) =~= Seq::<Seq<char>>::empty());
    None
}

/// Restore point status from the outputs of `vssadmin list shadows` and
/// `vssadmin list shadowstorage`.
pub fn restore_status(shadows_output: &str, storage_output: &str) -> (r: RestorePointStatus)
    ensures
        r.shadow_count as nat == count_from(shadows_output@, "Shadow Copy Volume"@, 0),
        r.vssadmin_output@ == "=== shadows ===\n"@ + shadows_output@ + "\n=== shadowstorage ===\n"@
            + storage_output@,
        r.used_space_bytes == first_vss_value(lines(storage_output@), unicode_lowercase("Used"@)),
        r.allocated_space_bytes == first_vss_value(
            lines(storage_output@),
            unicode_lowercase("Allocated"@),
        ),
        r.requires_admin,
{
    let shadows = chars_of(shadows_output);
    let pat = chars_of("Shadow Copy Volume");
    proof {
        reveal_strlit("Shadow Copy Volume");
    }
    let shadow_count = count_matches(&shadows, &pat);
    let a = concat(&chars_of("=== shadows ===\n"), &shadows);
    let b = concat(&a, &chars_of("\n=== shadowstorage ===\n"));
    let c = concat(&b, &chars_of(storage_output));
    RestorePointStatus {
        shadow_count,
        vssadmin_output: string_of(&c),
        used_space_bytes: parse_vss_storage(storage_output, "Used"),
        allocated_space_bytes: parse_vss_storage(storage_output, "Allocated"),
        requires_admin: true,
    }
}

/// Deletes every shadow copy (`vssadmin delete shadows /all /quiet`,
/// administrator, irreversible).
pub fn restore_delete_all(on_windows: bool) -> (step: CmdStep)
    ensures
        run_step(step, "vssadmin delete shadows /all /quiet"@, true, on_windows),
{
    run_cmd("vssadmin delete shadows /all /quiet", true, on_windows)
}

// ───────────────────────────── migration analysis ─────────────────────────────

/// A program directory found on `C:` with the size of everything below it.
#[derive(Debug, Clone)]
pub struct AppDir {
    pub name: String,
    pub install_path: String,
    pub size_bytes: u64,
}

/// A large program that could move to another drive.
#[derive(Debug, Clone)]
pub struct MigrationCandidate {
    pub name: String,
    pub install_path: String,
    pub size_bytes: u64,
    pub drive: String,
    pub has_uninstall_string: bool,
}

/// Programs on `C:` by size, largest first.
#[derive(Debug)]
pub struct MigrationAnalysis {
    pub candidates: Vec<MigrationCandidate>,
    /// Total size of the `Program Files` directories (saturating).
    pub c_program_files_total_bytes: u64,
    pub requires_admin: bool,
}

/// `c` describes the directory `d` on drive `C`.
pub open spec fn candidate_of(c: MigrationCandidate, d: AppDir) -> bool {
    &&& c.name@ == d.name@
    &&& c.install_path@ == d.install_path@
    &&& c.size_bytes == d.size_bytes
    &&& c.drive@ == "C"@
    &&& !c.has_uninstall_string
}

/// Sum of the sizes, added with `u64::saturating_add` in order.
pub open spec fn saturating_total(dirs: Seq<AppDir>) -> u64
    decreases dirs.len(),
{
    if dirs.len() == 0 {
        0
    } else {
        let t = saturating_total(dirs.drop_last()) as int + dirs.last().size_bytes as int;
        if t > u64::MAX {
            u64::MAX
        } else {
            t as u64
        }
    }
}

/// The Program Files total is the sum of the directory sizes, capped at
/// `u64::MAX`; adding a directory adds its size to the total, capped.
pub proof fn lemma_program_total_is_capped_sum(dirs: Seq<AppDir>, d: AppDir)
    ensures
        ({
            let sum = dirs.fold_left(0int, |acc: int, x: AppDir| acc + x.size_bytes);
            saturating_total(dirs) == if sum <= u64::MAX {
                sum
            } else {
                u64::MAX as int
            }
        }),
        saturating_total(Seq::<AppDir>::empty()) == 0,
        saturating_total(dirs.push(d)) == if saturating_total(dirs) + d.size_bytes <= u64::MAX {
            saturating_total(dirs) + d.size_bytes
        } else {
            u64::MAX as int
        },
    decreases dirs.len(),
{
    assert(dirs.push(d).drop_last() =~= dirs);
    if dirs.len() > 0 {
        let init = dirs.drop_last();
        lemma_program_total_is_capped_sum(init, dirs.last());
        lemma_fold_sizes_nonneg(init);
    }
}

proof fn lemma_fold_sizes_nonneg(dirs: Seq<AppDir>)
    ensures
        dirs.fold_left(0int, |acc: int, x: AppDir| acc + x.size_bytes) >= 0,
    decreases dirs.len(),
{
    if dirs.len() > 0 {
        lemma_fold_sizes_nonneg(dirs.drop_last());
    }
}

pub open spec fn dir_sizes(dirs: Seq<AppDir>) -> Seq<u64> {
    dirs.map_values(|d: AppDir| d.size_bytes)
}

fn candidate_from(d: &AppDir) -> (c: MigrationCandidate)
    ensures
        candidate_of(c, *d),
{
    MigrationCandidate {
        name: d.name.clone(),
        install_path: d.install_path.clone(),
        size_bytes: d.size_bytes,
        drive: String::from_str("C"),
        has_uninstall_string: false,
    }
}

/// Orders the program directories found under `C:\Program Files`,
/// `C:\Program Files (x86)` (`program_dirs`) and the user's
/// `AppData\Local\Programs` (`user_dirs`) by size, largest first, keeping
/// the scan order among equal sizes; the total covers `program_dirs` only.
pub fn analyze_migratable_apps(program_dirs: &Vec<AppDir>, user_dirs: &Vec<AppDir>) -> (r: MigrationAnalysis)
    requires
        program_dirs@.len() + user_dirs@.len() <= usize::MAX,
    ensures
        r.candidates@.len() == program_dirs@.len() + user_dirs@.len(),
        exists|p: Seq<usize>|
            #![trigger is_permutation(p, program_dirs@.len() + user_dirs@.len())]
            is_permutation(p, program_dirs@.len() + user_dirs@.len()) && sorted_desc_stable(
                dir_sizes(program_dirs@ + user_dirs@),
                p,
            ) && forall|i: int|
                0 <= i < r.candidates@.len() ==> candidate_of(
                    #[trigger] r.candidates@[i],
                    (program_dirs@ + user_dirs@)[p[i] as int],
                ),
        r.c_program_files_total_bytes == saturating_total(program_dirs@),
        !r.requires_admin,
{
    let ghost all = program_dirs@ + user_dirs@;
    let mut total: u64 = 0;
    let mut sizes: Vec<u64> = Vec::new();
    let mut i: usize = 0;
    while i < program_dirs.len()
        invariant
            i <= program_dirs@.len(),
            all == program_dirs@ + user_dirs@,
            total == saturating_total(program_dirs@.take(i as int)),
            sizes@ == dir_sizes(all).take(i as int),
        decreases program_dirs.len() - i,
    {
        assert(program_dirs@.take(i + 1).drop_last() =~= program_dirs@.take(i as int));
        total = total.saturating_add(program_dirs[i].size_bytes);
        sizes.push(program_dirs[i].size_bytes);
        i = i + 1;
        assert(sizes@ =~= dir_sizes(all).take(i as int));
    }
    assert(program_dirs@.take(program_dirs@.len() as int) =~= program_dirs@);
    let mut j: usize = 0;
    while j < user_dirs.len()
        invariant
            j <= user_dirs@.len(),
            all == program_dirs@ + user_dirs@,
            program_dirs@.len() + user_dirs@.len() <= usize::MAX,
            sizes@ == dir_sizes(all).take(program_dirs@.len() + j),
        decreases user_dirs.len() - j,
    {
        sizes.push(user_dirs[j].size_bytes);
        j = j + 1;
        assert(sizes@ =~= dir_sizes(all).take(program_dirs@.len() + j));
    }
    assert(sizes@ =~= dir_sizes(all));
    let order = stable_order_desc(&sizes);
    let n_prog = program_dirs.len();
    let mut candidates: Vec<MigrationCandidate> = Vec::new();
    let mut k: usize = 0;
    while k < order.len()
        invariant
            k <= order@.len(),
            all == program_dirs@ + user_dirs@,
            n_prog == program_dirs@.len(),
            is_permutation(order@, all.len()),
            candidates@.len() == k,
            forall|m: int| 0 <= m < k ==> candidate_of(#[trigger] candidates@[m], all[order@[m] as int]),
        decreases order.len() - k,
    {
        let idx = order[k];
        assert(order@[k as int] < all.len());
        let c = if idx < n_prog {
            candidate_from(&program_dirs[idx])
        } else {
            candidate_from(&user_dirs[idx - n_prog])
        };
        candidates.push(c);
        k = k + 1;
    }
    MigrationAnalysis { candidates, c_program_files_total_bytes: total, requires_admin: false }
}

} // verus!
