//! Restarting the tool with administrator rights.
//!
//! On Windows the host asks for elevation through the shell's `runas` verb,
//! waits for the elevated child and hands on its exit code; the child writes
//! its output to a file that the parent passes on. Elsewhere there is no
//! elevation: the process counts as elevated and a restart is refused.
//! The decisions, and the UTF-16 text the Windows calls take, are here.

use vstd::prelude::*;
use crate::text::{chars_of, string_of, trim_end_exec, trim_end_ws};

verus! {

// ───────────────────────────── UTF-16 ─────────────────────────────

/// The UTF-16 code units of one character.
pub open spec fn utf16_of_char(c: char) -> Seq<u16> {
    let v = c as u32;
    if v < 0x10000 {
        seq![v as u16]
    } else {
        seq![(0xD800 + (v - 0x10000) / 0x400) as u16, (0xDC00 + (v - 0x10000) % 0x400) as u16]
    }
}

/// The UTF-16 encoding of a character sequence (`str::encode_utf16`).
pub open spec fn utf16_of(s: Seq<char>) -> Seq<u16>
    decreases s.len(),
{
    if s.len() == 0 {
        Seq::empty()
    } else {
        utf16_of(s.drop_last()) + utf16_of_char(s.last())
    }
}

/// The UTF-16 encoding of `s` followed by a terminating zero, as the wide
/// Windows calls take text.
pub fn wide_nul(s: &str) -> (r: Vec<u16>)
    ensures
        r@ == utf16_of(s@).push(0u16),
{
    let c = chars_of(s);
    let mut r: Vec<u16> = Vec::new();
    let mut i: usize = 0;
    while i < c.len()
        invariant
            i <= c@.len(),
            c@ == s@,
            r@ == utf16_of(c@.take(i as int)),
        decreases c@.len() - i,
    {
        assert(c@.take(i + 1).drop_last() =~= c@.take(i as int));
        let ch = c[i];
        let v = ch as u32;
        proof {
            vstd::utf8::char_is_scalar(ch);
        }
        if v < 0x10000 {
            r.push(v as u16);
        } else {
            let w = v - 0x10000;
            assert(w / 0x400 < 0x400);
            r.push((0xD800 + w / 0x400) as u16);
            r.push((0xDC00 + w % 0x400) as u16);
        }
        i = i + 1;
        assert(r@ =~= utf16_of(c@.take(i as int)));
    }
    assert(c@.take(c@.len() as int) =~= c@);
    r.push(0);
    r
}

// ───────────────────────────── elevation state ─────────────────────────────

/// Whether the process runs with an administrator token. On Windows this is
/// what the token query found: `None` when the process token could not be
/// opened, else whether the elevation query succeeded and its flag. Elsewhere
/// there is no elevation, and the process counts as elevated so that a
/// restart is never attempted.
pub fn is_elevated(on_windows: bool, token_query: Option<(bool, u32)>) -> (r: bool)
    ensures
        r == (!on_windows || (token_query matches Some((ok, flag)) && ok && flag != 0)),
{
    if !on_windows {
        return true;
    }
    match token_query {
        Some((ok, flag)) => ok && flag != 0,
        None => false,
    }
}

// ───────────────────────────── restarting ─────────────────────────────

/// How one argument appears on the command line: quoted when it holds a
/// space or a tab, followed by a space.
pub open spec fn shell_param(a: Seq<char>) -> Seq<char> {
    if a.contains(' ') || a.contains('\t') {
        "\""@ + a + "\" "@
    } else {
        a + " "@
    }
}

/// The non-empty arguments, each as [`shell_param`] shows it.
pub open spec fn joined_params(args: Seq<String>) -> Seq<char>
    decreases args.len(),
{
    if args.len() == 0 {
        Seq::empty()
    } else if args.last()@.len() == 0 {
        joined_params(args.drop_last())
    } else {
        joined_params(args.drop_last()) + shell_param(args.last()@)
    }
}

/// The parameter string of the elevated child.
pub open spec fn shell_params(args: Seq<String>) -> Seq<char> {
    trim_end_ws(joined_params(args))
}

fn has_space_or_tab(a: &Vec<char>) -> (r: bool)
    ensures
        r == (a@.contains(' ') || a@.contains('\t')),
{
    let mut i: usize = 0;
    while i < a.len()
        invariant
            i <= a@.len(),
            forall|j: int| 0 <= j < i ==> a@[j] != ' ' && a@[j] != '\t',
        decreases a@.len() - i,
    {
        if a[i] == ' ' || a[i] == '\t' {
            assert(a@[i as int] == ' ' ==> a@.contains(' '));
            assert(a@[i as int] == '\t' ==> a@.contains('\t'));
            return true;
        }
        i = i + 1;
    }
    false
}

/// Builds the parameter string of the elevated child.
pub fn build_shell_params(args: &Vec<String>) -> (r: String)
    ensures
        r@ == shell_params(args@),
{
    let mut v: Vec<char> = Vec::new();
    let mut i: usize = 0;
    while i < args.len()
        invariant
            i <= args@.len(),
            v@ == joined_params(args@.take(i as int)),
        decreases args@.len() - i,
    {
        assert(args@.take(i + 1).drop_last() =~= args@.take(i as int));
        let a = chars_of(args[i].as_str());
        if a.len() > 0 {
            let quoted = has_space_or_tab(&a);
            let ghost before = v@;
            if quoted {
                v.push('"');
            }
            let mut k: usize = 0;
            while k < a.len()
                invariant
                    k <= a@.len(),
                    v@ == before + (if quoted {
                        seq!['"']
                    } else {
                        Seq::<char>::empty()
                    }) + a@.take(k as int),
                decreases a@.len() - k,
            {
                v.push(a[k]);
                k = k + 1;
                assert(v@ =~= before + (if quoted {
                    seq!['"']
                } else {
                    Seq::<char>::empty()
                }) + a@.take(k as int));
            }
            assert(a@.take(a@.len() as int) =~= a@);
            if quoted {
                v.push('"');
            }
            v.push(' ');
            proof {
                reveal_strlit("\"");
                reveal_strlit("\" ");
                reveal_strlit(" ");
            }
            assert(v@ =~= before + shell_param(a@));
        }
        i = i + 1;
    }
    assert(args@.take(args@.len() as int) =~= args@);
    string_of(&trim_end_exec(&v))
}

/// What a failed elevation reports.
#[derive(Debug, Clone, Copy, PartialEq, Eq, Structural)]
pub enum ElevateErrorKind {
    /// The platform has no elevation.
    Unsupported,
    /// The kind of the operating system's last error.
    Os,
    /// Anything else.
    Other,
}

/// An elevation failure.
#[derive(Debug)]
pub struct ElevateError {
    pub kind: ElevateErrorKind,
    pub message: String,
}

/// What the host passes to the shell to start the elevated child.
#[derive(Debug)]
pub struct LaunchRequest {
    /// The parameter string.
    pub params: String,
    /// Its wide form, `None` when it is empty (no parameters are passed).
    pub params_wide: Option<Vec<u16>>,
    /// The wide form of the `runas` verb.
    pub verb_wide: Vec<u16>,
}

/// Prepares restarting the tool elevated with `args_for_child` (which no
/// longer hold `--elevate` and already name the output file). Only Windows
/// can do this.
pub fn relaunch_elevated(args_for_child: &Vec<String>, on_windows: bool) -> (r: Result<
    LaunchRequest,
    ElevateError,
>)
    ensures
        !on_windows ==> (r matches Err(e) && e.kind == ElevateErrorKind::Unsupported && e.message@
            == "提权(--elevate)只在 Windows 平台支持"@),
        on_windows ==> (r matches Ok(q) && {
            &&& q.params@ == shell_params(args_for_child@)
            &&& if q.params@.len() == 0 {
                q.params_wide is None
            } else {
                q.params_wide matches Some(w) && w@ == utf16_of(q.params@).push(0u16)
            }
            &&& q.verb_wide@ == utf16_of("runas"@).push(0u16)
        }),
{
    if !on_windows {
        return Err(
            ElevateError {
                kind: ElevateErrorKind::Unsupported,
                message: String::from_str("提权(--elevate)只在 Windows 平台支持"),
            },
        );
    }
    let params = build_shell_params(args_for_child);
    let params_wide = if params.as_str().is_empty() {
        None
    } else {
        Some(wide_nul(params.as_str()))
    };
    Ok(LaunchRequest { params, params_wide, verb_wide: wide_nul("runas") })
}

/// What the host saw while starting and waiting for the elevated child.
#[derive(Debug)]
pub enum LaunchReport {
    /// The shell refused to start it; the text of the operating system's error.
    ShellFailed(String),
    /// The shell started it but gave no process to wait for.
    NoProcess,
    /// Waiting for the child failed.
    WaitFailed,
    /// Reading the child's exit code failed.
    ExitCodeFailed,
    /// The child exited with this code.
    Exited(u32),
}

/// How a restart ended when it did not give an exit code.
#[derive(Debug)]
pub enum LaunchError {
    /// A failure with a message of its own and the given kind.
    Failed(ElevateError),
    /// The operating system's last error, as it is.
    LastOsError,
}

/// The exit code of the elevated child, read as a signed 32-bit value, or
/// why there is none.
pub fn launch_outcome(report: LaunchReport) -> (r: Result<i32, LaunchError>)
    ensures
        match report {
            LaunchReport::ShellFailed(text) => r matches Err(LaunchError::Failed(e)) && e.kind
                == ElevateErrorKind::Os && e.message@ == "ShellExecuteExW 'runas' 失败: "@ + text@
                + " (用户可能拒绝了 UAC 提示)"@,
            LaunchReport::NoProcess => r matches Err(LaunchError::Failed(e)) && e.kind
                == ElevateErrorKind::Other && e.message@
                == "ShellExecuteExW 成功但 hProcess 为 null(无法等待子进程)"@,
            LaunchReport::WaitFailed => r matches Err(LaunchError::LastOsError),
            LaunchReport::ExitCodeFailed => r matches Err(LaunchError::LastOsError),
            LaunchReport::Exited(code) => r == Ok::<i32, LaunchError>(code as i32),
        },
{
    match report {
        LaunchReport::ShellFailed(text) => {
            let mut m = chars_of("ShellExecuteExW 'runas' 失败: ");
            let t = chars_of(text.as_str());
            let mut k: usize = 0;
            let ghost m0 = m@;
            while k < t.len()
                invariant
                    k <= t@.len(),
                    m@ == m0 + t@.take(k as int),
                decreases t@.len() - k,
            {
                m.push(t[k]);
                k = k + 1;
                assert(m@ =~= m0 + t@.take(k as int));
            }
            assert(t@.take(t@.len() as int) =~= t@);
            let tail = chars_of(" (用户可能拒绝了 UAC 提示)");
            let mut j: usize = 0;
            let ghost m1 = m@;
            while j < tail.len()
                invariant
                    j <= tail@.len(),
                    m@ == m1 + tail@.take(j as int),
                decreases tail@.len() - j,
            {
                m.push(tail[j]);
                j = j + 1;
                assert(m@ =~= m1 + tail@.take(j as int));
            }
            assert(tail@.take(tail@.len() as int) =~= tail@);
            Err(LaunchError::Failed(ElevateError { kind: ElevateErrorKind::Os, message: string_of(&m) }))
        },
        LaunchReport::NoProcess => Err(
            LaunchError::Failed(
                ElevateError {
                    kind: ElevateErrorKind::Other,
                    message: String::from_str("ShellExecuteExW 成功但 hProcess 为 null(无法等待子进程)"),
                },
            ),
        ),
        LaunchReport::WaitFailed => Err(LaunchError::LastOsError),
        LaunchReport::ExitCodeFailed => Err(LaunchError::LastOsError),
        LaunchReport::Exited(code) => Ok(code as i32),
    }
}

/// Prepares sending this process's standard output to `path`: on Windows,
/// the wide form of the path, which the host opens and installs as the
/// standard output handle; elsewhere there is nothing to do (`None`).
pub fn redirect_stdout_to_file(path: &str, on_windows: bool) -> (r: Option<Vec<u16>>)
    ensures
        !on_windows ==> r is None,
        on_windows ==> (r matches Some(w) && w@ == utf16_of(path@).push(0u16)),
{
    if on_windows {
        Some(wide_nul(path))
    } else {
        None
    }
}

} // verus!
