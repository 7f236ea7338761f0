use vstd::prelude::*;
use vstd::utf8::{decode_utf8, valid_utf8};

use crate::config::{LocalEnvironmentScriptConfig, LocalEnvironmentScriptShell};
use crate::env_map::{EnvMap, EnvSeq};
use crate::policy::{strings_view, Platform};
use crate::snapshot::{
    parse_environment_snapshot, parse_snapshot_spec, snapshot_marker, string_from_utf8_lossy,
    utf8_lossy_decoded, SnapshotError, SnapshotFormat, SNAPSHOT_MARKER,
};
use crate::text::{chars_of, push_all, string_of_range};

verus! {

// ---------------------------------------------------------------------------
// Quoting.

/// Each character of `s` replaced by `f` of it.
pub open spec fn escape_with(s: Seq<char>, f: spec_fn(char) -> Seq<char>) -> Seq<char>
    decreases s.len(),
{
    if s.len() == 0 {
        Seq::empty()
    } else {
        escape_with(s.drop_last(), f) + f(s.last())
    }
}

/// Inside POSIX single quotes, a quote becomes `'\''`.
pub open spec fn posix_escape() -> spec_fn(char) -> Seq<char> {
    |c: char|
        if c == '\'' {
            seq!['\'', '\\', '\'', '\'']
        } else {
            seq![c]
        }
}

/// Inside PowerShell single quotes, a quote is doubled.
pub open spec fn powershell_escape() -> spec_fn(char) -> Seq<char> {
    |c: char|
        if c == '\'' {
            seq!['\'', '\'']
        } else {
            seq![c]
        }
}

/// For `cmd`, `^ & | < >` get a `^` in front and `%` is doubled.
pub open spec fn cmd_escape() -> spec_fn(char) -> Seq<char> {
    |c: char|
        if c == '^' || c == '&' || c == '|' || c == '<' || c == '>' {
            seq!['^', c]
        } else if c == '%' {
            seq!['%', '%']
        } else {
            seq![c]
        }
}

/// `s` as one POSIX shell word in single quotes.
pub open spec fn posix_shell_quote_spec(s: Seq<char>) -> Seq<char> {
    seq!['\''] + escape_with(s, posix_escape()) + seq!['\'']
}

/// `s` made safe to put between PowerShell single quotes.
pub open spec fn powershell_quote_spec(s: Seq<char>) -> Seq<char> {
    escape_with(s, powershell_escape())
}

/// `s` as one `cmd` word in double quotes.
pub open spec fn cmd_quote_spec(s: Seq<char>) -> Seq<char> {
    seq!['"'] + escape_with(s, cmd_escape()) + seq!['"']
}

/// The kinds of escaping.
#[derive(Clone, Copy, Debug, PartialEq, Eq, Structural)]
enum Escaping {
    Posix,
    PowerShell,
    Cmd,
}

spec fn escaping_fn(e: Escaping) -> spec_fn(char) -> Seq<char> {
    match e {
        Escaping::Posix => posix_escape(),
        Escaping::PowerShell => powershell_escape(),
        Escaping::Cmd => cmd_escape(),
    }
}

/// Appends the escaped form of `c` to `out`.
fn push_escaped_char(out: &mut String, c: char, e: Escaping)
    ensures
        final(out)@ == old(out)@ + (escaping_fn(e))(c),
{
    match e {
        Escaping::Posix => {
            if c == '\'' {
                out.push('\'');
                out.push('\\');
                out.push('\'');
                out.push('\'');
            } else {
                out.push(c);
            }
        },
        Escaping::PowerShell => {
            if c == '\'' {
                out.push('\'');
                out.push('\'');
            } else {
                out.push(c);
            }
        },
        Escaping::Cmd => {
            if c == '^' || c == '&' || c == '|' || c == '<' || c == '>' {
                out.push('^');
                out.push(c);
            } else if c == '%' {
                out.push('%');
                out.push('%');
            } else {
                out.push(c);
            }
        },
    }
    assert(out@ =~= old(out)@ + (escaping_fn(e))(c));
}

/// Appends the escaped form of `s` to `out`.
fn push_escaped(out: &mut String, s: &str, e: Escaping)
    ensures
        final(out)@ == old(out)@ + escape_with(s@, escaping_fn(e)),
{
    let chars = chars_of(s);
    let n = chars.len();
    for i in 0..n
        invariant
            n == chars@.len(),
            chars@ == s@,
            out@ == old(out)@ + escape_with(chars@.take(i as int), escaping_fn(e)),
    {
        assert(chars@.take(i + 1).drop_last() =~= chars@.take(i as int));
        push_escaped_char(out, chars[i], e);
        assert(out@ =~= old(out)@ + escape_with(chars@.take(i + 1), escaping_fn(e)));
    }
    assert(chars@.take(n as int) =~= chars@);
}

/// `input` as one POSIX shell word: in single quotes, each quote written `'\''`.
pub fn posix_shell_quote(input: &str) -> (r: String)
    ensures
        r@ == posix_shell_quote_spec(input@),
{
    let mut r = String::new();
    r.push('\'');
    push_escaped(&mut r, input, Escaping::Posix);
    r.push('\'');
    assert(r@ =~= posix_shell_quote_spec(input@));
    r
}

/// `input` with each single quote doubled, for use between PowerShell single quotes.
pub fn powershell_quote(input: &str) -> (r: String)
    ensures
        r@ == powershell_quote_spec(input@),
{
    let mut r = String::new();
    push_escaped(&mut r, input, Escaping::PowerShell);
    assert(r@ =~= powershell_quote_spec(input@));
    r
}

/// `input` as one `cmd` word: in double quotes, `^ & | < >` escaped with `^`
/// and `%` doubled.
pub fn cmd_quote(input: &str) -> (r: String)
    ensures
        r@ == cmd_quote_spec(input@),
{
    let mut r = String::new();
    r.push('"');
    push_escaped(&mut r, input, Escaping::Cmd);
    r.push('"');
    assert(r@ =~= cmd_quote_spec(input@));
    r
}

// ---------------------------------------------------------------------------
// Capture commands.

/// Each argument as ` <quoted>`, for POSIX shells.
pub open spec fn posix_quoted_args(args: Seq<Seq<char>>) -> Seq<char>
    decreases args.len(),
{
    if args.len() == 0 {
        Seq::empty()
    } else {
        posix_quoted_args(args.drop_last()) + seq![' '] + posix_shell_quote_spec(args.last())
    }
}

/// Each argument as ` '<quoted>'`, for PowerShell.
pub open spec fn powershell_quoted_args(args: Seq<Seq<char>>) -> Seq<char>
    decreases args.len(),
{
    if args.len() == 0 {
        Seq::empty()
    } else {
        powershell_quoted_args(args.drop_last()) + seq![' ', '\''] + powershell_quote_spec(args.last())
            + seq!['\'']
    }
}

/// Each argument as ` <quoted>`, for `cmd`.
pub open spec fn cmd_quoted_args(args: Seq<Seq<char>>) -> Seq<char>
    decreases args.len(),
{
    if args.len() == 0 {
        Seq::empty()
    } else {
        cmd_quoted_args(args.drop_last()) + seq![' '] + cmd_quote_spec(args.last())
    }
}

/// The POSIX shell command that sources the script, stops on its failure,
/// prints the marker line and then the environment with `env -0`.
pub open spec fn posix_capture_command(script: Seq<char>, args: Seq<Seq<char>>) -> Seq<char> {
    ". "@ + posix_shell_quote_spec(script) + posix_quoted_args(args)
        + "; status=$?; if [ $status -ne 0 ]; then exit $status; fi; printf '%s\\n' '"@
        + snapshot_marker() + "'; env -0"@
}

/// The PowerShell command that runs the script, stops on its failure, prints
/// the marker line and then one `NAME=value` line per variable.
pub open spec fn powershell_capture_command(script: Seq<char>, args: Seq<Seq<char>>) -> Seq<char> {
    "& '"@ + powershell_quote_spec(script) + "'"@ + powershell_quoted_args(args)
        + "; if (-not $?) { if ($null -ne $LASTEXITCODE) { exit $LASTEXITCODE } else { exit 1 } }; Write-Output '"@
        + snapshot_marker()
        + "'; Get-ChildItem Env: | ForEach-Object { \"{0}={1}\" -f $_.Name, $_.Value }"@
}

/// The batch file that calls the script, stops on its failure, echoes the
/// marker line and then lists the environment with `set`.
pub open spec fn cmd_wrapper_text(script: Seq<char>, args: Seq<Seq<char>>) -> Seq<char> {
    "@echo off\r\ncall "@ + cmd_quote_spec(script) + cmd_quoted_args(args)
        + "\r\nif errorlevel 1 exit /b %errorlevel%\r\necho "@ + snapshot_marker()
        + "\r\nset\r\n"@
}

/// The PowerShell executable's name on the platform.
pub open spec fn powershell_program_spec(platform: Platform) -> Seq<char> {
    match platform {
        Platform::Windows => "powershell.exe"@,
        Platform::Unix => "powershell"@,
    }
}

/// The PowerShell executable's name on the platform.
pub fn powershell_program(platform: Platform) -> (p: &'static str)
    ensures
        p@ == powershell_program_spec(platform),
{
    match platform {
        Platform::Windows => "powershell.exe",
        Platform::Unix => "powershell",
    }
}

/// A process to run to capture a script's environment, and how its output is laid out.
#[derive(Debug)]
pub struct ScriptCaptureCommand {
    pub program: String,
    pub args: Vec<String>,
    pub format: SnapshotFormat,
}

fn append_str(out: &mut String, s: &str)
    ensures
        final(out)@ == old(out)@ + s@,
{
    let chars = chars_of(s);
    push_all(out, &chars);
}

/// The POSIX capture command for `script` with `args`.
fn build_posix_command(script: &str, args: &Vec<String>) -> (c: String)
    ensures
        c@ == posix_capture_command(script@, strings_view(args@)),
{
    let ghost sv = strings_view(args@);
    let mut c = String::new();
    append_str(&mut c, ". ");
    let quoted = posix_shell_quote(script);
    append_str(&mut c, quoted.as_str());
    let ghost head = c@;
    let n = args.len();
    for i in 0..n
        invariant
            n == args@.len(),
            sv == strings_view(args@),
            c@ == head + posix_quoted_args(sv.take(i as int)),
    {
        assert(sv.take(i + 1).drop_last() =~= sv.take(i as int));
        c.push(' ');
        let q = posix_shell_quote(args[i].as_str());
        append_str(&mut c, q.as_str());
        assert(c@ =~= head + posix_quoted_args(sv.take(i + 1)));
    }
    assert(sv.take(n as int) =~= sv);
    append_str(&mut c, "; status=$?; if [ $status -ne 0 ]; then exit $status; fi; printf '%s\\n' '");
    append_str(&mut c, SNAPSHOT_MARKER);
    append_str(&mut c, "'; env -0");
    assert(c@ =~= posix_capture_command(script@, sv));
    c
}

/// The PowerShell capture command for `script` with `args`.
fn build_powershell_command(script: &str, args: &Vec<String>) -> (c: String)
    ensures
        c@ == powershell_capture_command(script@, strings_view(args@)),
{
    let ghost sv = strings_view(args@);
    let mut c = String::new();
    append_str(&mut c, "& '");
    let quoted = powershell_quote(script);
    append_str(&mut c, quoted.as_str());
    append_str(&mut c, "'");
    let ghost head = c@;
    let n = args.len();
    for i in 0..n
        invariant
            n == args@.len(),
            sv == strings_view(args@),
            c@ == head + powershell_quoted_args(sv.take(i as int)),
    {
        assert(sv.take(i + 1).drop_last() =~= sv.take(i as int));
        c.push(' ');
        c.push('\'');
        let q = powershell_quote(args[i].as_str());
        append_str(&mut c, q.as_str());
        c.push('\'');
        assert(c@ =~= head + powershell_quoted_args(sv.take(i + 1)));
    }
    assert(sv.take(n as int) =~= sv);
    append_str(&mut c, "; if (-not $?) { if ($null -ne $LASTEXITCODE) { exit $LASTEXITCODE } else { exit 1 } }; Write-Output '");
    append_str(&mut c, SNAPSHOT_MARKER);
    append_str(&mut c, "'; Get-ChildItem Env: | ForEach-Object { \"{0}={1}\" -f $_.Name, $_.Value }");
    assert(c@ =~= powershell_capture_command(script@, sv));
    c
}

/// The contents of the batch file through which `cmd` runs `script` with `args`.
pub fn cmd_wrapper_script(script: &str, args: &Vec<String>) -> (c: String)
    ensures
        c@ == cmd_wrapper_text(script@, strings_view(args@)),
{
    let ghost sv = strings_view(args@);
    let mut c = String::new();
    append_str(&mut c, "@echo off\r\ncall ");
    let quoted = cmd_quote(script);
    append_str(&mut c, quoted.as_str());
    let ghost head = c@;
    let n = args.len();
    for i in 0..n
        invariant
            n == args@.len(),
            sv == strings_view(args@),
            c@ == head + cmd_quoted_args(sv.take(i as int)),
    {
        assert(sv.take(i + 1).drop_last() =~= sv.take(i as int));
        c.push(' ');
        let q = cmd_quote(args[i].as_str());
        append_str(&mut c, q.as_str());
        assert(c@ =~= head + cmd_quoted_args(sv.take(i + 1)));
    }
    assert(sv.take(n as int) =~= sv);
    append_str(&mut c, "\r\nif errorlevel 1 exit /b %errorlevel%\r\necho ");
    append_str(&mut c, SNAPSHOT_MARKER);
    append_str(&mut c, "\r\nset\r\n");
    assert(c@ =~= cmd_wrapper_text(script@, sv));
    c
}

/// The program that runs a script in a POSIX shell.
pub open spec fn posix_shell_program(shell: LocalEnvironmentScriptShell) -> Seq<char> {
    match shell {
        LocalEnvironmentScriptShell::Sh => "sh"@,
        LocalEnvironmentScriptShell::Bash => "bash"@,
        _ => "zsh"@,
    }
}

/// The capture command for a script run by `sh`, `bash`, `zsh` or PowerShell
/// (`cmd` scripts go through a batch file, see `cmd_capture_command`).
pub open spec fn capture_command_matches(
    c: &ScriptCaptureCommand,
    script: &LocalEnvironmentScriptConfig,
    platform: Platform,
) -> bool {
    if script.shell == LocalEnvironmentScriptShell::PowerShell {
        &&& c.program@ == powershell_program_spec(platform)
        &&& strings_view(c.args@) == seq![
            "-NoProfile"@,
            "-Command"@,
            powershell_capture_command(script.script@, strings_view(script.args@)),
        ]
        &&& c.format == SnapshotFormat::LineSeparated
    } else {
        &&& c.program@ == posix_shell_program(script.shell)
        &&& strings_view(c.args@) == seq!["-lc"@, posix_capture_command(script.script@, strings_view(script.args@))]
        &&& c.format == SnapshotFormat::NulSeparated
    }
}

/// The process that captures the environment a script leaves behind.
pub fn build_script_capture_command(script: &LocalEnvironmentScriptConfig, platform: Platform) -> (c: ScriptCaptureCommand)
    requires
        script.shell != LocalEnvironmentScriptShell::Cmd,
    ensures
        capture_command_matches(&c, script, platform),
{
    match script.shell {
        LocalEnvironmentScriptShell::PowerShell => {
            let command = build_powershell_command(script.script.as_str(), &script.args);
            let args = vec!["-NoProfile".to_owned(), "-Command".to_owned(), command];
            assert(strings_view(args@) =~= seq![
                "-NoProfile"@,
                "-Command"@,
                powershell_capture_command(script.script@, strings_view(script.args@)),
            ]);
            ScriptCaptureCommand {
                program: powershell_program(platform).to_owned(),
                args,
                format: SnapshotFormat::LineSeparated,
            }
        },
        _ => {
            let shell_program: &str = match script.shell {
                LocalEnvironmentScriptShell::Sh => "sh",
                LocalEnvironmentScriptShell::Bash => "bash",
                _ => "zsh",
            };
            let command = build_posix_command(script.script.as_str(), &script.args);
            let args = vec!["-lc".to_owned(), command];
            assert(strings_view(args@) =~= seq!["-lc"@, posix_capture_command(script.script@, strings_view(script.args@))]);
            ScriptCaptureCommand {
                program: shell_program.to_owned(),
                args,
                format: SnapshotFormat::NulSeparated,
            }
        },
    }
}

/// The process that runs the batch file at `wrapper_path` under `cmd`.
pub fn cmd_capture_command(wrapper_path: &str) -> (c: ScriptCaptureCommand)
    ensures
        c.program@ == "cmd.exe"@,
        strings_view(c.args@) == seq!["/d"@, "/c"@, wrapper_path@],
        c.format == SnapshotFormat::LineSeparated,
{
    let args = vec!["/d".to_owned(), "/c".to_owned(), wrapper_path.to_owned()];
    assert(strings_view(args@) =~= seq!["/d"@, "/c"@, wrapper_path@]);
    ScriptCaptureCommand { program: "cmd.exe".to_owned(), args, format: SnapshotFormat::LineSeparated }
}

// ---------------------------------------------------------------------------
// Reading the captured output.

/// Why a script's environment could not be captured.
#[derive(Debug)]
pub enum CaptureError {
    /// The script failed; the message says how.
    ScriptFailed(String),
    /// The output could not be read.
    Snapshot(SnapshotError),
}

/// Whether `c` has the Unicode `White_Space` property.
pub open spec fn is_unicode_white_space(c: char) -> bool {
    let n = c as u32;
    ||| 0x09 <= n <= 0x0d
    ||| n == 0x20
    ||| n == 0x85
    ||| n == 0xa0
    ||| n == 0x1680
    ||| 0x2000 <= n <= 0x200a
    ||| n == 0x2028
    ||| n == 0x2029
    ||| n == 0x202f
    ||| n == 0x205f
    ||| n == 0x3000
}

/// `s` without its leading white space.
pub open spec fn trim_start_spec(s: Seq<char>) -> Seq<char>
    decreases s.len(),
{
    if s.len() > 0 && is_unicode_white_space(s[0]) {
        trim_start_spec(s.drop_first())
    } else {
        s
    }
}

/// `s` without its trailing white space.
pub open spec fn trim_end_spec(s: Seq<char>) -> Seq<char>
    decreases s.len(),
{
    if s.len() > 0 && is_unicode_white_space(s.last()) {
        trim_end_spec(s.drop_last())
    } else {
        s
    }
}

/// `s` without its leading and trailing white space.
pub open spec fn trimmed(s: Seq<char>) -> Seq<char> {
    trim_end_spec(trim_start_spec(s))
}

/// Whether `c` has the Unicode `White_Space` property.
fn is_white_space(c: char) -> (r: bool)
    ensures
        r == is_unicode_white_space(c),
{
    let n: u32 = c as u32;
    (0x09 <= n && n <= 0x0d) || n == 0x20 || n == 0x85 || n == 0xa0 || n == 0x1680 || (0x2000 <= n
        && n <= 0x200a) || n == 0x2028 || n == 0x2029 || n == 0x202f || n == 0x205f || n == 0x3000
}

/// `s` without its leading and trailing white space, as `str::trim` gives it.
fn trim_whitespace(s: &str) -> (r: String)
    ensures
        r@ == trimmed(s@),
{
    let chars = chars_of(s);
    let n = chars.len();
    let mut start: usize = 0;
    assert(chars@.subrange(0, n as int) =~= chars@);
    while start < n && is_white_space(chars[start])
        invariant
            start <= n,
            n == chars@.len(),
            chars@ == s@,
            trim_start_spec(s@) == trim_start_spec(chars@.subrange(start as int, n as int)),
        decreases n - start,
    {
        assert(chars@.subrange(start as int, n as int).drop_first() =~= chars@.subrange(
            start + 1,
            n as int,
        ));
        start = start + 1;
    }
    assert(trim_start_spec(s@) == chars@.subrange(start as int, n as int));
    let mut end: usize = n;
    while end > start && is_white_space(chars[end - 1])
        invariant
            start <= end <= n,
            n == chars@.len(),
            trim_end_spec(chars@.subrange(start as int, n as int)) == trim_end_spec(
                chars@.subrange(start as int, end as int),
            ),
        decreases end,
    {
        assert(chars@.subrange(start as int, end as int).drop_last() =~= chars@.subrange(
            start as int,
            end - 1,
        ));
        end = end - 1;
    }
    string_of_range(&chars, start, end)
}

/// The message for a script that exited with a failure status: the script,
/// the status, and what it wrote to stderr when that is not blank.
pub open spec fn script_failure_message_spec(script: Seq<char>, status: Seq<char>, stderr: Seq<u8>) -> Seq<char> {
    let err = trimmed(utf8_lossy_decoded(stderr));
    let base = "local environment script `"@ + script + "` exited with status "@ + status;
    if err.len() == 0 {
        base
    } else {
        base + ": "@ + err
    }
}

/// The message for a script that exited with a failure status.
pub fn script_failure_message(script: &str, status: &str, stderr: &[u8]) -> (m: String)
    ensures
        m@ == script_failure_message_spec(script@, status@, stderr@),
        valid_utf8(stderr@) ==> utf8_lossy_decoded(stderr@) == decode_utf8(stderr@),
{
    let err = trim_whitespace(string_from_utf8_lossy(stderr).as_str());
    let mut m = String::new();
    append_str(&mut m, "local environment script `");
    append_str(&mut m, script);
    append_str(&mut m, "` exited with status ");
    append_str(&mut m, status);
    if !err.as_str().is_empty() {
        append_str(&mut m, ": ");
        append_str(&mut m, err.as_str());
    }
    m
}

/// The message for a script that could not be started.
pub fn script_spawn_failure_message(script: &str) -> (m: String)
    ensures
        m@ == "failed to run local environment script `"@ + script@ + "`"@,
{
    let mut m = String::new();
    append_str(&mut m, "failed to run local environment script `");
    append_str(&mut m, script);
    append_str(&mut m, "`");
    m
}

/// What a finished capture process gives: a failure message when it did not
/// succeed, otherwise the environment read from its output in `format`.
pub fn interpret_capture_output(
    script: &str,
    success: bool,
    status: &str,
    stdout: &[u8],
    stderr: &[u8],
    format: SnapshotFormat,
) -> (r: Result<EnvMap, CaptureError>)
    ensures
        !success ==> (r matches Err(CaptureError::ScriptFailed(m)) && m@ == script_failure_message_spec(
            script@,
            status@,
            stderr@,
        )),
        success ==> match r {
            Ok(env) => parse_snapshot_spec(stdout@, format) == Ok::<EnvSeq, SnapshotError>(env@),
            Err(CaptureError::Snapshot(e)) => parse_snapshot_spec(stdout@, format) == Err::<EnvSeq, SnapshotError>(e),
            Err(CaptureError::ScriptFailed(_)) => false,
        },
        !success && valid_utf8(stderr@) ==> utf8_lossy_decoded(stderr@) == decode_utf8(stderr@),
        success && format is LineSeparated && valid_utf8(stdout@) ==> utf8_lossy_decoded(stdout@)
            == decode_utf8(stdout@),
{
    if !success {
        return Err(CaptureError::ScriptFailed(script_failure_message(script, status, stderr)));
    }
    match parse_environment_snapshot(stdout, format) {
        Ok(env) => Ok(env),
        Err(e) => Err(CaptureError::Snapshot(e)),
    }
}

} // verus!
