//! Guards applied to what scripts ask of the host: where a download may be
//! written, which programs may be run, and whether a script compiles.
use vstd::prelude::*;
use crate::text::{chars_of, concat, is_prefix, str_eq, str_starts_with, views};

verus! {

/// Position `i` of `s` starts a path segment that is exactly `..`.
pub open spec fn parent_segment_at(s: Seq<char>, i: int) -> bool {
    &&& 0 <= i && i + 2 <= s.len()
    &&& s[i] == '.' && s[i + 1] == '.'
    &&& (i == 0 || s[i - 1] == '/')
    &&& (i + 2 == s.len() || s[i + 2] == '/')
}

/// Some `/`-separated segment of `s` is `..` (a parent-directory component).
pub open spec fn has_parent_segment(s: Seq<char>) -> bool {
    exists|i: int| parent_segment_at(s, i)
}

/// `s` is an absolute path: it begins at the root `/`.
pub open spec fn is_absolute_path(s: Seq<char>) -> bool {
    s.len() > 0 && s[0] == '/'
}

/// A path that neither climbs out through `..` nor starts at the root.
pub open spec fn safe_path(s: Seq<char>) -> bool {
    !is_absolute_path(s) && !has_parent_segment(s)
}

/// Whether some segment of the path `s` is `..`.
pub fn contains_parent_segment(s: &str) -> (b: bool)
    ensures
        b == has_parent_segment(s@),
{
    let cs = chars_of(s);
    let n = cs.len();
    let mut i: usize = 0;
    while i < n
        invariant
            n == cs@.len(),
            cs@ == s@,
            i <= n,
            forall|j: int| 0 <= j < i ==> !parent_segment_at(s@, j),
        decreases n - i,
    {
        if n - i >= 2 && cs[i] == '.' && cs[i + 1] == '.' && (i == 0 || cs[i - 1] == '/') && (i
            + 2 == n || cs[i + 2] == '/') {
            assert(parent_segment_at(s@, i as int));
            return true;
        }
        i = i + 1;
    }
    assert forall|j: int| !parent_segment_at(s@, j) by {
        if 0 <= j && j < n {
        }
    }
    false
}

/// Whether a script may write to `path_str`: no `..` segment and not absolute.
pub fn is_safe_path(path_str: &str) -> (b: bool)
    ensures
        b == safe_path(path_str@),
{
    let cs = chars_of(path_str);
    if cs.len() > 0 && cs[0] == '/' {
        return false;
    }
    !contains_parent_segment(path_str)
}

/// A URL whose scheme a script may download from.
pub open spec fn web_url(url: Seq<char>) -> bool {
    is_prefix("http://"@, url) || is_prefix("https://"@, url)
}

/// Whether a script's `download_file(url, output_path)` is let through to the
/// downloader: the target must be a safe path and the URL plain HTTP(S).
pub fn download_allowed(url: &str, output_path: &str) -> (b: bool)
    ensures
        b == (safe_path(output_path@) && web_url(url@)),
{
    if !is_safe_path(output_path) {
        return false;
    }
    str_starts_with(url, "http://") || str_starts_with(url, "https://")
}

/// What a script's `shell_execute` call hands back.
pub struct ShellOutcome {
    pub code: i64,
    pub stdout: String,
    pub stderr: String,
}

/// The programs that scripts may run.
pub open spec fn allowed_command(cmd: Seq<char>) -> bool {
    cmd == "yt-dlp"@ || cmd == "ffmpeg"@ || cmd == "ffprobe"@
}

/// An argument that would make `yt-dlp` run a command of its own.
pub open spec fn exec_flag(arg: Seq<char>) -> bool {
    is_prefix("--exec"@, arg)
}

/// Index `i` holds the first `--exec` argument of `args`.
pub open spec fn first_exec_flag(args: Seq<String>, i: int) -> bool {
    &&& 0 <= i < args.len()
    &&& exec_flag(args[i]@)
    &&& forall|j: int| 0 <= j < i ==> !exec_flag(#[trigger] args[j]@)
}

/// The refusal that a script gets instead of a run: exit code -1, nothing on
/// standard output, the reason on standard error.
pub open spec fn refusal(o: ShellOutcome, reason: Seq<char>) -> bool {
    o.code == -1 && o.stdout@.len() == 0 && o.stderr@ == reason
}

/// Decides whether `shell_execute(cmd, args)` may run. `None` lets it run;
/// `Some` is the outcome handed back in its place.
pub fn shell_guard(cmd: &str, args: &[String]) -> (r: Option<ShellOutcome>)
    ensures
        r is None <==> allowed_command(cmd@) && (cmd@ == "yt-dlp"@ ==> forall|i: int|
            0 <= i < args@.len() ==> !exec_flag(#[trigger] args@[i]@)),
        !allowed_command(cmd@) ==> (r matches Some(o) && refusal(
            o,
            "Security Alert: Command not allowed: "@ + cmd@,
        )),
        allowed_command(cmd@) && r is Some ==> cmd@ == "yt-dlp"@ && exists|i: int|
            first_exec_flag(args@, i) && refusal(
                r->0,
                "Security Alert: Argument not allowed for yt-dlp: "@ + args@[i]@,
            ),
{
    let is_ytdlp = str_eq(cmd, "yt-dlp");
    let allowed = is_ytdlp || str_eq(cmd, "ffmpeg") || str_eq(cmd, "ffprobe");
    if !allowed {
        let msg = concat("Security Alert: Command not allowed: ", cmd);
        return Some(ShellOutcome { code: -1, stdout: String::new(), stderr: msg });
    }
    if is_ytdlp {
        let mut i: usize = 0;
        while i < args.len()
            invariant
                i <= args@.len(),
                cmd@ == "yt-dlp"@,
                forall|j: int| 0 <= j < i ==> !exec_flag(#[trigger] args@[j]@),
            decreases args@.len() - i,
        {
            if str_starts_with(args[i].as_str(), "--exec") {
                let msg = concat(
                    "Security Alert: Argument not allowed for yt-dlp: ",
                    args[i].as_str(),
                );
                assert(first_exec_flag(args@, i as int));
                return Some(ShellOutcome { code: -1, stdout: String::new(), stderr: msg });
            }
            i = i + 1;
        }
    }
    None
}

/// The message of the error that `rhai::Engine::compile` reports for `script`
/// on a fresh engine, or `None` where the script compiles.
pub uninterp spec fn rhai_compile_error(script: Seq<char>) -> Option<Seq<char>>;

/// Compiles `script` with `rhai::Engine::compile` and hands back the error's
/// message, if any. Registering host functions does not change what compiles,
/// so a fresh engine is used.
#[verifier::external_body]
fn compile_outcome(script: &str) -> (r: Option<String>)
    ensures
        r is None <==> rhai_compile_error(script@) is None,
        r is Some ==> rhai_compile_error(script@) == Some(r->0@),
{
    match rhai::Engine::new().compile(script) {
        Ok(_) => None,
        Err(e) => Some(e.to_string()),
    }
}

/// The list of problems reported for a compile outcome.
pub open spec fn compile_problems(outcome: Option<Seq<char>>) -> Seq<Seq<char>> {
    match outcome {
        None => seq![],
        Some(m) => seq!["Compilation error: "@ + m],
    }
}

/// Turns a compile outcome (`None` for success, else the error's message)
/// into the list of problems shown to an editor of the script.
pub fn compile_report(outcome: Option<String>) -> (r: Vec<String>)
    ensures
        views(r@) == compile_problems(
            match outcome {
                None => None,
                Some(m) => Some(m@),
            },
        ),
{
    match outcome {
        None => {
            let v: Vec<String> = Vec::new();
            assert(views(v@) =~= seq![]);
            v
        },
        Some(m) => {
            let line = concat("Compilation error: ", m.as_str());
            let mut v: Vec<String> = Vec::new();
            v.push(line);
            assert(views(v@) =~= seq!["Compilation error: "@ + m@]);
            v
        },
    }
}

/// Checks that a script compiles; the problems found, none when it does.
/// The script's type selects host functions, which do not affect compiling.
pub fn validate_script(script_content: &str, script_type: &str) -> (r: Vec<String>)
    ensures
        views(r@) == compile_problems(rhai_compile_error(script_content@)),
{
    let outcome = compile_outcome(script_content);
    compile_report(outcome)
}

/// Where a node writes a script's download: `~/` at the front stands for the
/// home directory when one is known.
pub open spec fn expanded_target(output: Seq<char>, home: Option<Seq<char>>) -> Seq<char> {
    if is_prefix("~/"@, output) && home is Some {
        home->0 + output.skip(1)
    } else {
        output
    }
}

/// A node's check of a script's download target. A path with a `..` segment
/// is refused with the alert that the script gets back; otherwise the target
/// with `~/` expanded against `home`.
pub fn node_download_target(output: &str, home: Option<String>) -> (r: Result<String, String>)
    ensures
        has_parent_segment(output@) <==> r is Err,
        r matches Err(e) ==> e@
            == "Security Alert: Script attempted to download file to unsafe path: "@ + output@,
        r matches Ok(t) ==> t@ == expanded_target(
            output@,
            match home {
                None => None,
                Some(h) => Some(h@),
            },
        ),
{
    if contains_parent_segment(output) {
        return Err(concat("Security Alert: Script attempted to download file to unsafe path: ", output));
    }
    if str_starts_with(output, "~/") {
        match home {
            Some(h) => {
                let cs = chars_of(output);
                let mut out: Vec<char> = chars_of(h.as_str());
                let mut i: usize = 1;
                proof {
                    reveal_strlit("~/");
                }
                assert(cs@.subrange(1, 1) =~= Seq::<char>::empty());
                while i < cs.len()
                    invariant
                        1 <= i <= cs@.len(),
                        cs@ == output@,
                        out@ == h@ + cs@.subrange(1, i as int),
                    decreases cs@.len() - i,
                {
                    out.push(cs[i]);
                    i = i + 1;
                    assert(out@ == h@ + cs@.subrange(1, i as int));
                }
                assert(cs@.subrange(1, cs@.len() as int) == output@.skip(1));
                return Ok(crate::text::string_from(out.as_slice()));
            },
            None => {},
        }
    }
    let cs = chars_of(output);
    let r = crate::text::string_from(cs.as_slice());
    Ok(r)
}

} // verus!
