//! The shell-exec safety guard and the rendering of command output. The
//! guard decides from the command text alone; running the command happens
//! outside.
use crate::discover::strings_view;
use crate::source::opt_str_view;
use crate::strutil::{
    dec_seq, join_seq, join_strings, lower_of, lowercase, str_chars, subrange_vec, trim_seq,
    trim_str, u64_to_dec, chars_to_string,
};
use vstd::prelude::*;
use vstd::seq_lib::*;

verus! {

/// Whether the pattern, compiled as a regular expression, matches the
/// text; a pattern that does not compile matches nothing. The result
/// depends on the two texts alone.
pub uninterp spec fn regex_match(pattern: Seq<char>, text: Seq<char>) -> bool;

/// Relies on `regex::Regex::new` and `regex::Regex::is_match`: whether the
/// pattern matches the text.
#[verifier::external_body]
fn pattern_matches(pattern: &str, text: &str) -> (r: bool)
    ensures
        r == regex_match(pattern@, text@),
{
    match regex::Regex::new(pattern) {
        Ok(re) => re.is_match(text),
        Err(_) => false,
    }
}

/// The command guard: deny patterns that block a command, and an optional
/// allowlist that everything else must match.
pub struct ShellGuard {
    pub deny: Vec<String>,
    pub allow: Vec<String>,
}

/// What the guard decides for a command: blocked when any deny pattern
/// matches its lowercased text; blocked when an allowlist exists and
/// nothing on it matches; else allowed.
pub open spec fn spec_guard_check(
    deny: Seq<Seq<char>>,
    allow: Seq<Seq<char>>,
    cmd: Seq<char>,
) -> Result<(), Seq<char>> {
    let lower = lower_of(cmd);
    if exists|i: int| 0 <= i < deny.len() && regex_match(#[trigger] deny[i], lower) {
        Err("blocked by safety guard (dangerous pattern detected)"@)
    } else if allow.len() > 0 && !(exists|i: int|
        0 <= i < allow.len() && regex_match(#[trigger] allow[i], lower)) {
        Err("blocked by safety guard (not in allowlist)"@)
    } else {
        Ok(())
    }
}

impl ShellGuard {
    /// The default guard: deny patterns for recursive deletion, disk
    /// formatting, raw device writes, power commands, destructive finds,
    /// piping downloads into a shell, mode-777 on system paths and fork
    /// bombs; no allowlist.
    pub fn new() -> (r: ShellGuard)
        ensures
            r.deny@.len() == 15,
            r.allow@.len() == 0,
    {
        let mut deny: Vec<String> = Vec::new();
        deny.push(String::from_str("\\brm\\s+-[rf]{1,2}\\b"));
        deny.push(String::from_str("\\brm\\s+--recursive\\b"));
        deny.push(String::from_str("\\brm\\s+--force\\b"));
        deny.push(String::from_str("\\bdel\\s+/[fq]\\b"));
        deny.push(String::from_str("\\brmdir\\s+/s\\b"));
        deny.push(String::from_str("\\b(format|mkfs|diskpart)\\b"));
        deny.push(String::from_str("\\bdd\\s+if="));
        deny.push(String::from_str("\\bdd\\b.*\\bof=/dev/"));
        deny.push(String::from_str(">\\s*/dev/(sd|hd|nvme|vd)"));
        deny.push(String::from_str("\\b(shutdown|reboot|poweroff)\\b"));
        deny.push(String::from_str("\\bfind\\b.*\\s-delete\\b"));
        deny.push(String::from_str("\\bfind\\b.*-exec\\s+rm\\b"));
        deny.push(String::from_str("\\b(curl|wget)\\b[^|]*\\|\\s*(sudo\\s+)?(sh|bash|zsh)\\b"));
        deny.push(String::from_str("\\bchmod\\s+(-[a-zA-Z]*\\s+)*777\\s+/"));
        deny.push(String::from_str(":\\(\\)\\s*\\{"));
        ShellGuard { deny, allow: Vec::new() }
    }

    /// Decides whether a command may run.
    #[verifier::loop_isolation(false)]
    pub fn check(&self, cmd: &str) -> (r: Result<(), String>)
        ensures
            match r {
                Ok(()) => spec_guard_check(
                    strings_view(self.deny@),
                    strings_view(self.allow@),
                    cmd@,
                ) is Ok,
                Err(e) => spec_guard_check(
                    strings_view(self.deny@),
                    strings_view(self.allow@),
                    cmd@,
                ) == Err::<(), Seq<char>>(e@),
            },
    {
        let ghost gdeny = strings_view(self.deny@);
        let ghost gallow = strings_view(self.allow@);
        let lower = lowercase(cmd);
        let mut i: usize = 0;
        while i < self.deny.len()
            invariant
                i <= gdeny.len(),
                gdeny.len() == self.deny@.len(),
                lower@ == lower_of(cmd@),
                forall|k: int| 0 <= k < i ==> !regex_match(#[trigger] gdeny[k], lower_of(cmd@)),
            decreases gdeny.len() - i,
        {
            proof {
                assert(gdeny[i as int] == self.deny@[i as int]@);
            }
            if pattern_matches(self.deny[i].as_str(), lower.as_str()) {
                return Err(
                    String::from_str("blocked by safety guard (dangerous pattern detected)"),
                );
            }
            i = i + 1;
        }
        proof {
            if exists|k: int|
                0 <= k < gdeny.len() && regex_match(#[trigger] gdeny[k], lower_of(cmd@)) {
                let k = choose|k: int|
                    0 <= k < gdeny.len() && regex_match(#[trigger] gdeny[k], lower_of(cmd@));
                assert(!regex_match(gdeny[k], lower_of(cmd@)));
            }
        }
        if self.allow.len() > 0 {
            let mut j: usize = 0;
            while j < self.allow.len()
                invariant
                    j <= gallow.len(),
                    gallow.len() == self.allow@.len(),
                    lower@ == lower_of(cmd@),
                    forall|k: int|
                        0 <= k < j ==> !regex_match(#[trigger] gallow[k], lower_of(cmd@)),
                decreases gallow.len() - j,
            {
                proof {
                    assert(gallow[j as int] == self.allow@[j as int]@);
                }
                if pattern_matches(self.allow[j].as_str(), lower.as_str()) {
                    return Ok(());
                }
                j = j + 1;
            }
            proof {
                if exists|k: int|
                    0 <= k < gallow.len() && regex_match(#[trigger] gallow[k], lower_of(cmd@)) {
                    let k = choose|k: int|
                        0 <= k < gallow.len() && regex_match(
                            #[trigger] gallow[k],
                            lower_of(cmd@),
                        );
                    assert(!regex_match(gallow[k], lower_of(cmd@)));
                }
            }
            return Err(String::from_str("blocked by safety guard (not in allowlist)"));
        }
        Ok(())
    }
}

/// The command execution tool: its guard, its timeout, and the working
/// directory rules.
pub struct ExecTool {
    pub guard: ShellGuard,
    pub timeout_secs: u64,
    pub working_dir: String,
    pub allowed_dir: Option<String>,
}

impl ExecTool {
    /// An execution tool with the default guard.
    pub fn new(timeout_secs: u64, working_dir: String, allowed_dir: Option<String>) -> (r:
        ExecTool)
        ensures
            r.timeout_secs == timeout_secs,
            r.working_dir@ == working_dir@,
            opt_str_view(r.allowed_dir) == opt_str_view(allowed_dir),
            r.guard.deny@.len() == 15,
            r.guard.allow@.len() == 0,
    {
        ExecTool { guard: ShellGuard::new(), timeout_secs, working_dir, allowed_dir }
    }
}

/// The arguments of the execution tool.
pub struct ExecArgs {
    pub command: String,
    pub working_dir: Option<String>,
}

/// A possibly negative number rendered in decimal.
pub open spec fn dec_int_seq(n: int) -> Seq<char> {
    if n < 0 {
        seq!['-'] + dec_seq((-n) as nat)
    } else {
        dec_seq(n as nat)
    }
}

/// Renders a signed exit code.
pub fn i64_to_dec(n: i64) -> (r: String)
    ensures
        r@ == dec_int_seq(n as int),
{
    if n < 0 {
        let mut s = String::from_str("-");
        let mag: u64 = if n == i64::MIN {
            9223372036854775808u64
        } else {
            (-n) as u64
        };
        proof {
            assert(mag as nat == (-(n as int)) as nat);
        }
        s.append(u64_to_dec(mag).as_str());
        proof {
            reveal_strlit("-");
            assert(s@ =~= seq!['-'] + dec_seq((-(n as int)) as nat));
        }
        s
    } else {
        u64_to_dec(n as u64)
    }
}

/// What the rendered command output holds: the stdout when any, the
/// stderr under its banner when not blank, the exit code line on failure;
/// a placeholder when all are empty; the whole capped at ten thousand
/// characters with a truncation note.
pub open spec fn spec_exec_output(
    stdout: Seq<char>,
    stderr: Seq<char>,
    success: bool,
    exit_code: int,
) -> Seq<char> {
    let parts0: Seq<Seq<char>> = if stdout.len() > 0 {
        seq![stdout]
    } else {
        Seq::empty()
    };
    let parts1: Seq<Seq<char>> = parts0 + (if stderr.len() > 0 && trim_seq(stderr).len() > 0 {
        seq!["STDERR:\n"@ + stderr]
    } else {
        Seq::empty()
    });
    let parts2: Seq<Seq<char>> = parts1 + (if !success {
        seq!["\nExit code: "@ + dec_int_seq(exit_code)]
    } else {
        Seq::empty()
    });
    let joined = if parts2.len() == 0 {
        "(no output)"@
    } else {
        join_seq(parts2, seq!['\n'])
    };
    if joined.len() > 10000 {
        joined.take(10000) + "\n... (truncated, "@ + dec_seq((joined.len() - 10000) as nat)
            + " more chars)"@
    } else {
        joined
    }
}

/// Renders a finished command's output for the caller.
#[verifier::loop_isolation(false)]
pub fn format_exec_output(stdout: &str, stderr: &str, success: bool, exit_code: i64) -> (r:
    String)
    ensures
        r@ == spec_exec_output(stdout@, stderr@, success, exit_code as int),
{
    let mut parts: Vec<String> = Vec::new();
    if stdout.unicode_len() > 0 {
        parts.push(String::from_str(stdout));
    }
    let ghost p0 = strings_view(parts@);
    if stderr.unicode_len() > 0 && trim_str(stderr).as_str().unicode_len() > 0 {
        let mut se = String::from_str("STDERR:\n");
        se.append(stderr);
        parts.push(se);
    }
    let ghost p1 = strings_view(parts@);
    if !success {
        let mut ec = String::from_str("\nExit code: ");
        ec.append(i64_to_dec(exit_code).as_str());
        parts.push(ec);
    }
    proof {
        let sparts0: Seq<Seq<char>> = if stdout@.len() > 0 {
            seq![stdout@]
        } else {
            Seq::<Seq<char>>::empty()
        };
        let sparts1: Seq<Seq<char>> = sparts0 + (if stderr@.len() > 0 && trim_seq(
            stderr@,
        ).len() > 0 {
            seq!["STDERR:\n"@ + stderr@]
        } else {
            Seq::<Seq<char>>::empty()
        });
        let sparts2: Seq<Seq<char>> = sparts1 + (if !success {
            seq!["\nExit code: "@ + dec_int_seq(exit_code as int)]
        } else {
            Seq::<Seq<char>>::empty()
        });
        assert(p0 =~= sparts0);
        assert(p1 =~= sparts1);
        assert(strings_view(parts@) =~= sparts2);
    }
    let joined = if parts.len() == 0 {
        String::from_str("(no output)")
    } else {
        let sep = chars_to_string(&['\n']);
        proof {
            assert(sep@ =~= seq!['\n']);
        }
        join_strings(&parts, sep.as_str())
    };
    let jc = str_chars(joined.as_str());
    if jc.len() > 10000 {
        let mut out = subrange_vec(jc.as_slice(), 0, 10000);
        proof {
            assert(out@ =~= joined@.take(10000));
        }
        let mut marker = str_chars("\n... (truncated, ");
        out.append(&mut marker);
        let mut extra = str_chars(u64_to_dec((jc.len() - 10000) as u64).as_str());
        out.append(&mut extra);
        let mut tail = str_chars(" more chars)");
        out.append(&mut tail);
        chars_to_string(out.as_slice())
    } else {
        joined
    }
}

/// The reply of a command that outlived its timeout.
pub fn exec_timeout_message(timeout_secs: u64) -> (r: String)
    ensures
        r@ == "Error: Command timed out after "@ + dec_seq(timeout_secs as nat)
            + " seconds"@,
{
    let mut m = String::from_str("Error: Command timed out after ");
    m.append(u64_to_dec(timeout_secs).as_str());
    m.append(" seconds");
    m
}

} // verus!
