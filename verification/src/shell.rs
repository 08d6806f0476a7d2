//! The restricted shell behind the codecs.
//!
//! The shell is the authority on quoting, so this crate never interprets
//! Bash syntax itself: it writes a script, hands it to a [`ShellOracle`],
//! and parses what comes back. The oracle is the one unverified boundary;
//! everything on this side of it — the script bytes, the acceptance check
//! on the reply, and the probe for the sentinel variable — is exact.

use vstd::prelude::*;

use crate::errors::Error;
use crate::strings::{ascii_bytes, lit_bytes, push_all, split_at_byte};
use crate::utf8::valid_utf8_seq;

verus! {

/// What one run of the shell produced: the exit code when the process
/// exited normally, and the captured output streams.
pub struct ShellReply {
    /// Exit code, or `None` when the process was ended by a signal.
    pub code: Option<i32>,
    /// Captured standard output.
    pub stdout: Vec<u8>,
    /// Captured standard error.
    pub stderr: Vec<u8>,
}

/// The capability to run a script in a restricted, environment-cleared,
/// non-interactive shell, and to stash bytes in a private file for such a
/// script to read.
///
/// An implementation is expected to feed `script` verbatim to the standard
/// input of a fresh `bash -r` process with a cleared environment and `dir`
/// as its working directory, and to report the exit status and both output
/// streams without editing them. Nothing here is verified: every caller in
/// this crate states only what holds of its own handling of the reply,
/// whatever the reply is.
pub trait ShellOracle {
    /// Run `script` in a fresh restricted shell at `dir`; `Err` carries a
    /// description of why the shell could not be run at all.
    fn run_script(&mut self, dir: &[u8], script: &[u8]) -> Result<ShellReply, Vec<u8>>;

    /// Write `data` to a fresh private file; returns the directory and the
    /// file name under it, or a description of the failure.
    fn stash_bytes(&mut self, data: &[u8]) -> Result<(Vec<u8>, Vec<u8>), Vec<u8>>;
}

/// The exact bytes piped to the shell for `commands`: abort on the first
/// failing command, run `commands`, exit.
pub open spec fn shell_script_spec(commands: Seq<u8>) -> Seq<u8> {
    ascii_bytes("set -o errexit\n"@) + commands + ascii_bytes("\nexit\n"@)
}

/// `commands` followed by the probe that prints every assignment of the
/// sentinel variable `OUTPUT` that survived the script.
pub open spec fn with_probe_spec(commands: Seq<u8>) -> Seq<u8> {
    commands + ascii_bytes("\ndeclare | grep -E '^OUTPUT=' || true"@)
}

/// Whether `e` reports a failed command with exactly these parts.
pub open spec fn is_failed_error(e: Error, name: Seq<u8>, code: Option<i32>, stderr: Seq<u8>) -> bool {
    match e {
        Error::Failed { name: n, code: c, stderr: s } => n@ == name && c == code && s@ == stderr,
        _ => false,
    }
}

/// Whether `e` reports the shell being unavailable or a command failing:
/// the only errors that running a script can produce.
pub open spec fn is_run_error(e: Error) -> bool {
    match e {
        Error::Shell { .. } => true,
        Error::Failed { .. } => true,
        _ => false,
    }
}

/// Whether `e` is an error that running a script and decoding what it
/// printed can produce: everything but the errors of the sentinel probe
/// and the missing `PRESETS` variable.
pub open spec fn is_parse_error(e: Error) -> bool {
    is_run_error(e) || match e {
        Error::NotUtf8 => true,
        Error::MissingAssignment { .. } => true,
        Error::InvalidArraySource { .. } => true,
        Error::InvalidIndex { .. } => true,
        Error::Context { .. } => true,
        _ => false,
    }
}

/// Whether `e` is an error that probing for the sentinel can produce.
pub open spec fn is_probe_error(e: Error) -> bool {
    is_run_error(e) || match e {
        Error::NotUtf8 => true,
        Error::MissingOutput => true,
        Error::MultipleOutput => true,
        _ => false,
    }
}

/// Accept a reply when its command exited with code zero, handing back its
/// standard output; report any other reply as a failure of `name`, in one
/// of four shapes depending on the exit code and the standard error.
pub fn check(name: &[u8], reply: ShellReply) -> (r: Result<Vec<u8>, Error>)
    ensures
        match r {
            Ok(out) => reply.code == Some(0i32) && out@ == reply.stdout@,
            Err(e) => reply.code != Some(0i32) && is_failed_error(
                e,
                name@,
                reply.code,
                reply.stderr@,
            ),
        },
{
    let ok = match reply.code {
        Some(c) => c == 0,
        None => false,
    };
    if ok {
        Ok(reply.stdout)
    } else {
        Err(
            Error::Failed {
                name: vstd::slice::slice_to_vec(name),
                code: reply.code,
                stderr: reply.stderr,
            },
        )
    }
}

/// The exact bytes of the script for `commands`.
pub fn shell_script(commands: &[u8]) -> (r: Vec<u8>)
    ensures
        r@ == shell_script_spec(commands@),
{
    proof {
        reveal_strlit("set -o errexit\n");
        assert(vstd::string::is_ascii("set -o errexit\n"));
        reveal_strlit("\nexit\n");
        assert(vstd::string::is_ascii("\nexit\n"));
    }
    let mut out = lit_bytes("set -o errexit\n");
    push_all(&mut out, commands);
    let tail = lit_bytes("\nexit\n");
    push_all(&mut out, tail.as_slice());
    out
}

/// Run `commands` in a restricted shell at `dir` and hand back its standard
/// output; what the shell makes of them is the oracle's to decide.
pub fn rbash_at<O: ShellOracle>(oracle: &mut O, commands: &[u8], dir: &[u8]) -> (r: Result<
    Vec<u8>,
    Error,
>)
    ensures
        r is Err ==> is_run_error(r->Err_0),
{
    let script = shell_script(commands);
    match oracle.run_script(dir, script.as_slice()) {
        Err(detail) => Err(Error::Shell { detail }),
        Ok(reply) => {
            proof {
                reveal_strlit("bash script");
                assert(vstd::string::is_ascii("bash script"));
            }
            let name = lit_bytes("bash script");
            check(name.as_slice(), reply)
        },
    }
}

/// Run `commands` in a restricted shell at the root directory.
pub fn rbash<O: ShellOracle>(oracle: &mut O, commands: &[u8]) -> (r: Result<Vec<u8>, Error>)
    ensures
        r is Err ==> is_run_error(r->Err_0),
{
    proof {
        reveal_strlit("/");
        assert(vstd::string::is_ascii("/"));
    }
    let root = lit_bytes("/");
    rbash_at(oracle, commands, root.as_slice())
}

/// The lines of `s` in the sense of text lines: split at line feeds, with
/// one final empty segment ignored.
pub open spec fn text_lines(s: Seq<u8>) -> Seq<Seq<u8>> {
    if s.len() == 0 {
        Seq::empty()
    } else {
        let parts = split_at_byte(s, 10u8);
        if parts.last().len() == 0 {
            parts.drop_last()
        } else {
            parts
        }
    }
}

/// Whether `s` starts with `p`.
pub open spec fn has_prefix(s: Seq<u8>, p: Seq<u8>) -> bool {
    s.len() >= p.len() && s.subrange(0, p.len() as int) == p
}

/// What follows `p` on each line of `ls` that starts with `p`.
pub open spec fn prefixed_values(ls: Seq<Seq<u8>>, p: Seq<u8>) -> Seq<Seq<u8>>
    decreases ls.len(),
{
    if ls.len() == 0 {
        Seq::empty()
    } else {
        let rest = prefixed_values(ls.drop_first(), p);
        if has_prefix(ls[0], p) {
            seq![ls[0].subrange(p.len() as int, ls[0].len() as int)] + rest
        } else {
            rest
        }
    }
}

/// Whether `s` starts with `p`.
pub fn starts_with(s: &[u8], p: &[u8]) -> (r: bool)
    ensures
        r == has_prefix(s@, p@),
{
    if s.len() < p.len() {
        return false;
    }
    let mut i: usize = 0;
    while i < p.len()
        invariant
            i <= p@.len() <= s@.len(),
            forall|j: int| 0 <= j < i ==> s@[j] == p@[j],
        decreases p@.len() - i,
    {
        if s[i] != p[i] {
            assert(s@.subrange(0, p@.len() as int)[i as int] != p@[i as int]);
            return false;
        }
        i = i + 1;
    }
    proof {
        assert(s@.subrange(0, p@.len() as int) =~= p@);
    }
    true
}

/// The lines of `s`, as [`text_lines`] gives them.
pub fn split_text_lines(s: &[u8]) -> (r: Vec<Vec<u8>>)
    ensures
        r@.len() == text_lines(s@).len(),
        forall|i: int| 0 <= i < r@.len() ==> r@[i]@ == text_lines(s@)[i],
{
    if s.len() == 0 {
        return Vec::new();
    }
    let mut parts = crate::strings::split_bytes_at(s, 10);
    proof {
        crate::strings::lemma_split_nonempty(s@, 10u8);
    }
    let last_empty = parts[parts.len() - 1].len() == 0;
    if last_empty {
        let _ = parts.pop();
    }
    parts
}

/// The value of the sentinel variable in the probe's output: the text after
/// `OUTPUT=` on the one line that carries it.
pub fn extract_output_var(out: &[u8]) -> (r: Result<Vec<u8>, Error>)
    ensures
        ({
            let vals = prefixed_values(text_lines(out@), ascii_bytes("OUTPUT="@));
            match r {
                Ok(v) => valid_utf8_seq(out@) && vals.len() == 1 && v@ == vals[0],
                Err(e) => match e {
                    Error::NotUtf8 => !valid_utf8_seq(out@),
                    Error::MissingOutput => valid_utf8_seq(out@) && vals.len() == 0,
                    Error::MultipleOutput => valid_utf8_seq(out@) && vals.len() > 1,
                    _ => false,
                },
            }
        }),
{
    if !crate::utf8::is_utf8(out) {
        return Err(Error::NotUtf8);
    }
    proof {
        reveal_strlit("OUTPUT=");
        assert(vstd::string::is_ascii("OUTPUT="));
    }
    let prefix = lit_bytes("OUTPUT=");
    let ghost p = ascii_bytes("OUTPUT="@);
    let ls = split_text_lines(out);
    let ghost lseq = text_lines(out@);
    let mut vals: Vec<Vec<u8>> = Vec::new();
    let mut i: usize = 0;
    proof {
        assert(lseq.subrange(0, lseq.len() as int) =~= lseq);
        assert(prefixed_values(lseq, p) =~= Seq::<Seq<u8>>::empty() + prefixed_values(lseq, p));
        assert(Seq::new(vals@.len(), |k: int| vals@[k]@) =~= Seq::<Seq<u8>>::empty());
    }
    while i < ls.len()
        invariant
            i <= ls@.len(),
            ls@.len() == lseq.len(),
            forall|k: int| 0 <= k < ls@.len() ==> ls@[k]@ == lseq[k],
            p == ascii_bytes("OUTPUT="@),
            prefix@ == p,
            prefixed_values(lseq, p) == Seq::new(vals@.len(), |k: int| vals@[k]@)
                + prefixed_values(lseq.subrange(i as int, lseq.len() as int), p),
        decreases ls@.len() - i,
    {
        let ghost tail = lseq.subrange(i as int, lseq.len() as int);
        proof {
            assert(tail.len() > 0);
            assert(tail[0] == lseq[i as int]);
            assert(tail.drop_first() =~= lseq.subrange(i + 1, lseq.len() as int));
        }
        let line = &ls[i];
        if starts_with(line.as_slice(), prefix.as_slice()) {
            let v = crate::strings::subvec(line.as_slice(), prefix.len(), line.len());
            let ghost prev = vals@;
            vals.push(v);
            proof {
                assert(Seq::new(vals@.len(), |k: int| vals@[k]@) =~= Seq::new(
                    prev.len(),
                    |k: int| prev[k]@,
                ) + seq![v@]);
                assert(v@ == tail[0].subrange(p.len() as int, tail[0].len() as int));
                assert(prefixed_values(tail, p) == seq![
                    tail[0].subrange(p.len() as int, tail[0].len() as int),
                ] + prefixed_values(tail.drop_first(), p));
                assert(prefixed_values(lseq, p) =~= Seq::new(vals@.len(), |k: int| vals@[k]@)
                    + prefixed_values(lseq.subrange(i + 1, lseq.len() as int), p));
            }
        } else {
            proof {
                assert(prefixed_values(tail, p) == prefixed_values(tail.drop_first(), p));
            }
        }
        i = i + 1;
    }
    proof {
        assert(lseq.subrange(lseq.len() as int, lseq.len() as int).len() == 0);
        assert(prefixed_values(lseq.subrange(lseq.len() as int, lseq.len() as int), p)
            =~= Seq::<Seq<u8>>::empty());
        assert(prefixed_values(lseq, p) =~= Seq::new(vals@.len(), |k: int| vals@[k]@));
    }
    if vals.len() == 0 {
        Err(Error::MissingOutput)
    } else if vals.len() > 1 {
        Err(Error::MultipleOutput)
    } else {
        let v = vals.pop().unwrap();
        proof {
            assert(v@ == prefixed_values(text_lines(out@), ascii_bytes("OUTPUT="@))[0]);
        }
        Ok(v)
    }
}

/// Run `commands` at `dir` and hand back the value of the sentinel
/// variable `OUTPUT` that the script assigned.
pub fn rbash_with_output_at<O: ShellOracle>(oracle: &mut O, commands: &[u8], dir: &[u8]) -> (r:
    Result<Vec<u8>, Error>)
    ensures
        r is Err ==> is_probe_error(r->Err_0),
{
    proof {
        reveal_strlit("\ndeclare | grep -E '^OUTPUT=' || true");
        assert(vstd::string::is_ascii("\ndeclare | grep -E '^OUTPUT=' || true"));
    }
    let mut probed = vstd::slice::slice_to_vec(commands);
    let probe = lit_bytes("\ndeclare | grep -E '^OUTPUT=' || true");
    push_all(&mut probed, probe.as_slice());
    let out = match rbash_at(oracle, probed.as_slice(), dir) {
        Ok(out) => out,
        Err(e) => {
            return Err(e);
        },
    };
    extract_output_var(out.as_slice())
}

/// Run `commands` at the root directory and hand back the value of the
/// sentinel variable `OUTPUT`.
pub fn rbash_with_output<O: ShellOracle>(oracle: &mut O, commands: &[u8]) -> (r: Result<
    Vec<u8>,
    Error,
>)
    ensures
        r is Err ==> is_probe_error(r->Err_0),
{
    proof {
        reveal_strlit("/");
        assert(vstd::string::is_ascii("/"));
    }
    let root = lit_bytes("/");
    rbash_with_output_at(oracle, commands, root.as_slice())
}

} // verus!
