//! The error taxonomy: subprocess failures, malformed values, encoding
//! trouble, and contextual chaining.
//!
//! Errors are structured values; [`Error::message`] renders them as text,
//! and a failed command is reported in one of four shapes depending on
//! whether an exit code and a non-blank standard error are present.

use vstd::prelude::*;

use crate::strings::{ascii_bytes, lit_bytes, push_all, trim_spec};
use crate::utf8::{lossy_utf8_spec, utf8_lossy};

verus! {

/// What went wrong, with everything the message needs as plain values.
#[derive(Debug)]
pub enum Error {
    /// The shell or another command could not be run at all.
    Shell { detail: Vec<u8> },
    /// A command ran and failed, with its exit code when it exited
    /// normally and whatever it wrote to standard error.
    Failed { name: Vec<u8>, code: Option<i32>, stderr: Vec<u8> },
    /// The probe for the sentinel variable found no assignment.
    MissingOutput,
    /// The probe for the sentinel variable found more than one assignment.
    MultipleOutput,
    /// Text that had to be UTF-8 was not.
    NotUtf8,
    /// A declaration line held no `=`.
    MissingAssignment { line: Vec<u8> },
    /// Text without the `(`...`)` shape where an array literal was required.
    InvalidArraySource { text: Vec<u8> },
    /// An array key that does not parse as a decimal index.
    InvalidIndex { text: Vec<u8> },
    /// A preset file that defines no `PRESETS` variable.
    MissingPresets,
    /// An inner error wrapped with what was being done at the time.
    Context { what: Vec<u8>, inner: Box<Error> },
}

/// The decimal numerals of `v`, most significant first.
pub open spec fn dec_digits(v: nat) -> Seq<u8>
    decreases v,
{
    if v < 10 {
        seq![(48 + v) as u8]
    } else {
        dec_digits(v / 10) + seq![(48 + (v % 10)) as u8]
    }
}

/// The decimal rendering of `n`, with a leading `-` when negative.
pub open spec fn dec_int(n: int) -> Seq<u8> {
    if n < 0 {
        seq![45u8] + dec_digits((-n) as nat)
    } else {
        dec_digits(n as nat)
    }
}

/// The ` (status = N)` part of a failure message, present only when the
/// command exited normally.
pub open spec fn status_part(code: Option<i32>) -> Seq<u8> {
    match code {
        Some(c) => ascii_bytes(" (status = "@) + dec_int(c as int) + ascii_bytes(")"@),
        None => Seq::empty(),
    }
}

/// The `: stderr` part of a failure message, present only when standard
/// error is not blank, rendered lossily.
pub open spec fn stderr_part(stderr: Seq<u8>) -> Seq<u8> {
    if trim_spec(stderr).len() > 0 {
        ascii_bytes(": "@) + lossy_utf8_spec(stderr)
    } else {
        Seq::empty()
    }
}

/// The text of each error.
pub open spec fn message_spec(e: Error) -> Seq<u8>
    decreases e,
{
    match e {
        Error::Shell { detail } => detail@,
        Error::Failed { name, code, stderr } => name@ + ascii_bytes(" failed"@) + status_part(code)
            + stderr_part(stderr@),
        Error::MissingOutput => ascii_bytes("missing OUTPUT variable"@),
        Error::MultipleOutput => ascii_bytes("multiple OUTPUT variables"@),
        Error::NotUtf8 => ascii_bytes("invalid UTF-8 in shell output"@),
        Error::MissingAssignment { line } => ascii_bytes("missing variable assignment: "@)
            + lossy_utf8_spec(line@),
        Error::InvalidArraySource { text } => ascii_bytes("invalid array source: "@)
            + lossy_utf8_spec(text@),
        Error::InvalidIndex { text } => ascii_bytes("invalid array index: "@) + lossy_utf8_spec(
            text@,
        ),
        Error::MissingPresets => ascii_bytes("missing PRESETS array"@),
        Error::Context { what, inner } => what@ + ascii_bytes(": "@) + message_spec(*inner),
    }
}

/// Append the decimal numerals of `v` to `out`.
fn push_dec_u32(out: &mut Vec<u8>, v: u32)
    ensures
        final(out)@ == old(out)@ + dec_digits(v as nat),
    decreases v,
{
    if v < 10 {
        out.push(48 + v as u8);
        assert(final(out)@ =~= old(out)@ + dec_digits(v as nat));
    } else {
        push_dec_u32(out, v / 10);
        out.push(48 + (v % 10) as u8);
        assert(final(out)@ =~= old(out)@ + dec_digits(v as nat));
    }
}

/// Append the decimal rendering of `n` to `out`.
fn push_dec_i32(out: &mut Vec<u8>, n: i32)
    ensures
        final(out)@ == old(out)@ + dec_int(n as int),
{
    if n < 0 {
        out.push(45);
        let m: u32 = (-(n as i64)) as u32;
        push_dec_u32(out, m);
        assert(final(out)@ =~= old(out)@ + dec_int(n as int));
    } else {
        push_dec_u32(out, n as u32);
    }
}

impl Error {
    /// Wrap this error with what was being done when it arose.
    pub fn context(self, what: Vec<u8>) -> (r: Error)
        ensures
            r == (Error::Context { what, inner: Box::new(self) }),
    {
        Error::Context { what, inner: Box::new(self) }
    }

    /// Render the error as text: one line naming what failed, with the
    /// status and standard-error parts present exactly when they are.
    pub fn message(&self) -> (r: Vec<u8>)
        ensures
            r@ == message_spec(*self),
        decreases *self,
    {
        match self {
            Error::Shell { detail } => detail.clone(),
            Error::Failed { name, code, stderr } => {
                let mut out = name.clone();
                proof {
                    reveal_strlit(" failed");
                    assert(vstd::string::is_ascii(" failed"));
                    reveal_strlit(" (status = ");
                    assert(vstd::string::is_ascii(" (status = "));
                    reveal_strlit(")");
                    assert(vstd::string::is_ascii(")"));
                    reveal_strlit(": ");
                    assert(vstd::string::is_ascii(": "));
                }
                let part = lit_bytes(" failed");
                push_all(&mut out, part.as_slice());
                match code {
                    Some(c) => {
                        let part = lit_bytes(" (status = ");
                        push_all(&mut out, part.as_slice());
                        push_dec_i32(&mut out, *c);
                        let part = lit_bytes(")");
                        push_all(&mut out, part.as_slice());
                    },
                    None => {},
                }
                let trimmed = crate::strings::trim_ascii(stderr.as_slice());
                if trimmed.len() > 0 {
                    let part = lit_bytes(": ");
                    push_all(&mut out, part.as_slice());
                    let text = utf8_lossy(stderr.as_slice());
                    push_all(&mut out, text.as_slice());
                }
                assert(out@ =~= message_spec(*self));
                out
            },
            Error::MissingOutput => {
                proof {
                    reveal_strlit("missing OUTPUT variable");
                    assert(vstd::string::is_ascii("missing OUTPUT variable"));
                }
                lit_bytes("missing OUTPUT variable")
            },
            Error::MultipleOutput => {
                proof {
                    reveal_strlit("multiple OUTPUT variables");
                    assert(vstd::string::is_ascii("multiple OUTPUT variables"));
                }
                lit_bytes("multiple OUTPUT variables")
            },
            Error::NotUtf8 => {
                proof {
                    reveal_strlit("invalid UTF-8 in shell output");
                    assert(vstd::string::is_ascii("invalid UTF-8 in shell output"));
                }
                lit_bytes("invalid UTF-8 in shell output")
            },
            Error::MissingAssignment { line } => {
                proof {
                    reveal_strlit("missing variable assignment: ");
                    assert(vstd::string::is_ascii("missing variable assignment: "));
                }
                let mut out = lit_bytes("missing variable assignment: ");
                let text = utf8_lossy(line.as_slice());
                push_all(&mut out, text.as_slice());
                out
            },
            Error::InvalidArraySource { text } => {
                proof {
                    reveal_strlit("invalid array source: ");
                    assert(vstd::string::is_ascii("invalid array source: "));
                }
                let mut out = lit_bytes("invalid array source: ");
                let part = utf8_lossy(text.as_slice());
                push_all(&mut out, part.as_slice());
                out
            },
            Error::InvalidIndex { text } => {
                proof {
                    reveal_strlit("invalid array index: ");
                    assert(vstd::string::is_ascii("invalid array index: "));
                }
                let mut out = lit_bytes("invalid array index: ");
                let part = utf8_lossy(text.as_slice());
                push_all(&mut out, part.as_slice());
                out
            },
            Error::MissingPresets => {
                proof {
                    reveal_strlit("missing PRESETS array");
                    assert(vstd::string::is_ascii("missing PRESETS array"));
                }
                lit_bytes("missing PRESETS array")
            },
            Error::Context { what, inner } => {
                proof {
                    reveal_strlit(": ");
                    assert(vstd::string::is_ascii(": "));
                }
                let mut out = what.clone();
                let part = lit_bytes(": ");
                push_all(&mut out, part.as_slice());
                let rest = inner.message();
                push_all(&mut out, rest.as_slice());
                out
            },
        }
    }
}

} // verus!
