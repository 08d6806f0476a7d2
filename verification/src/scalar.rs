//! Scalar Bash values: one logical byte string held in both of its forms.
//!
//! A [`BashString`] owns the raw bytes of the value and a quoted rendering
//! of them in Bash source syntax. The shell is the authority on the
//! relation between the two: quoting goes through a private file and the
//! sentinel probe, unquoting through an assignment that the shell
//! evaluates. Equality is on the raw bytes alone, so two differently
//! quoted sources for the same bytes are the same value.

use vstd::prelude::*;

use crate::errors::Error;
use crate::shell::{is_probe_error, is_run_error, ShellOracle};
use crate::strings::{ascii_bytes, lit_bytes, push_all, trim_spec};
use crate::utf8::{lossy_utf8_spec, repr_bytes_spec, valid_utf8_seq};

verus! {

/// A scalar Bash value: quoted source and raw bytes of one string.
#[derive(Debug)]
pub struct BashString {
    /// The value in Bash source syntax.
    escaped: Vec<u8>,
    /// The bytes the quoted form evaluates to.
    raw: Vec<u8>,
}

impl View for BashString {
    type V = Seq<u8>;

    /// A scalar is its raw bytes; the quoted form is a rendering of them.
    closed spec fn view(&self) -> Seq<u8> {
        self.raw@
    }
}

/// The script that evaluates quoted `text` and prints the resulting bytes:
/// assign it, then echo the variable without a trailing newline.
pub open spec fn unescape_script_spec(text: Seq<u8>) -> Seq<u8> {
    ascii_bytes("INPUT="@) + trim_spec(text) + ascii_bytes("\necho -n \"$INPUT\""@)
}

/// The script that reads the stashed file at `file` and assigns its
/// contents to the sentinel variable, whose printed form is the quoting.
pub open spec fn escape_script_spec(file: Seq<u8>) -> Seq<u8> {
    ascii_bytes("OUTPUT=\"$(cat '"@) + file + ascii_bytes("')\""@)
}

/// The script that splits the quoted value at spaces into the sentinel
/// array, with globbing off so the words stay as written.
pub open spec fn arrayize_script_spec(escaped: Seq<u8>) -> Seq<u8> {
    ascii_bytes("set -f\nINPUT="@) + escaped + ascii_bytes("\nread -r -a OUTPUT <<< \"$INPUT\""@)
}

/// The script that splits the quoted value at `delimiter` into the
/// sentinel array through `mapfile`.
pub open spec fn mapfile_script_spec(escaped: Seq<u8>, delimiter: u8) -> Seq<u8> {
    ascii_bytes("declare -a OUTPUT=()\nINPUT="@) + escaped + ascii_bytes("\nmapfile -d '"@) + seq![
        delimiter,
    ] + ascii_bytes("' -t OUTPUT 1>&- < <(\n    printf '%s' \"$INPUT\"\n)"@)
}

/// Evaluate quoted `text` through the shell and hand back the raw bytes
/// it stands for. Leading and trailing ASCII whitespace is dropped before
/// the assignment; quoted text led by a multi-byte whitespace character
/// keeps it, and the shell then decides what the text means.
pub fn unescape<O: ShellOracle>(oracle: &mut O, text: &[u8]) -> (r: Result<Vec<u8>, Error>)
    ensures
        r is Err ==> is_run_error(r->Err_0),
{
    proof {
        reveal_strlit("INPUT=");
        assert(vstd::string::is_ascii("INPUT="));
        reveal_strlit("\necho -n \"$INPUT\"");
        assert(vstd::string::is_ascii("\necho -n \"$INPUT\""));
    }
    let mut command = lit_bytes("INPUT=");
    let trimmed = crate::strings::trim_ascii(text);
    push_all(&mut command, trimmed.as_slice());
    let tail = lit_bytes("\necho -n \"$INPUT\"");
    push_all(&mut command, tail.as_slice());
    proof {
        assert(command@ =~= unescape_script_spec(text@));
    }
    crate::shell::rbash(oracle, command.as_slice())
}

/// Quote raw `data` through the shell: stash the bytes in a private file,
/// read them into the sentinel variable, and take the shell's own printed
/// rendering of that assignment as the quoted form.
pub fn escape<O: ShellOracle>(oracle: &mut O, data: &[u8]) -> (r: Result<Vec<u8>, Error>)
    ensures
        r is Err ==> is_probe_error(r->Err_0),
{
    let (dir, file) = match oracle.stash_bytes(data) {
        Ok(placed) => placed,
        Err(detail) => {
            return Err(Error::Shell { detail });
        },
    };
    proof {
        reveal_strlit("OUTPUT=\"$(cat '");
        assert(vstd::string::is_ascii("OUTPUT=\"$(cat '"));
        reveal_strlit("')\"");
        assert(vstd::string::is_ascii("')\""));
    }
    let mut command = lit_bytes("OUTPUT=\"$(cat '");
    push_all(&mut command, file.as_slice());
    let tail = lit_bytes("')\"");
    push_all(&mut command, tail.as_slice());
    proof {
        assert(command@ =~= escape_script_spec(file@));
    }
    crate::shell::rbash_with_output_at(oracle, command.as_slice(), dir.as_slice())
}

impl BashString {
    /// The quoted form, as a sequence.
    pub closed spec fn source_view(&self) -> Seq<u8> {
        self.escaped@
    }

    /// Both forms as given; private, since nothing checks their relation.
    fn assemble(escaped: Vec<u8>, raw: Vec<u8>) -> (r: Self)
        ensures
            r.source_view() == escaped@,
            r@ == raw@,
    {
        BashString { escaped, raw }
    }

    /// Resolve a scalar from its quoted form; the shell decides the raw
    /// bytes, the quoted form is kept as handed in.
    pub fn from_escaped<O: ShellOracle>(oracle: &mut O, text: &[u8]) -> (r: Result<Self, Error>)
        ensures
            r is Ok ==> r->Ok_0.source_view() == text@,
            r is Err ==> r->Err_0 is Context,
    {
        let raw = match unescape(oracle, text) {
            Ok(raw) => raw,
            Err(inner) => {
                proof {
                    reveal_strlit("while parsing possibly escaped text");
                    assert(vstd::string::is_ascii("while parsing possibly escaped text"));
                }
                let what = lit_bytes("while parsing possibly escaped text");
                return Err(inner.context(what));
            },
        };
        Ok(Self::assemble(vstd::slice::slice_to_vec(text), raw))
    }

    /// Resolve a scalar from its raw bytes; the shell decides the quoted
    /// form, the bytes are kept as handed in.
    pub fn from_raw<O: ShellOracle>(oracle: &mut O, bytes: &[u8]) -> (r: Result<Self, Error>)
        ensures
            r is Ok ==> r->Ok_0@ == bytes@,
            r is Err ==> r->Err_0 is Context,
    {
        let escaped = match escape(oracle, bytes) {
            Ok(escaped) => escaped,
            Err(inner) => {
                proof {
                    reveal_strlit("while escaping raw bytes");
                    assert(vstd::string::is_ascii("while escaping raw bytes"));
                }
                let what = lit_bytes("while escaping raw bytes");
                return Err(inner.context(what));
            },
        };
        Ok(Self::assemble(escaped, vstd::slice::slice_to_vec(bytes)))
    }

    /// Resolve text that may be quoted: first as a quoted form, and when
    /// the shell refuses that, as raw bytes.
    pub fn from_str<O: ShellOracle>(oracle: &mut O, text: &[u8]) -> (r: Result<Self, Error>)
        ensures
            r is Ok ==> r->Ok_0.source_view() == text@ || r->Ok_0@ == text@,
    {
        match Self::from_escaped(oracle, text) {
            Ok(s) => Ok(s),
            Err(_) => Self::from_raw(oracle, text),
        }
    }

    /// The quoted form of the value.
    pub fn source(&self) -> (r: &Vec<u8>)
        ensures
            r@ == self.source_view(),
    {
        &self.escaped
    }

    /// The raw bytes of the value.
    pub fn as_raw(&self) -> (r: &Vec<u8>)
        ensures
            r@ == self@,
    {
        &self.raw
    }

    /// The raw bytes when they are UTF-8, and the encoding error otherwise.
    pub fn as_utf8(&self) -> (r: Result<Vec<u8>, Error>)
        ensures
            match r {
                Ok(v) => valid_utf8_seq(self@) && v@ == self@,
                Err(e) => !valid_utf8_seq(self@) && e is NotUtf8,
            },
    {
        if crate::utf8::is_utf8(self.raw.as_slice()) {
            Ok(self.raw.clone())
        } else {
            Err(Error::NotUtf8)
        }
    }

    /// The raw bytes as text, with invalid runs shown as the replacement
    /// character.
    pub fn to_utf8_lossy(&self) -> (r: Vec<u8>)
        ensures
            r@ == lossy_utf8_spec(self@),
    {
        crate::utf8::utf8_lossy(self.raw.as_slice())
    }

    /// The raw bytes as a byte-string literal.
    pub fn as_repr(&self) -> (r: Vec<u8>)
        ensures
            r@ == repr_bytes_spec(self@),
    {
        crate::utf8::repr_byte_str(self.raw.as_slice())
    }

    /// A copy with both forms equal to this one's.
    pub fn duplicate(&self) -> (r: Self)
        ensures
            r.source_view() == self.source_view(),
            r@ == self@,
    {
        BashString { escaped: self.escaped.clone(), raw: self.raw.clone() }
    }

    /// Split the value into an indexed array at spaces, with the shell's
    /// own word splitting under the default field separator.
    pub fn arrayize<O: ShellOracle>(&self, oracle: &mut O) -> (r: Result<
        crate::array::BashArray,
        Error,
    >)
        ensures
            r is Err ==> !(r->Err_0 is MissingPresets),
    {
        proof {
            reveal_strlit("set -f\nINPUT=");
            assert(vstd::string::is_ascii("set -f\nINPUT="));
            reveal_strlit("\nread -r -a OUTPUT <<< \"$INPUT\"");
            assert(vstd::string::is_ascii("\nread -r -a OUTPUT <<< \"$INPUT\""));
        }
        let mut command = lit_bytes("set -f\nINPUT=");
        push_all(&mut command, self.escaped.as_slice());
        let tail = lit_bytes("\nread -r -a OUTPUT <<< \"$INPUT\"");
        push_all(&mut command, tail.as_slice());
        proof {
            assert(command@ =~= arrayize_script_spec(self.source_view()));
        }
        let output = match crate::shell::rbash_with_output(oracle, command.as_slice()) {
            Ok(output) => output,
            Err(e) => {
                return Err(e);
            },
        };
        crate::array::BashArray::new(oracle, output.as_slice())
    }

    /// Split the value into an indexed array at each occurrence of
    /// `delimiter`, with the shell's `mapfile` doing the splitting.
    pub fn mapfile<O: ShellOracle>(&self, oracle: &mut O, delimiter: u8) -> (r: Result<
        crate::array::BashArray,
        Error,
    >)
        ensures
            r is Err ==> !(r->Err_0 is MissingPresets),
    {
        proof {
            reveal_strlit("declare -a OUTPUT=()\nINPUT=");
            assert(vstd::string::is_ascii("declare -a OUTPUT=()\nINPUT="));
            reveal_strlit("\nmapfile -d '");
            assert(vstd::string::is_ascii("\nmapfile -d '"));
            reveal_strlit("' -t OUTPUT 1>&- < <(\n    printf '%s' \"$INPUT\"\n)");
            assert(vstd::string::is_ascii("' -t OUTPUT 1>&- < <(\n    printf '%s' \"$INPUT\"\n)"));
        }
        let mut command = lit_bytes("declare -a OUTPUT=()\nINPUT=");
        push_all(&mut command, self.escaped.as_slice());
        let mid = lit_bytes("\nmapfile -d '");
        push_all(&mut command, mid.as_slice());
        command.push(delimiter);
        let tail = lit_bytes("' -t OUTPUT 1>&- < <(\n    printf '%s' \"$INPUT\"\n)");
        push_all(&mut command, tail.as_slice());
        proof {
            assert(command@ =~= mapfile_script_spec(self.source_view(), delimiter));
        }
        let output = match crate::shell::rbash_with_output(oracle, command.as_slice()) {
            Ok(output) => output,
            Err(e) => {
                return Err(e);
            },
        };
        crate::array::BashArray::new(oracle, output.as_slice())
    }

    /// Quote the raw bytes afresh, discarding the original quoting; the
    /// bytes themselves are kept.
    pub fn reescape<O: ShellOracle>(&self, oracle: &mut O) -> (r: Result<Self, Error>)
        ensures
            r is Ok ==> r->Ok_0@ == self@,
            r is Err ==> r->Err_0 is Context,
    {
        Self::from_raw(oracle, self.raw.as_slice())
    }
}

impl PartialEq for BashString {
    /// Two scalars are equal when their raw bytes are; quoting is a
    /// rendering, not part of the value.
    fn eq(&self, other: &Self) -> (r: bool) {
        let r = self.raw == other.raw;
        proof {
            if r {
                assert(self.raw@ =~= other.raw@);
            } else if self.raw@ == other.raw@ {
                assert(self.raw@.len() == other.raw@.len());
                assert forall|i: int| #![auto] 0 <= i < self.raw@.len() implies self.raw@[i]
                    == other.raw@[i] by {}
            }
        }
        r
    }
}

impl vstd::std_specs::cmp::PartialEqSpecImpl for BashString {
    open spec fn obeys_eq_spec() -> bool {
        true
    }

    open spec fn eq_spec(&self, other: &Self) -> bool {
        self@ == other@
    }
}

/// Re-quoting twice is the same as re-quoting once: a scalar is its raw
/// bytes, re-quoting keeps them, so the second pass changes nothing of the
/// value.
pub proof fn reescape_idempotent(x: BashString, y: BashString, z: BashString)
    requires
        y@ == x@,
        z@ == y@,
    ensures
        z@ == y@,
        vstd::std_specs::cmp::PartialEqSpec::eq_spec(&z, &y),
{
}

} // verus!
