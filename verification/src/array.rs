//! Indexed Bash arrays: ordered `(index, scalar)` pairs with their source.
//!
//! An array literal is recognised by its outer parentheses alone; the
//! shell then declares it and prints every `key=value` pair through
//! `printf '%q'`, so each line splits unambiguously at the first `=` and
//! both sides decode through the scalar codec. Only the indexed flavor is
//! modelled here; a value is never read as an associative array.

use vstd::prelude::*;

use crate::errors::Error;
use crate::scalar::BashString;
use crate::shell::ShellOracle;
use crate::strings::{ascii_bytes, find_byte_spec, lit_bytes, push_all, trim_spec};
use crate::utf8::valid_utf8_seq;

verus! {

/// Whether `t` has the outer shape of an array literal: non-empty, with a
/// leading `(` and a trailing `)`. Nothing inside is checked here; a
/// malformed interior is caught by the shell when the text is declared.
pub open spec fn is_array_source_spec(t: Seq<u8>) -> bool {
    t.len() > 0 && t[0] == 40u8 && t[t.len() - 1] == 41u8
}

/// Whether `t` has the outer shape of an array literal.
pub fn is_array_source(text: &[u8]) -> (r: bool)
    ensures
        r == is_array_source_spec(text@),
{
    text.len() > 0 && text[0] == 40 && text[text.len() - 1] == 41
}

/// The script that declares the literal `text` as an indexed array and
/// prints one `key=value` line per entry, both sides quoted by the shell.
pub open spec fn array_entries_script_spec(text: Seq<u8>) -> Seq<u8> {
    ascii_bytes("declare -a ARR="@) + text + ascii_bytes(
        "\nfor KEY in \"${!ARR[@]}\"; do\n    printf '%q=%q\\n' \"$KEY\" \"${ARR[$KEY]}\"\ndone"@,
    )
}

/// The script that declares the literal `text` and assigns the whole
/// array, joined by single spaces, to the sentinel variable.
pub open spec fn array_concat_script_spec(text: Seq<u8>) -> Seq<u8> {
    ascii_bytes("declare -a ARRAY="@) + text + ascii_bytes("\nOUTPUT=\"${ARRAY[*]}\""@)
}

/// The value of a run of decimal numerals, most significant first.
pub open spec fn digits_val(s: Seq<u8>) -> nat
    decreases s.len(),
{
    if s.len() == 0 {
        0
    } else {
        digits_val(s.drop_last()) * 10 + (s.last() - 48) as nat
    }
}

/// Whether `b` is a decimal numeral.
pub open spec fn is_dec_digit(b: u8) -> bool {
    48 <= b <= 57
}

/// Whether every byte of `ds` is a decimal numeral.
pub open spec fn all_digits(ds: Seq<u8>) -> bool {
    forall|i: int| 0 <= i < ds.len() ==> is_dec_digit(#[trigger] ds[i])
}

/// Whether `s` opens with a sign byte.
pub open spec fn has_sign(s: Seq<u8>) -> bool {
    s.len() > 0 && (s[0] == 43u8 || s[0] == 45u8)
}

/// `s` without its sign byte, when it carries one.
pub open spec fn digits_of(s: Seq<u8>) -> Seq<u8> {
    if has_sign(s) {
        s.drop_first()
    } else {
        s
    }
}

/// The signed 32-bit value that `s` denotes: an optional sign, then
/// numerals, within range; `None` otherwise.
pub open spec fn parse_i32_spec(s: Seq<u8>) -> Option<int> {
    let ds = digits_of(s);
    if ds.len() > 0 && all_digits(ds) {
        let v = digits_val(ds) as int;
        if s[0] == 45u8 {
            if v <= 0x8000_0000 {
                Some(-v)
            } else {
                None
            }
        } else if v <= 0x7fff_ffff {
            Some(v)
        } else {
            None
        }
    } else {
        None
    }
}

/// A longer run of numerals never denotes a smaller value.
proof fn lemma_digits_val_monotone(s: Seq<u8>, i: int)
    requires
        0 <= i <= s.len(),
    ensures
        digits_val(s) >= digits_val(s.subrange(0, i)),
    decreases s.len() - i,
{
    if i < s.len() {
        lemma_digits_val_monotone(s.drop_last(), i);
        assert(s.drop_last().subrange(0, i) =~= s.subrange(0, i));
        assert(digits_val(s) >= digits_val(s.drop_last()));
    } else {
        assert(s.subrange(0, i) =~= s);
    }
}

/// Parse a decimal index, exactly as [`parse_i32_spec`] reads it.
pub fn parse_i32(s: &[u8]) -> (r: Result<i32, Error>)
    ensures
        match r {
            Ok(v) => parse_i32_spec(s@) == Some(v as int),
            Err(e) => parse_i32_spec(s@) is None && match e {
                Error::InvalidIndex { text } => text@ == s@,
                _ => false,
            },
        },
{
    let n = s.len();
    let negative = n > 0 && s[0] == 45;
    let has_sign = n > 0 && (s[0] == 43 || s[0] == 45);
    let start: usize = if has_sign {
        1
    } else {
        0
    };
    let ghost ds = if has_sign {
        s@.drop_first()
    } else {
        s@
    };
    proof {
        if has_sign {
            assert(ds =~= s@.subrange(1, n as int));
        }
    }
    if start == n {
        proof {
            assert(ds == digits_of(s@));
            assert(ds.len() == 0);
            assert(parse_i32_spec(s@) is None);
        }
        return Err(Error::InvalidIndex { text: vstd::slice::slice_to_vec(s) });
    }
    let mut acc: u64 = 0;
    let mut i: usize = start;
    while i < n
        invariant
            start <= i <= n,
            n == s@.len(),
            start == if has_sign { 1int } else { 0int },
            has_sign == (s@.len() > 0 && (s@[0] == 43u8 || s@[0] == 45u8)),
            negative == (s@.len() > 0 && s@[0] == 45u8),
            ds == (if has_sign { s@.drop_first() } else { s@ }),
            ds.len() == n - start,
            forall|j: int| 0 <= j < i - start ==> is_dec_digit(#[trigger] ds[j]),
            acc == digits_val(ds.subrange(0, i - start)),
            acc <= 0xffff_ffffu64,
        decreases n - i,
    {
        let b = s[i];
        if b < 48 || b > 57 {
            proof {
                assert(ds[i - start] == s@[i as int]);
                assert(!is_dec_digit(ds[i - start]));
                assert(0 <= i - start < ds.len());
                assert(ds == digits_of(s@));
                assert(!all_digits(ds));
                assert(parse_i32_spec(s@) is None);
            }
            return Err(Error::InvalidIndex { text: vstd::slice::slice_to_vec(s) });
        }
        let ghost before = ds.subrange(0, i - start);
        acc = acc * 10 + ((b - 48) as u64);
        proof {
            let now = ds.subrange(0, i + 1 - start);
            assert(now.drop_last() =~= before);
            assert(now.last() == s@[i as int]);
            assert(acc == digits_val(now));
        }
        i = i + 1;
        if acc > 0xffff_ffff {
            proof {
                lemma_digits_val_monotone(ds, i - start);
                assert(digits_val(ds.subrange(0, i - start)) == acc);
                assert(digits_val(ds) >= acc);
                assert(parse_i32_spec(s@) is None);
            }
            return Err(Error::InvalidIndex { text: vstd::slice::slice_to_vec(s) });
        }
    }
    proof {
        assert(ds.subrange(0, ds.len() as int) =~= ds);
        assert forall|j: int| 0 <= j < ds.len() implies is_dec_digit(#[trigger] ds[j]) by {}
        assert(all_digits(ds));
        assert(ds == digits_of(s@));
        assert(ds.len() > 0);
        assert(acc == digits_val(ds));
    }
    if negative {
        if acc <= 0x8000_0000 {
            let v = -((acc as i64)) as i32;
            Ok(v)
        } else {
            Err(Error::InvalidIndex { text: vstd::slice::slice_to_vec(s) })
        }
    } else {
        if acc <= 0x7fff_ffff {
            Ok(acc as i32)
        } else {
            Err(Error::InvalidIndex { text: vstd::slice::slice_to_vec(s) })
        }
    }
}

/// The non-blank members of `ls`, in order.
pub open spec fn nonblank_of(ls: Seq<Seq<u8>>) -> Seq<Seq<u8>>
    decreases ls.len(),
{
    if ls.len() == 0 {
        Seq::empty()
    } else if trim_spec(ls.last()).len() > 0 {
        nonblank_of(ls.drop_last()) + seq![ls.last()]
    } else {
        nonblank_of(ls.drop_last())
    }
}

/// The non-blank lines of `s`.
pub open spec fn nonblank_lines(s: Seq<u8>) -> Seq<Seq<u8>> {
    nonblank_of(crate::shell::text_lines(s))
}

/// A member of `ls` that is not blank appears among the non-blank members.
pub proof fn lemma_nonblank_member(ls: Seq<Seq<u8>>, i: int)
    requires
        0 <= i < ls.len(),
        trim_spec(ls[i]).len() > 0,
    ensures
        exists|j: int| 0 <= j < nonblank_of(ls).len() && nonblank_of(ls)[j] == ls[i],
    decreases ls.len(),
{
    if i == ls.len() - 1 {
        assert(ls.last() == ls[i]);
        let nb = nonblank_of(ls);
        assert(nb == nonblank_of(ls.drop_last()) + seq![ls[i]]);
        assert(nb[nb.len() - 1] == ls[i]);
    } else {
        let sub = ls.drop_last();
        assert(sub[i] == ls[i]);
        lemma_nonblank_member(sub, i);
        let j = choose|j: int| 0 <= j < nonblank_of(sub).len() && nonblank_of(sub)[j] == sub[i];
        if trim_spec(ls.last()).len() > 0 {
            assert(nonblank_of(ls) == nonblank_of(sub) + seq![ls.last()]);
            assert(nonblank_of(ls)[j] == nonblank_of(sub)[j]);
        } else {
            assert(nonblank_of(ls) == nonblank_of(sub));
        }
    }
}

/// Whether the entry `e` reads the assignment line `line` faithfully: the
/// line splits at its first `=`, the left side denotes the entry's index,
/// and the right side is the entry's quoted form.
pub open spec fn entry_matches_line(e: (i32, BashString), line: Seq<u8>) -> bool {
    let f = find_byte_spec(line, 61u8);
    &&& f >= 0
    &&& parse_i32_spec(line.subrange(0, f)) == Some(e.0 as int)
    &&& e.1.source_view() == line.subrange(f + 1, line.len() as int)
}

/// Whether `entries` reads the probe output `out` faithfully, entry by
/// non-blank line.
pub open spec fn entries_match_output(entries: Seq<(i32, BashString)>, out: Seq<u8>) -> bool {
    let ls = nonblank_lines(out);
    &&& entries.len() == ls.len()
    &&& forall|i: int|
        0 <= i < entries.len() ==> entry_matches_line(#[trigger] entries[i], ls[i])
}

/// Decode the `key=value` lines that the entries script printed. Blank
/// lines are skipped; each other line must split at `=` into an index and
/// a quoted value, which decodes through the scalar codec.
pub fn parse_entry_lines<O: ShellOracle>(oracle: &mut O, out: &[u8]) -> (r: Result<
    Vec<(i32, BashString)>,
    Error,
>)
    ensures
        r is Ok ==> valid_utf8_seq(out@) && entries_match_output(r->Ok_0@, out@),
        r is Err ==> match r->Err_0 {
            Error::NotUtf8 => !valid_utf8_seq(out@),
            Error::MissingAssignment { line } => exists|j: int|
                0 <= j < nonblank_lines(out@).len() && #[trigger] nonblank_lines(out@)[j] == line@
                    && find_byte_spec(line@, 61u8) == -1,
            Error::InvalidIndex { .. } => true,
            Error::Context { .. } => true,
            _ => false,
        },
        !valid_utf8_seq(out@) ==> r is Err && r->Err_0 is NotUtf8,
        valid_utf8_seq(out@) && nonblank_lines(out@).len() == 0 ==> r is Ok && r->Ok_0@.len() == 0,
{
    if !crate::utf8::is_utf8(out) {
        return Err(Error::NotUtf8);
    }
    let ls = crate::shell::split_text_lines(out);
    let ghost lseq = crate::shell::text_lines(out@);
    let mut entries: Vec<(i32, BashString)> = Vec::new();
    let mut i: usize = 0;
    proof {
        assert(lseq.subrange(0, 0) =~= Seq::<Seq<u8>>::empty());
    }
    while i < ls.len()
        invariant
            i <= ls@.len(),
            valid_utf8_seq(out@),
            lseq == crate::shell::text_lines(out@),
            ls@.len() == lseq.len(),
            forall|k: int| 0 <= k < ls@.len() ==> ls@[k]@ == lseq[k],
            entries@.len() == nonblank_of(lseq.subrange(0, i as int)).len(),
            forall|k: int|
                0 <= k < entries@.len() ==> entry_matches_line(
                    #[trigger] entries@[k],
                    nonblank_of(lseq.subrange(0, i as int))[k],
                ),
        decreases ls@.len() - i,
    {
        let line = &ls[i];
        let ghost done = lseq.subrange(0, i as int);
        let ghost now = lseq.subrange(0, i + 1);
        proof {
            assert(now.drop_last() =~= done);
            assert(now.last() == lseq[i as int]);
        }
        let trimmed = crate::strings::trim_ascii(line.as_slice());
        if trimmed.len() > 0 {
            proof {
                lemma_nonblank_member(lseq, i as int);
            }
            let eq_at = crate::strings::find_byte(line.as_slice(), 61);
            let f = match eq_at {
                Some(f) => f,
                None => {
                    proof {
                        let j = choose|j: int|
                            0 <= j < nonblank_of(lseq).len() && nonblank_of(lseq)[j] == lseq[i as int];
                        assert(nonblank_lines(out@) == nonblank_of(lseq));
                        assert(nonblank_lines(out@)[j] == lseq[i as int]);
                        assert(line@ == lseq[i as int]);
                    }
                    return Err(Error::MissingAssignment { line: line.clone() });
                },
            };
            proof {
                crate::strings::lemma_find_byte(line@, 61u8);
                assert(f as int == find_byte_spec(line@, 61u8));
                assert(f < line@.len());
            }
            let line_len = line.len();
            proof {
                assert(f < line_len);
            }
            let key_part = crate::strings::subvec(line.as_slice(), 0, f);
            let val_part = crate::strings::subvec(line.as_slice(), f + 1, line_len);
            let key = match parse_i32(key_part.as_slice()) {
                Ok(k) => k,
                Err(e) => {
                    return Err(e);
                },
            };
            let value = match BashString::from_escaped(oracle, val_part.as_slice()) {
                Ok(v) => v,
                Err(e) => {
                    return Err(e);
                },
            };
            let ghost prev = entries@;
            entries.push((key, value));
            proof {
                assert(nonblank_of(now) =~= nonblank_of(done) + seq![lseq[i as int]]);
                assert(entries@ =~= prev + seq![(key, value)]);
                assert(entry_matches_line((key, value), lseq[i as int]));
            }
        } else {
            proof {
                assert(nonblank_of(now) =~= nonblank_of(done));
            }
        }
        i = i + 1;
    }
    proof {
        assert(lseq.subrange(0, lseq.len() as int) =~= lseq);
    }
    Ok(entries)
}

/// Whether two arrays hold the same indices and the same raw bytes,
/// entry by entry.
pub open spec fn same_array(x: BashArray, a: BashArray) -> bool {
    &&& x.entries_view().len() == a.entries_view().len()
    &&& forall|i: int|
        0 <= i < x.entries_view().len() ==> (#[trigger] x.entries_view()[i]).0
            == a.entries_view()[i].0 && x.entries_view()[i].1@ == a.entries_view()[i].1@
}

/// An indexed Bash array: its source literal and its ordered entries.
#[derive(Debug)]
pub struct BashArray {
    /// The literal the array was declared from.
    source: Vec<u8>,
    /// The `(index, value)` pairs, in the shell's iteration order.
    content: Vec<(i32, BashString)>,
}

/// The sources of the values of `es`, joined by single spaces.
pub open spec fn joined_sources(es: Seq<(i32, BashString)>) -> Seq<u8>
    decreases es.len(),
{
    if es.len() == 0 {
        Seq::empty()
    } else if es.len() == 1 {
        es[0].1.source_view()
    } else {
        joined_sources(es.drop_last()) + seq![32u8] + es.last().1.source_view()
    }
}

/// The display of an array: the joined sources of its values between
/// parentheses, as the shell would accept them back.
pub open spec fn display_form_spec(es: Seq<(i32, BashString)>) -> Seq<u8> {
    seq![40u8] + joined_sources(es) + seq![41u8]
}

/// The joined sources of the values of `entries`.
fn joined_sources_of(entries: &Vec<(i32, BashString)>) -> (r: Vec<u8>)
    ensures
        r@ == joined_sources(entries@),
{
    let mut out: Vec<u8> = Vec::new();
    let mut i: usize = 0;
    proof {
        assert(joined_sources(entries@.subrange(0, 0)) =~= Seq::<u8>::empty());
        assert(out@ =~= joined_sources(entries@.subrange(0, 0)));
    }
    while i < entries.len()
        invariant
            i <= entries@.len(),
            out@ == joined_sources(entries@.subrange(0, i as int)),
        decreases entries@.len() - i,
    {
        let ghost done = entries@.subrange(0, i as int);
        let ghost now = entries@.subrange(0, i + 1);
        proof {
            assert(now.drop_last() =~= done);
            assert(now.last() == entries@[i as int]);
        }
        if i > 0 {
            out.push(32);
        }
        let entry = &entries[i];
        push_all(&mut out, entry.1.source().as_slice());
        proof {
            if i == 0 {
                assert(now.len() == 1);
                assert(now[0] == entries@[0]);
                assert(out@ =~= joined_sources(now));
            } else {
                assert(out@ =~= joined_sources(now));
            }
        }
        i = i + 1;
    }
    proof {
        assert(entries@.subrange(0, entries@.len() as int) =~= entries@);
    }
    out
}

impl BashArray {
    /// The source literal, as a sequence.
    pub closed spec fn source_view(&self) -> Seq<u8> {
        self.source@
    }

    /// The entries, as a sequence.
    pub closed spec fn entries_view(&self) -> Seq<(i32, BashString)> {
        self.content@
    }

    /// Parse an array from its source literal. The outer shape is checked
    /// here — and that check alone decides rejection before the shell —
    /// while the entries come from the shell's own iteration of the
    /// declared array.
    pub fn new<O: ShellOracle>(oracle: &mut O, source: &[u8]) -> (r: Result<Self, Error>)
        ensures
            r is Ok ==> r->Ok_0.source_view() == source@,
            (r is Err && r->Err_0 is InvalidArraySource) <==> !is_array_source_spec(
                trim_spec(source@),
            ),
            r is Err ==> crate::shell::is_parse_error(r->Err_0),
    {
        let trimmed = crate::strings::trim_ascii(source);
        if !is_array_source(trimmed.as_slice()) {
            return Err(Error::InvalidArraySource { text: trimmed });
        }
        proof {
            reveal_strlit("declare -a ARR=");
            assert(vstd::string::is_ascii("declare -a ARR="));
            reveal_strlit(
                "\nfor KEY in \"${!ARR[@]}\"; do\n    printf '%q=%q\\n' \"$KEY\" \"${ARR[$KEY]}\"\ndone",
            );
            assert(vstd::string::is_ascii(
                "\nfor KEY in \"${!ARR[@]}\"; do\n    printf '%q=%q\\n' \"$KEY\" \"${ARR[$KEY]}\"\ndone",
            ));
        }
        let mut command = lit_bytes("declare -a ARR=");
        push_all(&mut command, trimmed.as_slice());
        let tail = lit_bytes(
            "\nfor KEY in \"${!ARR[@]}\"; do\n    printf '%q=%q\\n' \"$KEY\" \"${ARR[$KEY]}\"\ndone",
        );
        push_all(&mut command, tail.as_slice());
        proof {
            assert(command@ =~= array_entries_script_spec(trim_spec(source@)));
        }
        let out = match crate::shell::rbash(oracle, command.as_slice()) {
            Ok(out) => out,
            Err(e) => {
                proof {
                    assert(!(e is InvalidArraySource));
                }
                return Err(e);
            },
        };
        let content = match parse_entry_lines(oracle, out.as_slice()) {
            Ok(content) => content,
            Err(e) => {
                proof {
                    assert(!(e is InvalidArraySource));
                }
                return Err(e);
            },
        };
        Ok(BashArray { source: vstd::slice::slice_to_vec(source), content })
    }

    /// The source literal of the array.
    pub fn source(&self) -> (r: &Vec<u8>)
        ensures
            r@ == self.source_view(),
    {
        &self.source
    }

    /// The `(index, value)` entries, in order.
    pub fn entries(&self) -> (r: &Vec<(i32, BashString)>)
        ensures
            r@ == self.entries_view(),
    {
        &self.content
    }

    /// The indices of the array, in order.
    pub fn keys(&self) -> (r: Vec<i32>)
        ensures
            r@.len() == self.entries_view().len(),
            forall|i: int| 0 <= i < r@.len() ==> r@[i] == self.entries_view()[i].0,
    {
        let mut out: Vec<i32> = Vec::new();
        let mut i: usize = 0;
        while i < self.content.len()
            invariant
                i <= self.content@.len(),
                self.content@ == self.entries_view(),
                out@.len() == i,
                forall|k: int| 0 <= k < i ==> out@[k] == self.entries_view()[k].0,
            decreases self.content@.len() - i,
        {
            out.push(self.content[i].0);
            i = i + 1;
        }
        out
    }

    /// Copies of the values of the array, in order.
    pub fn values(&self) -> (r: Vec<BashString>)
        ensures
            r@.len() == self.entries_view().len(),
            forall|i: int|
                0 <= i < r@.len() ==> (#[trigger] r@[i])@ == self.entries_view()[i].1@ && r@[
                    i
                ].source_view() == self.entries_view()[i].1.source_view(),
    {
        let mut out: Vec<BashString> = Vec::new();
        let mut i: usize = 0;
        while i < self.content.len()
            invariant
                i <= self.content@.len(),
                self.content@ == self.entries_view(),
                out@.len() == i,
                forall|k: int|
                    0 <= k < i ==> (#[trigger] out@[k])@ == self.entries_view()[k].1@ && out@[
                        k
                    ].source_view() == self.entries_view()[k].1.source_view(),
            decreases self.content@.len() - i,
        {
            out.push(self.content[i].1.duplicate());
            i = i + 1;
        }
        out
    }

    /// The entries, consuming the array.
    pub fn into_entries(self) -> (r: Vec<(i32, BashString)>)
        ensures
            r@ == self.entries_view(),
    {
        self.content
    }

    /// The values in order, consuming the array.
    pub fn into_values(self) -> (r: Vec<BashString>)
        ensures
            r@.len() == self.entries_view().len(),
            forall|i: int|
                0 <= i < r@.len() ==> (#[trigger] r@[i])@ == self.entries_view()[i].1@ && r@[
                    i
                ].source_view() == self.entries_view()[i].1.source_view(),
    {
        let ghost es = self.entries_view();
        let mut rest = self.content;
        let mut out: Vec<BashString> = Vec::new();
        while rest.len() > 0
            invariant
                out@.len() + rest@.len() == es.len(),
                forall|k: int| 0 <= k < rest@.len() ==> rest@[k] == es[out@.len() + k],
                forall|k: int|
                    0 <= k < out@.len() ==> (#[trigger] out@[k])@ == es[k].1@ && out@[
                        k
                    ].source_view() == es[k].1.source_view(),
            decreases rest@.len(),
        {
            let entry = rest.remove(0);
            proof {
                assert(entry == es[out@.len() as int]);
            }
            out.push(entry.1);
        }
        out
    }

    /// The array as a scalar whose quoted form is the array literal; in
    /// Bash, referencing an array unindexed yields its first element, and
    /// the shell resolves that on evaluation.
    pub fn to_bash_string<O: ShellOracle>(&self, oracle: &mut O) -> (r: Result<BashString, Error>)
        ensures
            r is Ok ==> r->Ok_0.source_view() == self.source_view(),
    {
        BashString::from_escaped(oracle, self.source.as_slice())
    }

    /// All values joined by single spaces, as `${ARRAY[*]}` joins them
    /// under the default field separator; the shell does the joining.
    pub fn to_concatenated_string<O: ShellOracle>(&self, oracle: &mut O) -> (r: Result<
        BashString,
        Error,
    >)
        ensures
            r is Err ==> !(r->Err_0 is MissingPresets),
    {
        proof {
            reveal_strlit("declare -a ARRAY=");
            assert(vstd::string::is_ascii("declare -a ARRAY="));
            reveal_strlit("\nOUTPUT=\"${ARRAY[*]}\"");
            assert(vstd::string::is_ascii("\nOUTPUT=\"${ARRAY[*]}\""));
        }
        let mut command = lit_bytes("declare -a ARRAY=");
        push_all(&mut command, self.source.as_slice());
        let tail = lit_bytes("\nOUTPUT=\"${ARRAY[*]}\"");
        push_all(&mut command, tail.as_slice());
        proof {
            assert(command@ =~= array_concat_script_spec(self.source_view()));
        }
        let output = match crate::shell::rbash_with_output(oracle, command.as_slice()) {
            Ok(output) => output,
            Err(e) => {
                return Err(e);
            },
        };
        BashString::from_escaped(oracle, output.as_slice())
    }

    /// The array in display form: the values' sources between parentheses.
    pub fn display_form(&self) -> (r: Vec<u8>)
        ensures
            r@ == display_form_spec(self.entries_view()),
    {
        let mut out: Vec<u8> = Vec::new();
        out.push(40);
        let joined = joined_sources_of(&self.content);
        push_all(&mut out, joined.as_slice());
        out.push(41);
        proof {
            assert(out@ =~= display_form_spec(self.entries_view()));
        }
        out
    }

    /// Quote every value afresh and rebuild the source from the new
    /// quotings: indices and raw bytes are kept exactly, the literal
    /// becomes the display form of the re-quoted values.
    pub fn reescape<O: ShellOracle>(&self, oracle: &mut O) -> (r: Result<Self, Error>)
        ensures
            r is Ok ==> {
                let a = r->Ok_0;
                &&& a.entries_view().len() == self.entries_view().len()
                &&& forall|i: int|
                    0 <= i < a.entries_view().len() ==> (#[trigger] a.entries_view()[i]).0
                        == self.entries_view()[i].0 && a.entries_view()[i].1@
                        == self.entries_view()[i].1@
                &&& a.source_view() == display_form_spec(a.entries_view())
            },
            r is Err ==> r->Err_0 is Context,
    {
        let mut content: Vec<(i32, BashString)> = Vec::new();
        let mut i: usize = 0;
        while i < self.content.len()
            invariant
                i <= self.content@.len(),
                self.content@ == self.entries_view(),
                content@.len() == i,
                forall|k: int|
                    0 <= k < i ==> (#[trigger] content@[k]).0 == self.entries_view()[k].0
                        && content@[k].1@ == self.entries_view()[k].1@,
            decreases self.content@.len() - i,
        {
            let entry = &self.content[i];
            let value = match entry.1.reescape(oracle) {
                Ok(value) => value,
                Err(e) => {
                    return Err(e);
                },
            };
            content.push((entry.0, value));
            i = i + 1;
        }
        let source = {
            let mut out: Vec<u8> = Vec::new();
            out.push(40);
            let joined = joined_sources_of(&content);
            push_all(&mut out, joined.as_slice());
            out.push(41);
            proof {
                assert(out@ =~= display_form_spec(content@));
            }
            out
        };
        Ok(BashArray { source, content })
    }
}

impl PartialEq for BashArray {
    /// Two arrays are equal when they hold the same indices and the same
    /// raw bytes, entry by entry; the source literal is a rendering, not
    /// part of the value.
    fn eq(&self, other: &Self) -> (r: bool) {
        if self.content.len() != other.content.len() {
            return false;
        }
        let n = self.content.len();
        let mut i: usize = 0;
        while i < n
            invariant
                i <= n,
                n == self.entries_view().len() == other.entries_view().len(),
                self.content@ == self.entries_view(),
                other.content@ == other.entries_view(),
                forall|k: int|
                    0 <= k < i ==> (#[trigger] self.entries_view()[k]).0
                        == other.entries_view()[k].0 && self.entries_view()[k].1@
                        == other.entries_view()[k].1@,
            decreases n - i,
        {
            let ours = &self.content[i];
            let theirs = &other.content[i];
            if ours.0 != theirs.0 {
                proof {
                    assert(self.entries_view()[i as int].0 != other.entries_view()[i as int].0);
                }
                return false;
            }
            if !crate::strings::bytes_eq(
                ours.1.as_raw().as_slice(),
                theirs.1.as_raw().as_slice(),
            ) {
                proof {
                    assert(self.entries_view()[i as int].1@ != other.entries_view()[i as int].1@);
                }
                return false;
            }
            i = i + 1;
        }
        proof {
            assert(same_array(*self, *other));
        }
        true
    }
}

impl vstd::std_specs::cmp::PartialEqSpecImpl for BashArray {
    open spec fn obeys_eq_spec() -> bool {
        true
    }

    open spec fn eq_spec(&self, other: &Self) -> bool {
        same_array(*self, *other)
    }
}

} // verus!
