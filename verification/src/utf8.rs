//! UTF-8 chunk scanning over raw bytes.
//!
//! Shell output is arbitrary bytes. This module decides where the valid
//! UTF-8 runs are, and renders byte strings either lossily (each maximal
//! invalid run becomes one replacement character) or with every invalid
//! byte written as a hexadecimal escape.

use vstd::prelude::*;

use crate::strings::hex_pair;

verus! {

/// Whether `b` has the shape of a UTF-8 continuation byte.
pub open spec fn is_cont(b: u8) -> bool {
    0x80 <= b <= 0xbf
}

/// Whether `b` opens a three-byte encoding.
pub open spec fn is_lead3(b: u8) -> bool {
    0xe0 <= b <= 0xef
}

/// Whether `b` opens a four-byte encoding.
pub open spec fn is_lead4(b: u8) -> bool {
    0xf0 <= b <= 0xf4
}

/// The admissible second byte after the three-byte lead `b0`, which rules
/// out overlong encodings and surrogates.
pub open spec fn ok_second3(b0: u8, b1: u8) -> bool {
    if b0 == 0xe0 {
        0xa0 <= b1 <= 0xbf
    } else if b0 == 0xed {
        0x80 <= b1 <= 0x9f
    } else {
        is_cont(b1)
    }
}

/// The admissible second byte after the four-byte lead `b0`, which rules
/// out overlong encodings and values past the last scalar.
pub open spec fn ok_second4(b0: u8, b1: u8) -> bool {
    if b0 == 0xf0 {
        0x90 <= b1 <= 0xbf
    } else if b0 == 0xf4 {
        0x80 <= b1 <= 0x8f
    } else {
        is_cont(b1)
    }
}

/// Length of the valid encoding of one character at the front of `s`,
/// or `0` when `s` does not start with one.
pub open spec fn valid_char_len(s: Seq<u8>) -> int {
    if s.len() >= 1 && s[0] < 0x80 {
        1
    } else if s.len() >= 2 && 0xc2 <= s[0] <= 0xdf && is_cont(s[1]) {
        2
    } else if s.len() >= 3 && is_lead3(s[0]) && ok_second3(s[0], s[1]) && is_cont(s[2]) {
        3
    } else if s.len() >= 4 && is_lead4(s[0]) && ok_second4(s[0], s[1]) && is_cont(s[2]) && is_cont(
        s[3],
    ) {
        4
    } else {
        0
    }
}

/// Length of the maximal invalid run at the front of `s`: the longest
/// proper prefix of some valid encoding, and a single byte otherwise.
pub open spec fn invalid_run_len(s: Seq<u8>) -> int
    recommends
        s.len() > 0,
        valid_char_len(s) == 0,
{
    if s.len() >= 2 && is_lead3(s[0]) && ok_second3(s[0], s[1]) {
        2
    } else if s.len() >= 2 && is_lead4(s[0]) && ok_second4(s[0], s[1]) {
        if s.len() >= 3 && is_cont(s[2]) {
            3
        } else {
            2
        }
    } else {
        1
    }
}

/// The three bytes that encode the replacement character.
pub open spec fn replacement_bytes() -> Seq<u8> {
    seq![0xefu8, 0xbfu8, 0xbdu8]
}

/// Whether `s` is valid UTF-8 from start to end.
pub open spec fn valid_utf8_seq(s: Seq<u8>) -> bool
    decreases s.len(),
{
    if s.len() == 0 {
        true
    } else if valid_char_len(s) > 0 {
        valid_utf8_seq(s.subrange(valid_char_len(s), s.len() as int))
    } else {
        false
    }
}

/// `s` with each maximal invalid run replaced by the replacement character.
pub open spec fn lossy_utf8_spec(s: Seq<u8>) -> Seq<u8>
    decreases s.len(),
{
    if s.len() == 0 {
        Seq::empty()
    } else if valid_char_len(s) > 0 {
        s.subrange(0, valid_char_len(s)) + lossy_utf8_spec(
            s.subrange(valid_char_len(s), s.len() as int),
        )
    } else {
        replacement_bytes() + lossy_utf8_spec(s.subrange(invalid_run_len(s), s.len() as int))
    }
}

/// `\xHH` escapes, one for each byte of `s`.
pub open spec fn hex_escape_run(s: Seq<u8>) -> Seq<u8>
    decreases s.len(),
{
    if s.len() == 0 {
        Seq::empty()
    } else {
        seq![92u8, 120u8] + hex_pair(s[0]) + hex_escape_run(s.drop_first())
    }
}

/// `s` with every byte of an invalid run written as a `\xHH` escape.
pub open spec fn escaped_utf8_spec(s: Seq<u8>) -> Seq<u8>
    decreases s.len(),
{
    if s.len() == 0 {
        Seq::empty()
    } else if valid_char_len(s) > 0 {
        s.subrange(0, valid_char_len(s)) + escaped_utf8_spec(
            s.subrange(valid_char_len(s), s.len() as int),
        )
    } else {
        hex_escape_run(s.subrange(0, invalid_run_len(s))) + escaped_utf8_spec(
            s.subrange(invalid_run_len(s), s.len() as int),
        )
    }
}

/// Scan one step at offset `i`: whether a valid character starts there and
/// how many bytes the step covers.
fn utf8_step(s: &[u8], i: usize) -> (r: (bool, usize))
    requires
        i < s@.len(),
    ensures
        ({
            let suf = s@.subrange(i as int, s@.len() as int);
            &&& r.0 == (valid_char_len(suf) > 0)
            &&& (r.0 ==> r.1 == valid_char_len(suf))
            &&& (!r.0 ==> r.1 == invalid_run_len(suf))
            &&& 1 <= r.1
            &&& i + r.1 <= s@.len()
        }),
{
    let ghost suf = s@.subrange(i as int, s@.len() as int);
    proof {
        assert(suf.len() == s@.len() - i);
        assert forall|k: int| 0 <= k < suf.len() implies suf[k] == s@[i + k] by {}
    }
    let n = s.len();
    let b0 = s[i];
    if b0 < 0x80 {
        (true, 1)
    } else if 0xc2 <= b0 && b0 <= 0xdf {
        if i + 1 < n && is_cont_exec(s[i + 1]) {
            (true, 2)
        } else {
            (false, 1)
        }
    } else if 0xe0 <= b0 && b0 <= 0xef {
        if i + 1 < n && ok_second3_exec(b0, s[i + 1]) {
            if i + 2 < n && is_cont_exec(s[i + 2]) {
                (true, 3)
            } else {
                (false, 2)
            }
        } else {
            (false, 1)
        }
    } else if 0xf0 <= b0 && b0 <= 0xf4 {
        if i + 1 < n && ok_second4_exec(b0, s[i + 1]) {
            if i + 2 < n && is_cont_exec(s[i + 2]) {
                if i + 3 < n && is_cont_exec(s[i + 3]) {
                    (true, 4)
                } else {
                    (false, 3)
                }
            } else {
                (false, 2)
            }
        } else {
            (false, 1)
        }
    } else {
        (false, 1)
    }
}

/// Whether `b` has the shape of a continuation byte.
fn is_cont_exec(b: u8) -> (r: bool)
    ensures
        r == is_cont(b),
{
    0x80 <= b && b <= 0xbf
}

/// The admissible second byte after the three-byte lead `b0`.
fn ok_second3_exec(b0: u8, b1: u8) -> (r: bool)
    ensures
        r == ok_second3(b0, b1),
{
    if b0 == 0xe0 {
        0xa0 <= b1 && b1 <= 0xbf
    } else if b0 == 0xed {
        0x80 <= b1 && b1 <= 0x9f
    } else {
        is_cont_exec(b1)
    }
}

/// The admissible second byte after the four-byte lead `b0`.
fn ok_second4_exec(b0: u8, b1: u8) -> (r: bool)
    ensures
        r == ok_second4(b0, b1),
{
    if b0 == 0xf0 {
        0x90 <= b1 && b1 <= 0xbf
    } else if b0 == 0xf4 {
        0x80 <= b1 && b1 <= 0x8f
    } else {
        is_cont_exec(b1)
    }
}

/// Whether `bytes` is valid UTF-8 in full.
pub fn is_utf8(bytes: &[u8]) -> (r: bool)
    ensures
        r == valid_utf8_seq(bytes@),
{
    let n = bytes.len();
    let mut i: usize = 0;
    proof {
        assert(bytes@.subrange(0, n as int) =~= bytes@);
    }
    loop
        invariant_except_break
            valid_utf8_seq(bytes@) == valid_utf8_seq(bytes@.subrange(i as int, n as int)),
        invariant
            i <= n,
            n == bytes@.len(),
        ensures
            valid_utf8_seq(bytes@),
        decreases n - i,
    {
        if i == n {
            proof {
                assert(bytes@.subrange(i as int, n as int).len() == 0);
            }
            break;
        }
        let (valid, len) = utf8_step(bytes, i);
        if !valid {
            proof {
                assert(!valid_utf8_seq(bytes@.subrange(i as int, n as int)));
            }
            return false;
        }
        let ghost suf = bytes@.subrange(i as int, n as int);
        proof {
            assert(valid_utf8_seq(suf) == valid_utf8_seq(
                suf.subrange(valid_char_len(suf), suf.len() as int),
            ));
            assert(suf.subrange(valid_char_len(suf), suf.len() as int) =~= bytes@.subrange(
                i + len,
                n as int,
            ));
        }
        i = i + len;
    }
    true
}

/// `bytes` as UTF-8 text with each maximal invalid run shown as the
/// replacement character, as `String::from_utf8_lossy` would render it.
pub fn utf8_lossy(bytes: &[u8]) -> (r: Vec<u8>)
    ensures
        r@ == lossy_utf8_spec(bytes@),
{
    let n = bytes.len();
    let mut out: Vec<u8> = Vec::new();
    let mut i: usize = 0;
    proof {
        assert(bytes@.subrange(0, n as int) =~= bytes@);
        assert(lossy_utf8_spec(bytes@) =~= out@ + lossy_utf8_spec(bytes@));
    }
    while i < n
        invariant
            i <= n,
            n == bytes@.len(),
            lossy_utf8_spec(bytes@) == out@ + lossy_utf8_spec(bytes@.subrange(i as int, n as int)),
        decreases n - i,
    {
        let ghost suf = bytes@.subrange(i as int, n as int);
        let (valid, len) = utf8_step(bytes, i);
        let ghost prev = out@;
        if valid {
            let part = vstd::slice::slice_subrange(bytes, i, i + len);
            crate::strings::push_all(&mut out, part);
            proof {
                assert(part@ =~= suf.subrange(0, valid_char_len(suf)));
            }
        } else {
            out.push(0xef);
            out.push(0xbf);
            out.push(0xbd);
            proof {
                assert(out@ =~= prev + replacement_bytes());
            }
        }
        proof {
            assert(suf.subrange(len as int, suf.len() as int) =~= bytes@.subrange(
                i + len,
                n as int,
            ));
            assert(lossy_utf8_spec(bytes@) =~= out@ + lossy_utf8_spec(
                bytes@.subrange(i + len, n as int),
            ));
        }
        i = i + len;
    }
    proof {
        assert(bytes@.subrange(n as int, n as int).len() == 0);
        assert(lossy_utf8_spec(bytes@) =~= out@);
    }
    out
}

/// `bytes` as UTF-8 text with every byte of an invalid run written as a
/// `\xHH` escape, upper-case digits.
pub fn utf8_escaped(bytes: &[u8]) -> (r: Vec<u8>)
    ensures
        r@ == escaped_utf8_spec(bytes@),
{
    let n = bytes.len();
    let mut out: Vec<u8> = Vec::new();
    let mut i: usize = 0;
    proof {
        assert(bytes@.subrange(0, n as int) =~= bytes@);
        assert(escaped_utf8_spec(bytes@) =~= out@ + escaped_utf8_spec(bytes@));
    }
    while i < n
        invariant
            i <= n,
            n == bytes@.len(),
            escaped_utf8_spec(bytes@) == out@ + escaped_utf8_spec(
                bytes@.subrange(i as int, n as int),
            ),
        decreases n - i,
    {
        let ghost suf = bytes@.subrange(i as int, n as int);
        let (valid, len) = utf8_step(bytes, i);
        let ghost prev = out@;
        if valid {
            let part = vstd::slice::slice_subrange(bytes, i, i + len);
            crate::strings::push_all(&mut out, part);
            proof {
                assert(part@ =~= suf.subrange(0, valid_char_len(suf)));
            }
        } else {
            let part = vstd::slice::slice_subrange(bytes, i, i + len);
            let run = hex_escape_bytes(part);
            crate::strings::push_all(&mut out, run.as_slice());
            proof {
                assert(part@ =~= suf.subrange(0, invalid_run_len(suf)));
            }
        }
        proof {
            assert(suf.subrange(len as int, suf.len() as int) =~= bytes@.subrange(
                i + len,
                n as int,
            ));
            assert(escaped_utf8_spec(bytes@) =~= out@ + escaped_utf8_spec(
                bytes@.subrange(i + len, n as int),
            ));
        }
        i = i + len;
    }
    proof {
        assert(bytes@.subrange(n as int, n as int).len() == 0);
        assert(escaped_utf8_spec(bytes@) =~= out@);
    }
    out
}

/// `\xHH` escapes, one for each byte of `seg`, upper-case digits.
pub fn hex_escape_bytes(seg: &[u8]) -> (r: Vec<u8>)
    ensures
        r@ == hex_escape_run(seg@),
{
    let n = seg.len();
    let mut out: Vec<u8> = Vec::new();
    let mut j: usize = 0;
    proof {
        assert(seg@.subrange(0, 0) =~= Seq::<u8>::empty());
        assert(hex_escape_run(seg@.subrange(0, 0)) =~= Seq::<u8>::empty());
        assert(out@ =~= hex_escape_run(seg@.subrange(0, 0)));
    }
    while j < n
        invariant
            j <= n,
            n == seg@.len(),
            out@ == hex_escape_run(seg@.subrange(0, j as int)),
        decreases n - j,
    {
        out.push(92);
        out.push(120);
        let pair = crate::strings::repr_hex(seg[j]);
        crate::strings::push_all(&mut out, pair.as_slice());
        proof {
            lemma_hex_escape_snoc(seg@, j as int);
            assert(out@ =~= hex_escape_run(seg@.subrange(0, j + 1)));
        }
        j = j + 1;
    }
    proof {
        assert(seg@.subrange(0, n as int) =~= seg@);
    }
    out
}

/// Numeral for a value below 16: `0`-`9` then `a`-`f`.
pub open spec fn lhex_digit(n: u8) -> u8
    recommends
        n < 16,
{
    if n < 10 {
        (48 + n) as u8
    } else {
        (87 + n) as u8
    }
}

/// The lower-case hexadecimal numerals of `v`, most significant first.
pub open spec fn lhex_digits(v: nat) -> Seq<u8>
    decreases v,
{
    if v < 16 {
        seq![lhex_digit(v as u8)]
    } else {
        lhex_digits(v / 16) + seq![lhex_digit((v % 16) as u8)]
    }
}

/// The scalar value of one validly encoded character.
pub open spec fn codepoint_of(c: Seq<u8>) -> u32
    recommends
        valid_char_len(c) == c.len(),
        1 <= c.len() <= 4,
{
    if c.len() == 1 {
        c[0] as u32
    } else if c.len() == 2 {
        ((c[0] - 0xc0) * 0x40 + (c[1] - 0x80)) as u32
    } else if c.len() == 3 {
        ((c[0] - 0xe0) * 0x1000 + (c[1] - 0x80) * 0x40 + (c[2] - 0x80)) as u32
    } else {
        ((c[0] - 0xf0) * 0x40000 + (c[1] - 0x80) * 0x1000 + (c[2] - 0x80) * 0x40 + (c[3]
            - 0x80)) as u32
    }
}

/// The codepoints a byte-string literal shows as `\u{h}` escapes: the
/// control bytes, the further control block up to U+009F, the format
/// characters, and the line and paragraph separators. Unassigned and
/// private-use codepoints are kept verbatim.
pub open spec fn is_escaped_codepoint(cp: u32) -> bool {
    ||| cp < 0x20
    ||| cp == 0x7f
    ||| (0x80 <= cp <= 0x9f)
    ||| cp == 0xad
    ||| (0x600 <= cp <= 0x605)
    ||| cp == 0x61c
    ||| cp == 0x6dd
    ||| cp == 0x70f
    ||| (0x890 <= cp <= 0x891)
    ||| cp == 0x8e2
    ||| cp == 0x180e
    ||| (0x200b <= cp <= 0x200f)
    ||| (0x2028 <= cp <= 0x202e)
    ||| (0x2060 <= cp <= 0x2064)
    ||| (0x2066 <= cp <= 0x206f)
    ||| cp == 0xfeff
    ||| (0xfff9 <= cp <= 0xfffb)
    ||| cp == 0x110bd
    ||| cp == 0x110cd
    ||| (0x13430 <= cp <= 0x1343f)
    ||| (0x1bca0 <= cp <= 0x1bca3)
    ||| (0x1d173 <= cp <= 0x1d17a)
    ||| cp == 0xe0001
    ||| (0xe0020 <= cp <= 0xe007f)
}

/// The `\u{h}` escape of the codepoint `cp`: lower-case digits, no
/// padding.
pub open spec fn u_escape(cp: u32) -> Seq<u8> {
    seq![92u8, 117u8, 123u8] + lhex_digits(cp as nat) + seq![125u8]
}

/// How one validly encoded character appears inside a byte-string literal:
/// the named escapes for NUL, tab, line feed, carriage return, both quotes
/// and the backslash; a `\u{h}` escape for every other codepoint of
/// [`is_escaped_codepoint`]; the bytes themselves for everything else.
pub open spec fn repr_valid_char(c: Seq<u8>) -> Seq<u8> {
    if c.len() == 1 {
        let b = c[0];
        if b == 0 {
            seq![92u8, 48u8]
        } else if b == 9 {
            seq![92u8, 116u8]
        } else if b == 10 {
            seq![92u8, 110u8]
        } else if b == 13 {
            seq![92u8, 114u8]
        } else if b == 34 {
            seq![92u8, 34u8]
        } else if b == 39 {
            seq![92u8, 39u8]
        } else if b == 92 {
            seq![92u8, 92u8]
        } else if is_escaped_codepoint(b as u32) {
            u_escape(b as u32)
        } else {
            c
        }
    } else if is_escaped_codepoint(codepoint_of(c)) {
        u_escape(codepoint_of(c))
    } else {
        c
    }
}

/// The inside of the byte-string literal for `s`: valid characters as
/// [`repr_valid_char`] shows them, invalid bytes as `\xHH` escapes.
pub open spec fn repr_content(s: Seq<u8>) -> Seq<u8>
    decreases s.len(),
{
    if s.len() == 0 {
        Seq::empty()
    } else if valid_char_len(s) > 0 {
        repr_valid_char(s.subrange(0, valid_char_len(s))) + repr_content(
            s.subrange(valid_char_len(s), s.len() as int),
        )
    } else {
        hex_escape_run(s.subrange(0, invalid_run_len(s))) + repr_content(
            s.subrange(invalid_run_len(s), s.len() as int),
        )
    }
}

/// `s` as a byte-string literal: `b"` then [`repr_content`] then `"`.
pub open spec fn repr_bytes_spec(s: Seq<u8>) -> Seq<u8> {
    seq![98u8, 34u8] + repr_content(s) + seq![34u8]
}

/// Numeral for a value below 16, lower case.
fn lhex_digit_exec(n: u8) -> (r: u8)
    requires
        n < 16,
    ensures
        r == lhex_digit(n),
{
    if n < 10 {
        48 + n
    } else {
        87 + n
    }
}

/// Whether a byte-string literal shows `cp` as a `\u{h}` escape.
fn is_escaped_cp(cp: u32) -> (r: bool)
    ensures
        r == is_escaped_codepoint(cp),
{
    cp < 0x20 || cp == 0x7f || (0x80 <= cp && cp <= 0x9f) || cp == 0xad || (0x600 <= cp && cp
        <= 0x605) || cp == 0x61c || cp == 0x6dd || cp == 0x70f || (0x890 <= cp && cp <= 0x891)
        || cp == 0x8e2 || cp == 0x180e || (0x200b <= cp && cp <= 0x200f) || (0x2028 <= cp && cp
        <= 0x202e) || (0x2060 <= cp && cp <= 0x2064) || (0x2066 <= cp && cp <= 0x206f) || cp
        == 0xfeff || (0xfff9 <= cp && cp <= 0xfffb) || cp == 0x110bd || cp == 0x110cd || (0x13430
        <= cp && cp <= 0x1343f) || (0x1bca0 <= cp && cp <= 0x1bca3) || (0x1d173 <= cp && cp
        <= 0x1d17a) || cp == 0xe0001 || (0xe0020 <= cp && cp <= 0xe007f)
}

/// Append the lower-case hexadecimal numerals of `v` to `out`.
fn push_lhex_u32(out: &mut Vec<u8>, v: u32)
    ensures
        final(out)@ == old(out)@ + lhex_digits(v as nat),
    decreases v,
{
    if v < 16 {
        out.push(lhex_digit_exec(v as u8));
        assert(final(out)@ =~= old(out)@ + lhex_digits(v as nat));
    } else {
        push_lhex_u32(out, v / 16);
        out.push(lhex_digit_exec((v % 16) as u8));
        assert(final(out)@ =~= old(out)@ + lhex_digits(v as nat));
    }
}

/// Append the `\u{h}` escape of `cp` to `out`.
fn push_u_escape(out: &mut Vec<u8>, cp: u32)
    ensures
        final(out)@ == old(out)@ + u_escape(cp),
{
    out.push(92);
    out.push(117);
    out.push(123);
    push_lhex_u32(out, cp);
    out.push(125);
    assert(final(out)@ =~= old(out)@ + u_escape(cp));
}

/// `bytes` as source text for a byte-string literal, escaping what a
/// literal cannot hold verbatim.
pub fn repr_byte_str(bytes: &[u8]) -> (r: Vec<u8>)
    ensures
        r@ == repr_bytes_spec(bytes@),
{
    let n = bytes.len();
    let mut out: Vec<u8> = Vec::new();
    out.push(98);
    out.push(34);
    let mut i: usize = 0;
    proof {
        assert(bytes@.subrange(0, n as int) =~= bytes@);
        assert(out@ =~= seq![98u8, 34u8]);
        assert(seq![98u8, 34u8] + repr_content(bytes@) =~= out@ + repr_content(
            bytes@.subrange(0, n as int),
        ));
    }
    while i < n
        invariant
            i <= n,
            n == bytes@.len(),
            seq![98u8, 34u8] + repr_content(bytes@) == out@ + repr_content(
                bytes@.subrange(i as int, n as int),
            ),
        decreases n - i,
    {
        let ghost suf = bytes@.subrange(i as int, n as int);
        let (valid, len) = utf8_step(bytes, i);
        let ghost prev = out@;
        if valid {
            let ghost chunk = suf.subrange(0, valid_char_len(suf));
            if len == 1 {
                let b = bytes[i];
                proof {
                    assert(chunk =~= seq![b]);
                }
                if b == 0 {
                    out.push(92);
                    out.push(48);
                } else if b == 9 {
                    out.push(92);
                    out.push(116);
                } else if b == 10 {
                    out.push(92);
                    out.push(110);
                } else if b == 13 {
                    out.push(92);
                    out.push(114);
                } else if b == 34 {
                    out.push(92);
                    out.push(34);
                } else if b == 39 {
                    out.push(92);
                    out.push(39);
                } else if b == 92 {
                    out.push(92);
                    out.push(92);
                } else if is_escaped_cp(b as u32) {
                    push_u_escape(&mut out, b as u32);
                } else {
                    out.push(b);
                }
                proof {
                    assert(out@ =~= prev + repr_valid_char(chunk));
                }
            } else {
                let b0 = bytes[i];
                let b1 = bytes[i + 1];
                proof {
                    assert(chunk.len() == len);
                    assert(chunk[0] == bytes@[i as int]);
                    assert(chunk[1] == bytes@[i + 1]);
                    if len >= 3 {
                        assert(chunk[2] == bytes@[i + 2]);
                    }
                    if len == 4 {
                        assert(chunk[3] == bytes@[i + 3]);
                    }
                    assert(valid_char_len(chunk) == len);
                }
                let cp: u32 = if len == 2 {
                    ((b0 - 0xc0) as u32) * 0x40 + ((b1 - 0x80) as u32)
                } else if len == 3 {
                    let b2 = bytes[i + 2];
                    ((b0 - 0xe0) as u32) * 0x1000 + ((b1 - 0x80) as u32) * 0x40 + ((b2
                        - 0x80) as u32)
                } else {
                    let b2 = bytes[i + 2];
                    let b3 = bytes[i + 3];
                    ((b0 - 0xf0) as u32) * 0x40000 + ((b1 - 0x80) as u32) * 0x1000 + ((b2
                        - 0x80) as u32) * 0x40 + ((b3 - 0x80) as u32)
                };
                proof {
                    assert(cp == codepoint_of(chunk));
                }
                if is_escaped_cp(cp) {
                    push_u_escape(&mut out, cp);
                    proof {
                        assert(out@ =~= prev + repr_valid_char(chunk));
                    }
                } else {
                    let part = vstd::slice::slice_subrange(bytes, i, i + len);
                    crate::strings::push_all(&mut out, part);
                    proof {
                        assert(part@ =~= chunk);
                        assert(repr_valid_char(chunk) == chunk);
                        assert(out@ =~= prev + repr_valid_char(chunk));
                    }
                }
            }
        } else {
            let part = vstd::slice::slice_subrange(bytes, i, i + len);
            let run = hex_escape_bytes(part);
            crate::strings::push_all(&mut out, run.as_slice());
            proof {
                assert(part@ =~= suf.subrange(0, invalid_run_len(suf)));
            }
        }
        proof {
            assert(suf.subrange(len as int, suf.len() as int) =~= bytes@.subrange(
                i + len,
                n as int,
            ));
            assert(seq![98u8, 34u8] + repr_content(bytes@) =~= out@ + repr_content(
                bytes@.subrange(i + len, n as int),
            ));
        }
        i = i + len;
    }
    out.push(34);
    proof {
        assert(bytes@.subrange(n as int, n as int).len() == 0);
        assert(repr_content(bytes@.subrange(n as int, n as int)) =~= Seq::<u8>::empty());
        assert(out@ =~= repr_bytes_spec(bytes@));
    }
    out
}

/// Extending a run by one byte appends one `\xHH` escape.
proof fn lemma_hex_escape_snoc(s: Seq<u8>, j: int)
    requires
        0 <= j < s.len(),
    ensures
        hex_escape_run(s.subrange(0, j + 1)) == hex_escape_run(s.subrange(0, j)) + seq![
            92u8,
            120u8,
        ] + hex_pair(s[j]),
    decreases j,
{
    if j == 0 {
        let one = s.subrange(0, 1);
        assert(one[0] == s[0]);
        assert(one.drop_first() =~= Seq::<u8>::empty());
        assert(hex_escape_run(one.drop_first()) =~= Seq::<u8>::empty());
        assert(hex_escape_run(s.subrange(0, 0)) =~= Seq::<u8>::empty());
        assert(hex_escape_run(one) =~= hex_escape_run(s.subrange(0, 0)) + seq![92u8, 120u8]
            + hex_pair(s[0]));
    } else {
        let a = s.subrange(0, j + 1);
        let b = s.subrange(0, j);
        assert(a[0] == s[0] && b[0] == s[0]);
        let t = s.drop_first();
        lemma_hex_escape_snoc(t, j - 1);
        assert(a.drop_first() =~= t.subrange(0, j));
        assert(b.drop_first() =~= t.subrange(0, j - 1));
        assert(t[j - 1] == s[j]);
        assert(hex_escape_run(a) == seq![92u8, 120u8] + hex_pair(s[0]) + hex_escape_run(
            t.subrange(0, j),
        ));
        assert(hex_escape_run(b) == seq![92u8, 120u8] + hex_pair(s[0]) + hex_escape_run(
            t.subrange(0, j - 1),
        ));
        assert(hex_escape_run(a) =~= hex_escape_run(b) + seq![92u8, 120u8] + hex_pair(s[j]));
    }
}

} // verus!
