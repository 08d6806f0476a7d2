//! Utilities for byte strings: trimming, line splitting, and hexadecimal digits.
//!
//! The shell hands every value to this crate as plain bytes, so the basic text
//! operations are defined here over `Seq<u8>` and proved exact.

use vstd::prelude::*;

verus! {

/// The bytes that count as ASCII whitespace: space, tab, line feed,
/// form feed and carriage return.
pub open spec fn is_ascii_ws(b: u8) -> bool {
    b == 32u8 || b == 9u8 || b == 10u8 || b == 12u8 || b == 13u8
}

/// `s` with its leading ASCII whitespace removed.
pub open spec fn trim_front(s: Seq<u8>) -> Seq<u8>
    decreases s.len(),
{
    if s.len() > 0 && is_ascii_ws(s[0]) {
        trim_front(s.drop_first())
    } else {
        s
    }
}

/// `s` with its trailing ASCII whitespace removed.
pub open spec fn trim_back(s: Seq<u8>) -> Seq<u8>
    decreases s.len(),
{
    if s.len() > 0 && is_ascii_ws(s.last()) {
        trim_back(s.drop_last())
    } else {
        s
    }
}

/// `s` with leading and trailing ASCII whitespace removed.
pub open spec fn trim_spec(s: Seq<u8>) -> Seq<u8> {
    trim_back(trim_front(s))
}

/// Index of the first occurrence of `b` in `s`, or `-1` when `s` does not hold `b`.
pub open spec fn find_byte_spec(s: Seq<u8>, b: u8) -> int
    decreases s.len(),
{
    if s.len() == 0 {
        -1
    } else if s[0] == b {
        0
    } else if find_byte_spec(s.drop_first(), b) == -1 {
        -1
    } else {
        find_byte_spec(s.drop_first(), b) + 1
    }
}

/// `find_byte_spec` returns the least index holding `b`, or `-1` when there is none.
pub proof fn lemma_find_byte(s: Seq<u8>, b: u8)
    ensures
        find_byte_spec(s, b) == -1 ==> forall|i: int| 0 <= i < s.len() ==> s[i] != b,
        find_byte_spec(s, b) != -1 ==> {
            let f = find_byte_spec(s, b);
            &&& 0 <= f < s.len()
            &&& s[f] == b
            &&& forall|i: int| 0 <= i < f ==> s[i] != b
        },
    decreases s.len(),
{
    if s.len() > 0 && s[0] != b {
        let sub = s.drop_first();
        lemma_find_byte(sub, b);
        assert forall|i: int| 1 <= i < s.len() implies s[i] == sub[i - 1] by {}
        if find_byte_spec(s, b) == -1 {
            assert forall|i: int| 0 <= i < s.len() implies s[i] != b by {
                if i >= 1 {
                    assert(sub[i - 1] != b);
                }
            }
        } else {
            let f = find_byte_spec(s, b);
            assert(f == find_byte_spec(sub, b) + 1);
            assert(s[f] == sub[f - 1]);
            assert forall|i: int| 0 <= i < f implies s[i] != b by {
                if i >= 1 {
                    assert(sub[i - 1] != b);
                }
            }
        }
    }
}

/// The segments of `s` between occurrences of `b`; an empty `s` yields one empty segment.
pub open spec fn split_at_byte(s: Seq<u8>, b: u8) -> Seq<Seq<u8>>
    decreases s.len(),
{
    if s.len() == 0 {
        seq![s]
    } else if s[0] == b {
        seq![Seq::<u8>::empty()] + split_at_byte(s.drop_first(), b)
    } else {
        let rest = split_at_byte(s.drop_first(), b);
        seq![seq![s[0]] + rest[0]] + rest.drop_first()
    }
}

/// A split always yields at least one segment.
pub proof fn lemma_split_nonempty(s: Seq<u8>, b: u8)
    ensures
        split_at_byte(s, b).len() >= 1,
    decreases s.len(),
{
    if s.len() > 0 {
        lemma_split_nonempty(s.drop_first(), b);
    }
}

/// A split is one segment up to the first occurrence of `b`, then the split of the rest.
pub proof fn lemma_split_head(s: Seq<u8>, b: u8)
    ensures
        find_byte_spec(s, b) == -1 ==> split_at_byte(s, b) == seq![s],
        find_byte_spec(s, b) >= 0 ==> split_at_byte(s, b) == seq![
            s.subrange(0, find_byte_spec(s, b)),
        ] + split_at_byte(s.subrange(find_byte_spec(s, b) + 1, s.len() as int), b),
    decreases s.len(),
{
    lemma_find_byte(s, b);
    if s.len() == 0 {
    } else if s[0] == b {
        assert(find_byte_spec(s, b) == 0);
        assert(s.subrange(0, 0) =~= Seq::<u8>::empty());
        assert(s.subrange(1, s.len() as int) =~= s.drop_first());
    } else {
        let sub = s.drop_first();
        lemma_split_head(sub, b);
        lemma_split_nonempty(sub, b);
        lemma_find_byte(sub, b);
        let rest = split_at_byte(sub, b);
        let fsub = find_byte_spec(sub, b);
        if fsub == -1 {
            assert(find_byte_spec(s, b) == -1);
            assert(rest == seq![sub]);
            assert(rest[0] == sub);
            assert(seq![s[0]] + sub =~= s);
            assert(rest.drop_first() =~= Seq::<Seq<u8>>::empty());
            assert(split_at_byte(s, b) =~= seq![s]);
        } else {
            let f = find_byte_spec(s, b);
            assert(f == fsub + 1);
            assert(rest == seq![sub.subrange(0, fsub)] + split_at_byte(
                sub.subrange(fsub + 1, sub.len() as int),
                b,
            ));
            assert(rest[0] == sub.subrange(0, fsub));
            assert(seq![s[0]] + sub.subrange(0, fsub) =~= s.subrange(0, f));
            assert(rest.drop_first() =~= split_at_byte(sub.subrange(fsub + 1, sub.len() as int), b));
            assert(sub.subrange(fsub + 1, sub.len() as int) =~= s.subrange(f + 1, s.len() as int));
            assert(split_at_byte(s, b) =~= seq![s.subrange(0, f)] + split_at_byte(
                s.subrange(f + 1, s.len() as int),
                b,
            ));
        }
    }
}

/// The lines of `s` after trimming: split at line feeds, or no lines at all
/// when the trimmed text is empty.
pub open spec fn lines_spec(s: Seq<u8>) -> Seq<Seq<u8>> {
    let t = trim_spec(s);
    if t.len() == 0 {
        Seq::empty()
    } else {
        split_at_byte(t, 10u8)
    }
}

/// Numeral for a value below 16: `0`-`9` then `A`-`F`.
pub open spec fn hex_digit(n: u8) -> u8
    recommends
        n < 16,
{
    if n < 10 {
        (48 + n) as u8
    } else {
        (55 + n) as u8
    }
}

/// The two hexadecimal numerals of a byte, high digit first.
pub open spec fn hex_pair(b: u8) -> Seq<u8> {
    seq![hex_digit(b / 16), hex_digit(b % 16)]
}

/// The bytes of an ASCII character sequence, one byte per character.
pub open spec fn ascii_bytes(s: Seq<char>) -> Seq<u8> {
    Seq::new(s.len(), |i: int| s[i] as u8)
}

/// The bytes of an ASCII string slice.
pub fn lit_bytes(s: &str) -> (r: Vec<u8>)
    requires
        vstd::string::is_ascii(s),
    ensures
        r@ == ascii_bytes(s@),
{
    proof {
        broadcast use vstd::string::is_ascii_spec_bytes;
    }
    let b: &[u8] = s.as_bytes();
    let r = vstd::slice::slice_to_vec(b);
    proof {
        assert(r@ =~= ascii_bytes(s@));
    }
    r
}

/// Append every byte of `src` to `dst`.
pub fn push_all(dst: &mut Vec<u8>, src: &[u8])
    ensures
        final(dst)@ == old(dst)@ + src@,
{
    let mut i: usize = 0;
    while i < src.len()
        invariant
            i <= src.len(),
            dst@ == old(dst)@ + src@.subrange(0, i as int),
        decreases src.len() - i,
    {
        dst.push(src[i]);
        i = i + 1;
        assert(dst@ =~= old(dst)@ + src@.subrange(0, i as int));
    }
    assert(dst@ =~= old(dst)@ + src@);
}

/// Copy a range of `src` into a fresh vector.
pub fn subvec(src: &[u8], from: usize, to: usize) -> (r: Vec<u8>)
    requires
        from <= to <= src@.len(),
    ensures
        r@ == src@.subrange(from as int, to as int),
{
    let part = vstd::slice::slice_subrange(src, from, to);
    vstd::slice::slice_to_vec(part)
}

/// Whether `a` and `b` hold the same bytes.
pub fn bytes_eq(a: &[u8], b: &[u8]) -> (r: bool)
    ensures
        r == (a@ == b@),
{
    if a.len() != b.len() {
        return false;
    }
    let mut i: usize = 0;
    while i < a.len()
        invariant
            i <= a@.len(),
            a@.len() == b@.len(),
            forall|j: int| 0 <= j < i ==> a@[j] == b@[j],
        decreases a@.len() - i,
    {
        if a[i] != b[i] {
            return false;
        }
        i = i + 1;
    }
    proof {
        assert(a@ =~= b@);
    }
    true
}

/// Index of the first occurrence of `b` in `s`, when there is one.
pub fn find_byte(s: &[u8], b: u8) -> (r: Option<usize>)
    ensures
        match r {
            Some(i) => i == find_byte_spec(s@, b),
            None => find_byte_spec(s@, b) == -1,
        },
{
    proof {
        lemma_find_byte(s@, b);
    }
    let mut i: usize = 0;
    while i < s.len()
        invariant
            i <= s@.len(),
            forall|j: int| 0 <= j < i ==> s@[j] != b,
        decreases s@.len() - i,
    {
        if s[i] == b {
            proof {
                lemma_find_byte(s@, b);
            }
            return Some(i);
        }
        i = i + 1;
    }
    None
}

/// Leading whitespace makes no difference beyond the bytes dropped.
proof fn lemma_trim_front_step(s: Seq<u8>, k: int)
    requires
        0 <= k <= s.len(),
        forall|i: int| 0 <= i < k ==> is_ascii_ws(s[i]),
    ensures
        trim_front(s) == trim_front(s.subrange(k, s.len() as int)),
    decreases k,
{
    if k == 0 {
        assert(s.subrange(0, s.len() as int) =~= s);
    } else {
        assert(is_ascii_ws(s[0]));
        assert(trim_front(s) == trim_front(s.drop_first()));
        let sub = s.subrange(1, s.len() as int);
        assert(s.drop_first() =~= sub);
        assert forall|i: int| 0 <= i < k - 1 implies is_ascii_ws(sub[i]) by {
            assert(sub[i] == s[i + 1]);
        }
        lemma_trim_front_step(sub, k - 1);
        assert(sub.subrange(k - 1, sub.len() as int) =~= s.subrange(k, s.len() as int));
    }
}

/// Trailing whitespace makes no difference beyond the bytes dropped.
proof fn lemma_trim_back_step(s: Seq<u8>, k: int)
    requires
        0 <= k <= s.len(),
        forall|i: int| k <= i < s.len() ==> is_ascii_ws(s[i]),
    ensures
        trim_back(s) == trim_back(s.subrange(0, k)),
    decreases s.len() - k,
{
    if k == s.len() {
        assert(s.subrange(0, s.len() as int) =~= s);
    } else {
        assert(is_ascii_ws(s.last()));
        assert(trim_back(s) == trim_back(s.drop_last()));
        let sub = s.subrange(0, s.len() - 1);
        assert(s.drop_last() =~= sub);
        assert forall|i: int| k <= i < sub.len() implies is_ascii_ws(sub[i]) by {
            assert(sub[i] == s[i]);
        }
        lemma_trim_back_step(sub, k);
        assert(sub.subrange(0, k) =~= s.subrange(0, k));
    }
}

/// Whether `b` is ASCII whitespace.
pub fn is_ws_byte(b: u8) -> (r: bool)
    ensures
        r == is_ascii_ws(b),
{
    b == 32 || b == 9 || b == 10 || b == 12 || b == 13
}

/// `s` with leading and trailing ASCII whitespace removed.
pub fn trim_ascii(s: &[u8]) -> (r: Vec<u8>)
    ensures
        r@ == trim_spec(s@),
{
    let n = s.len();
    let mut lo: usize = 0;
    while lo < n && is_ws_byte(s[lo])
        invariant
            lo <= n,
            n == s@.len(),
            forall|i: int| 0 <= i < lo ==> is_ascii_ws(s@[i]),
        decreases n - lo,
    {
        lo = lo + 1;
    }
    let mut hi: usize = n;
    while hi > lo && is_ws_byte(s[hi - 1])
        invariant
            lo <= hi <= n,
            n == s@.len(),
            forall|i: int| hi <= i < n ==> is_ascii_ws(s@[i]),
        decreases hi,
    {
        hi = hi - 1;
    }
    proof {
        lemma_trim_front_step(s@, lo as int);
        let t = s@.subrange(lo as int, n as int);
        if lo < n {
            assert(t[0] == s@[lo as int]);
            assert(!is_ascii_ws(t[0]));
        }
        assert(trim_front(t) == t);
        assert(trim_spec(s@) == trim_back(t));
        lemma_trim_back_step(t, hi - lo);
        let u = t.subrange(0, hi - lo);
        if hi > lo {
            assert(u.last() == s@[hi - 1]);
            assert(!is_ascii_ws(u.last()));
        }
        assert(trim_back(u) == u);
        assert(u =~= s@.subrange(lo as int, hi as int));
        assert(trim_spec(s@) == s@.subrange(lo as int, hi as int));
    }
    subvec(s, lo, hi)
}

/// Split `s` into the segments between occurrences of `b`.
pub fn split_bytes_at(s: &[u8], b: u8) -> (r: Vec<Vec<u8>>)
    ensures
        r@.len() == split_at_byte(s@, b).len(),
        forall|i: int| 0 <= i < r@.len() ==> r@[i]@ == split_at_byte(s@, b)[i],
{
    let mut out: Vec<Vec<u8>> = Vec::new();
    let mut start: usize = 0;
    let ghost whole = s@;
    proof {
        assert(whole.subrange(0, whole.len() as int) =~= whole);
        assert(Seq::new(out@.len(), |i: int| out@[i]@) =~= Seq::<Seq<u8>>::empty());
    }
    loop
        invariant_except_break
            split_at_byte(whole, b) == Seq::new(out@.len(), |i: int| out@[i]@) + split_at_byte(
                whole.subrange(start as int, whole.len() as int),
                b,
            ),
        invariant
            start <= s@.len(),
            s@ == whole,
        ensures
            split_at_byte(whole, b) == Seq::new(out@.len(), |i: int| out@[i]@),
        decreases s@.len() - start,
    {
        let ghost tail = whole.subrange(start as int, whole.len() as int);
        let rest = vstd::slice::slice_subrange(s, start, s.len());
        let found = find_byte(rest, b);
        proof {
            lemma_find_byte(rest@, b);
            lemma_split_head(rest@, b);
        }
        match found {
            None => {
                let seg = subvec(s, start, s.len());
                let ghost prev = out@;
                out.push(seg);
                proof {
                    assert(out@ == prev + seq![seg]);
                    assert(Seq::new(out@.len(), |i: int| out@[i]@) =~= Seq::new(
                        prev.len(),
                        |i: int| prev[i]@,
                    ) + seq![seg@]);
                    assert(split_at_byte(tail, b) == seq![tail]);
                    assert(seg@ == tail);
                    assert(split_at_byte(whole, b) =~= Seq::new(out@.len(), |i: int| out@[i]@));
                }
                break;
            },
            Some(i) => {
                let seg = subvec(s, start, start + i);
                let ghost prev = out@;
                out.push(seg);
                proof {
                    assert(out@ == prev + seq![seg]);
                    assert(Seq::new(out@.len(), |i: int| out@[i]@) =~= Seq::new(
                        prev.len(),
                        |i: int| prev[i]@,
                    ) + seq![seg@]);
                    assert(tail.subrange(0, i as int) =~= seg@);
                    assert(tail.subrange(i + 1, tail.len() as int) =~= whole.subrange(
                        start + i + 1,
                        whole.len() as int,
                    ));
                    assert(split_at_byte(tail, b) == seq![seg@] + split_at_byte(
                        whole.subrange(start + i + 1, whole.len() as int),
                        b,
                    ));
                    assert(split_at_byte(whole, b) =~= Seq::new(out@.len(), |i: int| out@[i]@)
                        + split_at_byte(whole.subrange(start + i + 1, whole.len() as int), b));
                }
                start = start + i + 1;
            },
        }
    }
    out
}

/// The lines of `s`: trim, split at line feeds, and yield nothing for blank input.
pub fn lines(bytes: &[u8]) -> (r: Vec<Vec<u8>>)
    ensures
        r@.len() == lines_spec(bytes@).len(),
        forall|i: int| 0 <= i < r@.len() ==> r@[i]@ == lines_spec(bytes@)[i],
{
    let t = trim_ascii(bytes);
    if t.len() == 0 {
        Vec::new()
    } else {
        split_bytes_at(t.as_slice(), 10)
    }
}

/// The two hexadecimal numerals of a byte, high digit first, as in `{:02X}`.
pub fn repr_hex(byte: u8) -> (r: Vec<u8>)
    ensures
        r@ == hex_pair(byte),
{
    let mut out: Vec<u8> = Vec::new();
    out.push(hex_digit_exec(byte / 16));
    out.push(hex_digit_exec(byte % 16));
    proof {
        assert(out@ =~= hex_pair(byte));
    }
    out
}

/// Numeral for a value below 16.
fn hex_digit_exec(n: u8) -> (r: u8)
    requires
        n < 16,
    ensures
        r == hex_digit(n),
{
    if n < 10 {
        48 + n
    } else {
        55 + n
    }
}

} // verus!
