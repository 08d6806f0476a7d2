//! Variables as the shell declares them: scalar or array, and the
//! environment that `declare` prints after sourcing a file.
//!
//! A value is classified by the outer shape of its text alone — the
//! parenthesis sigil — and decoded by the matching codec. An environment
//! is a mapping from variable name (as a scalar) to value; names are
//! unique and a repeated declaration overwrites the earlier one.

use vstd::prelude::*;

use crate::array::{is_array_source_spec, BashArray};
use crate::errors::Error;
use crate::scalar::BashString;
use crate::shell::ShellOracle;
use crate::strings::{ascii_bytes, lit_bytes, push_all, trim_spec};
use crate::utf8::valid_utf8_seq;

verus! {

/// One Bash variable value: a scalar string or an indexed array.
#[derive(Debug)]
pub enum BashValue {
    /// A plain string variable.
    Scalar(BashString),
    /// An indexed array variable.
    Array(BashArray),
}

impl BashValue {
    /// The quoted source of the value, whichever kind it is.
    pub open spec fn source_spec(&self) -> Seq<u8> {
        match self {
            BashValue::Scalar(s) => s.source_view(),
            BashValue::Array(a) => a.source_view(),
        }
    }

    /// Classify `text` by its outer shape and decode it: an array when the
    /// trimmed text sits in parentheses, a scalar otherwise.
    pub fn from_source<O: ShellOracle>(oracle: &mut O, text: &[u8]) -> (r: Result<Self, Error>)
        ensures
            r is Ok ==> {
                let v = r->Ok_0;
                if is_array_source_spec(trim_spec(text@)) {
                    v is Array && v->Array_0.source_view() == text@
                } else {
                    v is Scalar && v->Scalar_0.source_view() == text@
                }
            },
            r is Err ==> crate::shell::is_parse_error(r->Err_0),
    {
        let trimmed = crate::strings::trim_ascii(text);
        if crate::array::is_array_source(trimmed.as_slice()) {
            match BashArray::new(oracle, text) {
                Ok(a) => Ok(BashValue::Array(a)),
                Err(e) => Err(e),
            }
        } else {
            match BashString::from_escaped(oracle, text) {
                Ok(s) => Ok(BashValue::Scalar(s)),
                Err(e) => Err(e),
            }
        }
    }

    /// The quoted source of the value.
    pub fn source(&self) -> (r: &Vec<u8>)
        ensures
            r@ == self.source_spec(),
    {
        match self {
            BashValue::Scalar(s) => s.source(),
            BashValue::Array(a) => a.source(),
        }
    }

    /// The scalar inside, when this is a scalar.
    pub fn string(&self) -> (r: Option<&BashString>)
        ensures
            match r {
                Some(s) => self is Scalar && s == &self->Scalar_0,
                None => self is Array,
            },
    {
        match self {
            BashValue::Scalar(s) => Some(s),
            BashValue::Array(_) => None,
        }
    }

    /// The array inside, when this is an array.
    pub fn array(&self) -> (r: Option<&BashArray>)
        ensures
            match r {
                Some(a) => self is Array && a == &self->Array_0,
                None => self is Scalar,
            },
    {
        match self {
            BashValue::Scalar(_) => None,
            BashValue::Array(a) => Some(a),
        }
    }
}

/// The first value in `es` under a name with raw bytes `name`.
pub open spec fn env_lookup(es: Seq<(BashString, BashValue)>, name: Seq<u8>) -> Option<BashValue>
    decreases es.len(),
{
    if es.len() == 0 {
        None
    } else if es[0].0@ == name {
        Some(es[0].1)
    } else {
        env_lookup(es.drop_first(), name)
    }
}

/// Whether no entry of `es` carries the name `name`.
pub open spec fn env_absent(es: Seq<(BashString, BashValue)>, name: Seq<u8>) -> bool {
    forall|i: int| 0 <= i < es.len() ==> (#[trigger] es[i]).0@ != name
}

/// A name that no entry carries finds nothing.
pub proof fn lemma_lookup_absent(es: Seq<(BashString, BashValue)>, name: Seq<u8>)
    requires
        env_absent(es, name),
    ensures
        env_lookup(es, name) is None,
    decreases es.len(),
{
    if es.len() > 0 {
        assert(es[0].0@ != name);
        let sub = es.drop_first();
        assert forall|i: int| 0 <= i < sub.len() implies (#[trigger] sub[i]).0@ != name by {
            assert(sub[i] == es[i + 1]);
        }
        lemma_lookup_absent(sub, name);
    }
}

/// Looking a name up in a concatenation: the front wins when it holds the
/// name at all.
pub proof fn lemma_lookup_concat(
    a: Seq<(BashString, BashValue)>,
    b: Seq<(BashString, BashValue)>,
    name: Seq<u8>,
)
    ensures
        env_lookup(a + b, name) == if env_lookup(a, name) is Some {
            env_lookup(a, name)
        } else {
            env_lookup(b, name)
        },
    decreases a.len(),
{
    if a.len() == 0 {
        assert(a + b =~= b);
    } else {
        assert((a + b)[0] == a[0]);
        assert((a + b).drop_first() =~= a.drop_first() + b);
        lemma_lookup_concat(a.drop_first(), b, name);
    }
}

/// Two entry lists that differ only at one position, where neither side
/// carries `name`, look `name` up alike.
pub proof fn lemma_lookup_skip_index(
    a: Seq<(BashString, BashValue)>,
    b: Seq<(BashString, BashValue)>,
    at: int,
    name: Seq<u8>,
)
    requires
        a.len() == b.len(),
        0 <= at < a.len(),
        forall|i: int| 0 <= i < a.len() && i != at ==> a[i] == b[i],
        a[at].0@ != name,
        b[at].0@ != name,
    ensures
        env_lookup(a, name) == env_lookup(b, name),
    decreases a.len(),
{
    if at == 0 {
        assert(a.drop_first() =~= b.drop_first());
    } else {
        assert(a[0] == b[0]);
        let sa = a.drop_first();
        let sb = b.drop_first();
        assert forall|i: int| 0 <= i < sa.len() && i != at - 1 implies sa[i] == sb[i] by {
            assert(sa[i] == a[i + 1] && sb[i] == b[i + 1]);
        }
        assert(sa[at - 1] == a[at] && sb[at - 1] == b[at]);
        lemma_lookup_skip_index(sa, sb, at - 1, name);
    }
}

/// A list whose first `k` entries do not carry `name` looks `name` up as
/// its tail from `k` does.
pub proof fn lemma_lookup_skip_front(es: Seq<(BashString, BashValue)>, k: int, name: Seq<u8>)
    requires
        0 <= k <= es.len(),
        forall|i: int| 0 <= i < k ==> (#[trigger] es[i]).0@ != name,
    ensures
        env_lookup(es, name) == env_lookup(es.subrange(k, es.len() as int), name),
    decreases k,
{
    if k == 0 {
        assert(es.subrange(0, es.len() as int) =~= es);
    } else {
        assert(es[0].0@ != name);
        let sub = es.drop_first();
        assert forall|i: int| 0 <= i < k - 1 implies (#[trigger] sub[i]).0@ != name by {
            assert(sub[i] == es[i + 1]);
        }
        lemma_lookup_skip_front(sub, k - 1, name);
        assert(sub.subrange(k - 1, sub.len() as int) =~= es.subrange(k, es.len() as int));
    }
}

/// The environment a sourced file leaves behind: variable names with their
/// values, names unique.
pub struct Environment {
    /// The `(name, value)` entries.
    entries: Vec<(BashString, BashValue)>,
}

impl View for Environment {
    type V = Seq<(BashString, BashValue)>;

    closed spec fn view(&self) -> Seq<(BashString, BashValue)> {
        self.entries@
    }
}

impl Environment {
    /// Names are unique, by their raw bytes.
    pub open spec fn wf(&self) -> bool {
        forall|i: int, j: int|
            0 <= i < j < self@.len() ==> (#[trigger] self@[i]).0@ != (#[trigger] self@[j]).0@
    }

    /// The value under `name`, as a spec.
    pub open spec fn lookup(&self, name: Seq<u8>) -> Option<BashValue> {
        env_lookup(self@, name)
    }

    /// An empty environment.
    pub fn new() -> (r: Self)
        ensures
            r.wf(),
            r@.len() == 0,
            forall|name: Seq<u8>| r.lookup(name) is None,
    {
        let r = Environment { entries: Vec::new() };
        proof {
            assert forall|name: Seq<u8>| r.lookup(name) is None by {}
        }
        r
    }

    /// How many variables the environment holds.
    pub fn len(&self) -> (r: usize)
        ensures
            r == self@.len(),
    {
        self.entries.len()
    }

    /// The entry at `at`, for walking the environment in order.
    pub fn entry_at(&self, at: usize) -> (r: &(BashString, BashValue))
        requires
            at < self@.len(),
        ensures
            r == &self@[at as int],
    {
        &self.entries[at]
    }

    /// Bind `name` to `value`: a later declaration overwrites an earlier
    /// one, and other names keep their values.
    pub fn insert(&mut self, name: BashString, value: BashValue)
        requires
            old(self).wf(),
        ensures
            final(self).wf(),
            final(self)@.len() <= old(self)@.len() + 1,
            final(self).lookup(name@) == Some(value),
            forall|other: Seq<u8>|
                other != name@ ==> final(self).lookup(other) == #[trigger] old(self).lookup(other),
    {
        let ghost before = self.entries@;
        let n = self.entries.len();
        let mut i: usize = 0;
        while i < n
            invariant
                i <= n,
                n == self.entries@.len(),
                self.entries@ == before,
                old(self)@ == before,
                old(self).wf(),
                forall|k: int| 0 <= k < i ==> (#[trigger] before[k]).0@ != name@,
            decreases n - i,
        {
            let same = {
                let entry = &self.entries[i];
                entry.0 == name
            };
            if same {
                let ghost replaced = before[i as int];
                self.entries[i] = (name, value);
                proof {
                    let after = self.entries@;
                    assert(after =~= before.update(i as int, (name, value)));
                    assert(replaced.0@ == name@);
                    assert forall|a: int, b: int|
                        0 <= a < b < after.len() implies (#[trigger] after[a]).0@
                        != (#[trigger] after[b]).0@ by {
                        assert(before[a].0@ != before[b].0@);
                        assert(after[a].0@ == before[a].0@ && after[b].0@ == before[b].0@);
                    }
                    assert forall|k: int| 0 <= k < i implies (#[trigger] after[k]).0@ != name@ by {
                        assert(after[k] == before[k]);
                    }
                    lemma_lookup_skip_front(after, i as int, name@);
                    assert(after.subrange(i as int, after.len() as int)[0] == (name, value));
                    assert(self.lookup(name@) == Some(value));
                    assert forall|other: Seq<u8>| other != name@ implies self.lookup(other)
                        == env_lookup(before, other) by {
                        assert(after[i as int].0@ != other && before[i as int].0@ != other);
                        lemma_lookup_skip_index(after, before, i as int, other);
                    }
                }
                return ;
            }
            i = i + 1;
        }
        proof {
            assert forall|k: int| 0 <= k < before.len() implies (#[trigger] before[k]).0@
                != name@ by {}
        }
        self.entries.push((name, value));
        proof {
            let after = self.entries@;
            assert(after =~= before + seq![(name, value)]);
            assert forall|a: int, b: int|
                0 <= a < b < after.len() implies (#[trigger] after[a]).0@
                != (#[trigger] after[b]).0@ by {
                if b < before.len() {
                    assert(after[a] == before[a] && after[b] == before[b]);
                } else {
                    assert(after[a] == before[a]);
                    assert(after[b] == (name, value));
                    assert(before[a].0@ != name@);
                }
            }
            lemma_lookup_concat(before, seq![(name, value)], name@);
            lemma_lookup_absent(before, name@);
            assert(env_lookup(seq![(name, value)], name@) == Some(value));
            assert(self.lookup(name@) == Some(value));
            assert forall|other: Seq<u8>| other != name@ implies self.lookup(other) == env_lookup(
                before,
                other,
            ) by {
                lemma_lookup_concat(before, seq![(name, value)], other);
                if env_lookup(before, other) is None {
                    let one = seq![(name, value)];
                    assert(one[0].0@ == name@);
                    assert(one.drop_first() =~= Seq::<(BashString, BashValue)>::empty());
                    assert(env_lookup(one.drop_first(), other) is None);
                    assert(env_lookup(one, other) is None);
                }
            }
        }
    }

    /// The value under `name`, when there is one.
    pub fn get(&self, name: &[u8]) -> (r: Option<&BashValue>)
        ensures
            match r {
                Some(v) => self.lookup(name@) == Some(*v),
                None => self.lookup(name@) is None,
            },
    {
        let n = self.entries.len();
        let mut i: usize = 0;
        while i < n
            invariant
                i <= n,
                n == self@.len(),
                forall|k: int| 0 <= k < i ==> (#[trigger] self@[k]).0@ != name@,
            decreases n - i,
        {
            let entry = &self.entries[i];
            if crate::strings::bytes_eq(entry.0.as_raw().as_slice(), name) {
                proof {
                    lemma_lookup_skip_front(self@, i as int, name@);
                    assert(self@.subrange(i as int, self@.len() as int)[0] == self@[i as int]);
                }
                return Some(&entry.1);
            }
            i = i + 1;
        }
        proof {
            lemma_lookup_absent(self@, name@);
        }
        None
    }

    /// Take the value under `name` out of the environment: the name is
    /// gone afterwards and every other name keeps its value.
    pub fn remove(&mut self, name: &[u8]) -> (r: Option<BashValue>)
        requires
            old(self).wf(),
        ensures
            final(self).wf(),
            match r {
                Some(v) => old(self).lookup(name@) == Some(v),
                None => old(self).lookup(name@) is None && final(self)@ == old(self)@,
            },
            final(self).lookup(name@) is None,
            forall|other: Seq<u8>|
                other != name@ ==> final(self).lookup(other) == #[trigger] old(self).lookup(other),
    {
        let ghost before = self.entries@;
        let n = self.entries.len();
        let mut i: usize = 0;
        while i < n
            invariant
                i <= n,
                n == self.entries@.len(),
                self.entries@ == before,
                old(self)@ == before,
                old(self).wf(),
                forall|k: int| 0 <= k < i ==> (#[trigger] before[k]).0@ != name@,
            decreases n - i,
        {
            let matches_name = {
                let entry = &self.entries[i];
                crate::strings::bytes_eq(entry.0.as_raw().as_slice(), name)
            };
            if matches_name {
                let entry = self.entries.remove(i);
                proof {
                    let after = self.entries@;
                    assert(after =~= before.subrange(0, i as int) + before.subrange(
                        i + 1,
                        before.len() as int,
                    ));
                    lemma_lookup_skip_front(before, i as int, name@);
                    assert(before.subrange(i as int, before.len() as int)[0] == before[i as int]);
                    assert(old(self).lookup(name@) == Some(before[i as int].1));
                    let pre = before.subrange(0, i as int);
                    let post = before.subrange(i + 1, before.len() as int);
                    assert forall|a: int, b: int|
                        0 <= a < b < after.len() implies (#[trigger] after[a]).0@
                        != (#[trigger] after[b]).0@ by {
                        let a0 = if a < i { a } else { a + 1 };
                        let b0 = if b < i { b } else { b + 1 };
                        assert(after[a] == before[a0] && after[b] == before[b0]);
                        assert(before[a0].0@ != before[b0].0@);
                    }
                    assert forall|k: int| 0 <= k < pre.len() implies (#[trigger] pre[k]).0@
                        != name@ by {
                        assert(pre[k] == before[k]);
                    }
                    assert forall|k: int| 0 <= k < post.len() implies (#[trigger] post[k]).0@
                        != name@ by {
                        assert(post[k] == before[k + i + 1]);
                        assert(before[i as int].0@ == name@);
                        assert(before[i as int].0@ != before[k + i + 1].0@);
                    }
                    lemma_lookup_concat(pre, post, name@);
                    lemma_lookup_absent(pre, name@);
                    lemma_lookup_absent(post, name@);
                    assert(self.lookup(name@) is None);
                    assert forall|other: Seq<u8>| other != name@ implies self.lookup(other)
                        == env_lookup(before, other) by {
                        lemma_remove_other(before, i as int, other);
                    }
                }
                return Some(entry.1);
            }
            i = i + 1;
        }
        proof {
            lemma_lookup_absent(before, name@);
        }
        None
    }
}

/// The script that sources `file` with its standard output closed, then
/// prints every variable of the resulting environment.
pub open spec fn source_script_spec(file: Seq<u8>) -> Seq<u8> {
    ascii_bytes("source '"@) + file + ascii_bytes("' 1>&-\ndeclare"@)
}

/// Whether the pair `p` reads the assignment line `line` faithfully: the
/// line splits at its first `=`, the name's quoted form is the left side,
/// and the value keeps the right side as its source, classified by shape.
pub open spec fn pair_matches_line(p: (BashString, BashValue), line: Seq<u8>) -> bool {
    let f = crate::strings::find_byte_spec(line, 61u8);
    &&& f >= 0
    &&& p.0.source_view() == line.subrange(0, f)
    &&& p.1.source_spec() == line.subrange(f + 1, line.len() as int)
    &&& (p.1 is Array <==> is_array_source_spec(
        trim_spec(line.subrange(f + 1, line.len() as int)),
    ))
}

/// Whether `kvs` reads the declaration block `out` faithfully, pair by
/// non-blank line, in order.
pub open spec fn pairs_match_output(kvs: Seq<(BashString, BashValue)>, out: Seq<u8>) -> bool {
    let ls = crate::array::nonblank_lines(out);
    &&& kvs.len() == ls.len()
    &&& forall|i: int| 0 <= i < kvs.len() ==> pair_matches_line(#[trigger] kvs[i], ls[i])
}

/// The value of the last pair of `kvs` under the name `n`, when any pair
/// carries it: a later declaration wins.
pub open spec fn last_bound(kvs: Seq<(BashString, BashValue)>, n: Seq<u8>) -> Option<BashValue>
    decreases kvs.len(),
{
    if kvs.len() == 0 {
        None
    } else if kvs.last().0@ == n {
        Some(kvs.last().1)
    } else {
        last_bound(kvs.drop_last(), n)
    }
}

/// Whether `env` binds every name to the last pair of `kvs` that carries
/// it, and no name beyond those.
pub open spec fn env_binds_last(env: Environment, kvs: Seq<(BashString, BashValue)>) -> bool {
    forall|n: Seq<u8>| #[trigger] env.lookup(n) == last_bound(kvs, n)
}

/// Whether `env` is a faithful reading of the declaration block `out`:
/// some sequence of name/value pairs matches the non-blank lines one for
/// one, and the environment binds each name to its last pair.
pub open spec fn environment_reads(env: Environment, out: Seq<u8>) -> bool {
    valid_utf8_seq(out) && exists|kvs: Seq<(BashString, BashValue)>|
        #[trigger] pairs_match_output(kvs, out) && env_binds_last(env, kvs)
}

/// Read a block of `NAME=VALUE` declaration lines into an environment.
/// Blank lines are skipped, each name decodes as a scalar, each value is
/// classified and decoded by its shape, and a repeated name overwrites
/// the earlier binding.
pub fn parse_vars<O: ShellOracle>(oracle: &mut O, out: &[u8]) -> (r: Result<Environment, Error>)
    ensures
        r is Ok ==> r->Ok_0.wf() && environment_reads(r->Ok_0, out@),
        r is Err ==> crate::shell::is_parse_error(r->Err_0),
        !valid_utf8_seq(out@) ==> r is Err && r->Err_0 is NotUtf8,
        valid_utf8_seq(out@) && crate::array::nonblank_lines(out@).len() == 0 ==> r is Ok
            && r->Ok_0@.len() == 0,
{
    if !crate::utf8::is_utf8(out) {
        return Err(Error::NotUtf8);
    }
    let ls = crate::shell::split_text_lines(out);
    let ghost lseq = crate::shell::text_lines(out@);
    let mut env = Environment::new();
    let ghost mut kvs: Seq<(BashString, BashValue)> = Seq::empty();
    let mut i: usize = 0;
    proof {
        assert(lseq.subrange(0, 0) =~= Seq::<Seq<u8>>::empty());
        assert forall|n: Seq<u8>| #[trigger] env.lookup(n) == last_bound(kvs, n) by {
            assert(env.lookup(n) is None);
        }
    }
    while i < ls.len()
        invariant
            i <= ls@.len(),
            valid_utf8_seq(out@),
            lseq == crate::shell::text_lines(out@),
            ls@.len() == lseq.len(),
            forall|k: int| 0 <= k < ls@.len() ==> ls@[k]@ == lseq[k],
            env.wf(),
            env@.len() <= kvs.len(),
            kvs.len() == crate::array::nonblank_of(lseq.subrange(0, i as int)).len(),
            forall|k: int|
                0 <= k < kvs.len() ==> pair_matches_line(
                    #[trigger] kvs[k],
                    crate::array::nonblank_of(lseq.subrange(0, i as int))[k],
                ),
            forall|n: Seq<u8>| #[trigger] env.lookup(n) == last_bound(kvs, n),
        decreases ls@.len() - i,
    {
        let line = &ls[i];
        let ghost done = lseq.subrange(0, i as int);
        let ghost now = lseq.subrange(0, i + 1);
        proof {
            assert(now.drop_last() =~= done);
            assert(now.last() == lseq[i as int]);
        }
        let trimmed = crate::strings::trim_ascii(line.as_slice());
        if trimmed.len() > 0 {
            proof {
                crate::array::lemma_nonblank_member(lseq, i as int);
            }
            let eq_at = crate::strings::find_byte(line.as_slice(), 61);
            let f = match eq_at {
                Some(f) => f,
                None => {
                    return Err(Error::MissingAssignment { line: line.clone() });
                },
            };
            proof {
                crate::strings::lemma_find_byte(line@, 61u8);
                assert(f < line@.len());
            }
            let line_len = line.len();
            let name_part = crate::strings::subvec(line.as_slice(), 0, f);
            let value_part = crate::strings::subvec(line.as_slice(), f + 1, line_len);
            let key = match BashString::from_escaped(oracle, name_part.as_slice()) {
                Ok(key) => key,
                Err(e) => {
                    return Err(e);
                },
            };
            let value = match BashValue::from_source(oracle, value_part.as_slice()) {
                Ok(value) => value,
                Err(e) => {
                    return Err(e);
                },
            };
            let ghost pair = (key, value);
            let ghost env0 = env;
            env.insert(key, value);
            proof {
                let prev = kvs;
                kvs = kvs + seq![pair];
                assert(crate::array::nonblank_of(now) =~= crate::array::nonblank_of(done)
                    + seq![lseq[i as int]]);
                assert(kvs.last() == pair);
                assert(kvs.drop_last() =~= prev);
                assert(pair.0.source_view() == lseq[i as int].subrange(0, f as int));
                assert(pair.1.source_spec() == lseq[i as int].subrange(
                    f + 1,
                    lseq[i as int].len() as int,
                ));
                assert(pair_matches_line(pair, lseq[i as int]));
                assert forall|k: int|
                    0 <= k < kvs.len() implies pair_matches_line(
                        #[trigger] kvs[k],
                        crate::array::nonblank_of(now)[k],
                    ) by {
                    if k < prev.len() {
                        assert(kvs[k] == prev[k]);
                        assert(crate::array::nonblank_of(now)[k] == crate::array::nonblank_of(
                            done,
                        )[k]);
                    } else {
                        assert(kvs[k] == pair);
                        assert(crate::array::nonblank_of(now)[k] == lseq[i as int]);
                    }
                }
                assert forall|n: Seq<u8>| #[trigger] env.lookup(n) == last_bound(kvs, n) by {
                    if n == pair.0@ {
                        assert(env.lookup(n) == Some(pair.1));
                        assert(last_bound(kvs, n) == Some(pair.1));
                    } else {
                        assert(env0.lookup(n) == last_bound(prev, n));
                        assert(env.lookup(n) == env0.lookup(n));
                        assert(last_bound(kvs, n) == last_bound(prev, n));
                    }
                }
            }
        } else {
            proof {
                assert(crate::array::nonblank_of(now) =~= crate::array::nonblank_of(done));
            }
        }
        i = i + 1;
    }
    proof {
        assert(lseq.subrange(0, lseq.len() as int) =~= lseq);
        assert(pairs_match_output(kvs, out@));
        assert(env_binds_last(env, kvs));
        assert(environment_reads(env, out@));
    }
    Ok(env)
}

/// Source `file` at `dir` through the shell and parse the environment it
/// leaves behind. No distinction is made between variables the file set
/// and those the shell brings along on its own.
pub fn source<O: ShellOracle>(oracle: &mut O, dir: &[u8], file: &[u8]) -> (r: Result<
    Environment,
    Error,
>)
    ensures
        r is Ok ==> r->Ok_0.wf() && exists|out: Seq<u8>| environment_reads(r->Ok_0, out),
        r is Err ==> crate::shell::is_parse_error(r->Err_0),
{
    proof {
        reveal_strlit("source '");
        assert(vstd::string::is_ascii("source '"));
        reveal_strlit("' 1>&-\ndeclare");
        assert(vstd::string::is_ascii("' 1>&-\ndeclare"));
    }
    let mut command = lit_bytes("source '");
    push_all(&mut command, file);
    let tail = lit_bytes("' 1>&-\ndeclare");
    push_all(&mut command, tail.as_slice());
    proof {
        assert(command@ =~= source_script_spec(file@));
    }
    let out = match crate::shell::rbash_at(oracle, command.as_slice(), dir) {
        Ok(out) => out,
        Err(e) => {
            return Err(e);
        },
    };
    let env = match parse_vars(oracle, out.as_slice()) {
        Ok(env) => env,
        Err(e) => {
            return Err(e);
        },
    };
    proof {
        assert(environment_reads(env, out@));
    }
    Ok(env)
}

/// Removing the entry at `at` leaves the lookup of any other name alone.
proof fn lemma_remove_other(es: Seq<(BashString, BashValue)>, at: int, other: Seq<u8>)
    requires
        0 <= at < es.len(),
        es[at].0@ != other,
    ensures
        env_lookup(
            es.subrange(0, at) + es.subrange(at + 1, es.len() as int),
            other,
        ) == env_lookup(es, other),
    decreases es.len(),
{
    let pre = es.subrange(0, at);
    let post = es.subrange(at + 1, es.len() as int);
    if at == 0 {
        assert(pre.len() == 0);
        assert(pre + post =~= post);
        assert(post =~= es.drop_first());
        assert(es[0].0@ != other);
        assert(env_lookup(es, other) == env_lookup(es.drop_first(), other));
    } else {
        let sub = es.drop_first();
        assert((pre + post)[0] == es[0]);
        if es[0].0@ == other {
            assert(env_lookup(es, other) == Some(es[0].1));
            assert(env_lookup(pre + post, other) == Some(es[0].1));
        } else {
            lemma_remove_other(sub, at - 1, other);
            assert(sub[at - 1] == es[at]);
            assert(sub.subrange(0, at - 1) =~= pre.drop_first());
            assert(sub.subrange(at, sub.len() as int) =~= post);
            assert((pre + post).drop_first() =~= pre.drop_first() + post);
            assert(env_lookup(pre + post, other) == env_lookup(pre.drop_first() + post, other));
            assert(env_lookup(es, other) == env_lookup(sub, other));
        }
    }
}

} // verus!
