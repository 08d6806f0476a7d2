//! The preset model: named bundles of build parameters, resolved from
//! namespaced variables with a global fallback for a fixed few.
//!
//! A preset file names its presets in `PRESETS` and sets `<name>_<field>`
//! variables per preset. The kernel version, the configuration path and
//! the microcode path fall back to `ALL_<field>` when the preset has no
//! value of its own; the image, UKI, legacy EFI image and options do not.

use vstd::prelude::*;

use crate::array::BashArray;
use crate::array::same_array;
use crate::config::{array_field_ok, scalar_field_ok};
use crate::errors::Error;
use crate::scalar::BashString;
use crate::shell::ShellOracle;
use crate::strings::{ascii_bytes, lit_bytes, push_all};
use crate::value::{BashValue, Environment};

verus! {

/// The variable name `<name>_<suffix>`.
pub open spec fn var_key(name: Seq<u8>, suffix: Seq<u8>) -> Seq<u8> {
    name + seq![95u8] + suffix
}

/// The raw bytes of the global fallback namespace.
pub open spec fn all_name() -> Seq<u8> {
    ascii_bytes("ALL"@)
}

/// The name of the `PRESETS` variable.
pub open spec fn name_presets() -> Seq<u8> {
    ascii_bytes("PRESETS"@)
}

/// The variable a field reads: the preset's own, and `fallback` where the
/// preset sets none.
pub open spec fn resolved(
    env: Environment,
    own: Seq<u8>,
    fallback: Seq<u8>,
) -> Option<BashValue> {
    if env.lookup(own) is Some {
        env.lookup(own)
    } else {
        env.lookup(fallback)
    }
}

/// The variable a string field fetches: `<name>_<suffix>`, with the
/// `ALL_<suffix>` fallback where `fall_back` says so.
pub open spec fn fetched(
    env: Environment,
    name: Seq<u8>,
    suffix: Seq<u8>,
    fall_back: bool,
) -> Option<BashValue> {
    if fall_back {
        resolved(env, var_key(name, suffix), var_key(all_name(), suffix))
    } else {
        env.lookup(var_key(name, suffix))
    }
}

/// Whether `env` sets no variable of the preset named `n`, fallbacks
/// included.
pub open spec fn no_preset_vars(env: Environment, n: Seq<u8>) -> bool {
    &&& fetched(env, n, ascii_bytes("kver"@), true) is None
    &&& fetched(env, n, ascii_bytes("config"@), true) is None
    &&& env.lookup(var_key(n, ascii_bytes("uki"@))) is None
    &&& env.lookup(var_key(n, ascii_bytes("efi_image"@))) is None
    &&& env.lookup(var_key(n, ascii_bytes("image"@))) is None
    &&& env.lookup(var_key(n, ascii_bytes("options"@))) is None
    &&& fetched(env, n, ascii_bytes("microcode"@), true) is None
}

/// One preset: its file of origin, its name, and its parameters.
#[derive(Debug)]
pub struct Preset {
    /// The stem of the file the preset was read from.
    pub filename: BashString,
    /// The preset's name in `PRESETS`.
    pub name: BashString,
    /// The kernel version to build for; falls back to `ALL_kver`.
    pub kver: Option<BashString>,
    /// The configuration file to use; falls back to `ALL_config`.
    pub config: Option<BashString>,
    /// Where the image is written.
    pub image: Option<BashString>,
    /// Where the unified kernel image is written.
    pub uki: Option<BashString>,
    /// Where the legacy EFI image is written.
    pub efi_image: Option<BashString>,
    /// The microcode to load; falls back to `ALL_microcode`.
    pub microcode: Option<BashString>,
    /// Extra command line options for the build.
    pub options: Option<BashArray>,
}

/// Whether the fields of `p` read `env` faithfully for a preset whose raw
/// name is `n`: each field present exactly when its variable resolves,
/// with the fixed fallbacks and no others.
pub open spec fn preset_fields_ok(p: Preset, env: Environment, n: Seq<u8>) -> bool {
    &&& scalar_field_ok(
        p.kver,
        resolved(env, var_key(n, ascii_bytes("kver"@)), var_key(all_name(), ascii_bytes("kver"@))),
    )
    &&& scalar_field_ok(
        p.config,
        resolved(
            env,
            var_key(n, ascii_bytes("config"@)),
            var_key(all_name(), ascii_bytes("config"@)),
        ),
    )
    &&& scalar_field_ok(p.uki, env.lookup(var_key(n, ascii_bytes("uki"@))))
    &&& scalar_field_ok(p.efi_image, env.lookup(var_key(n, ascii_bytes("efi_image"@))))
    &&& scalar_field_ok(p.image, env.lookup(var_key(n, ascii_bytes("image"@))))
    &&& array_field_ok(p.options, env.lookup(var_key(n, ascii_bytes("options"@))))
    &&& scalar_field_ok(
        p.microcode,
        resolved(
            env,
            var_key(n, ascii_bytes("microcode"@)),
            var_key(all_name(), ascii_bytes("microcode"@)),
        ),
    )
}

/// Coerce a variable to a string field: a scalar is re-quoted, an array is
/// joined by the shell into one word per `${ARRAY[*]}`.
fn preset_string<O: ShellOracle>(oracle: &mut O, value: &BashValue) -> (r: Result<
    BashString,
    Error,
>)
    ensures
        r is Ok && value is Scalar ==> r->Ok_0@ == value->Scalar_0@,
        r is Err ==> !(r->Err_0 is MissingPresets),
{
    match value {
        BashValue::Scalar(s) => s.reescape(oracle),
        BashValue::Array(a) => a.to_concatenated_string(oracle),
    }
}

/// Coerce a variable to an array field: an array is re-quoted entry by
/// entry, a scalar is split at spaces through `mapfile`.
fn preset_array<O: ShellOracle>(oracle: &mut O, value: &BashValue) -> (r: Result<BashArray, Error>)
    ensures
        r is Ok && value is Array ==> same_array(r->Ok_0, value->Array_0),
        r is Err ==> !(r->Err_0 is MissingPresets),
{
    match value {
        BashValue::Scalar(s) => {
            let a = match s.mapfile(oracle, 32) {
                Ok(a) => a,
                Err(e) => {
                    return Err(e);
                },
            };
            a.reescape(oracle)
        },
        BashValue::Array(a) => a.reescape(oracle),
    }
}

/// The key `<name>_<suffix>` as bytes.
fn build_key(name: &[u8], suffix: &[u8]) -> (r: Vec<u8>)
    ensures
        r@ == var_key(name@, suffix@),
{
    let mut out = vstd::slice::slice_to_vec(name);
    out.push(95);
    push_all(&mut out, suffix);
    proof {
        assert(out@ =~= var_key(name@, suffix@));
    }
    out
}

/// Fetch a string field: the preset's own variable under `suffix`, then —
/// when `fall_back` says so — the global one, coerced to a string.
fn fetch_string<O: ShellOracle>(
    oracle: &mut O,
    env: &Environment,
    name: &[u8],
    suffix: &str,
    fall_back: bool,
) -> (r: Result<Option<BashString>, Error>)
    requires
        vstd::string::is_ascii(suffix),
    ensures
        r is Ok ==> scalar_field_ok(r->Ok_0, fetched(*env, name@, ascii_bytes(suffix@), fall_back)),
        fetched(*env, name@, ascii_bytes(suffix@), fall_back) is None ==> r is Ok,
        r is Err ==> !(r->Err_0 is MissingPresets),
{
    proof {
        reveal_strlit("ALL");
        assert(vstd::string::is_ascii("ALL"));
    }
    let suffix_bytes = lit_bytes(suffix);
    let own_key = build_key(name, suffix_bytes.as_slice());
    let own = env.get(own_key.as_slice());
    let looked = match own {
        Some(v) => Some(v),
        None => {
            if fall_back {
                let all = lit_bytes("ALL");
                let all_key = build_key(all.as_slice(), suffix_bytes.as_slice());
                env.get(all_key.as_slice())
            } else {
                None
            }
        },
    };
    match looked {
        None => Ok(None),
        Some(v) => match preset_string(oracle, v) {
            Ok(s) => Ok(Some(s)),
            Err(e) => Err(e),
        },
    }
}

/// Whether the presets `ps` read `env` faithfully: `PRESETS` is set,
/// each preset's fields follow its own name's variables, and the presets
/// are one per name that `PRESETS` holds, in order.
pub open spec fn presets_read_environment(ps: Seq<Preset>, env: Environment) -> bool {
    &&& env.lookup(name_presets()) is Some
    &&& forall|i: int|
        0 <= i < ps.len() ==> preset_fields_ok(#[trigger] ps[i], env, ps[i].name@)
    &&& (env.lookup(name_presets())->0 is Scalar ==> ps.len() == 1 && ps[0].name@ == env.lookup(
        name_presets(),
    )->0->Scalar_0@)
    &&& (env.lookup(name_presets())->0 is Array ==> {
        let named = env.lookup(name_presets())->0->Array_0.entries_view();
        ps.len() == named.len() && forall|i: int|
            0 <= i < ps.len() ==> (#[trigger] ps[i]).name@ == named[i].1@
    })
}

impl Preset {
    /// Read the preset called `name` out of `env`: each field from its
    /// `<name>_<field>` variable, with the global fallback for the kernel
    /// version, the configuration path and the microcode path only.
    pub fn parse_preset<O: ShellOracle>(
        oracle: &mut O,
        filename: &BashString,
        env: &Environment,
        name: &BashString,
    ) -> (r: Result<Self, Error>)
        ensures
            r is Ok ==> {
                let p = r->Ok_0;
                &&& p.filename@ == filename@
                &&& p.filename.source_view() == filename.source_view()
                &&& p.name@ == name@
                &&& p.name.source_view() == name.source_view()
                &&& preset_fields_ok(p, *env, name@)
            },
            no_preset_vars(*env, name@) ==> r is Ok,
            r is Err ==> !(r->Err_0 is MissingPresets),
    {
        proof {
            reveal_strlit("kver");
            assert(vstd::string::is_ascii("kver"));
            reveal_strlit("config");
            assert(vstd::string::is_ascii("config"));
            reveal_strlit("uki");
            assert(vstd::string::is_ascii("uki"));
            reveal_strlit("efi_image");
            assert(vstd::string::is_ascii("efi_image"));
            reveal_strlit("image");
            assert(vstd::string::is_ascii("image"));
            reveal_strlit("options");
            assert(vstd::string::is_ascii("options"));
            reveal_strlit("microcode");
            assert(vstd::string::is_ascii("microcode"));
        }
        let name_raw = name.as_raw();
        let kver = match fetch_string(oracle, env, name_raw.as_slice(), "kver", true) {
            Ok(f) => f,
            Err(e) => {
                return Err(e);
            },
        };
        let config = match fetch_string(oracle, env, name_raw.as_slice(), "config", true) {
            Ok(f) => f,
            Err(e) => {
                return Err(e);
            },
        };
        let uki = match fetch_string(oracle, env, name_raw.as_slice(), "uki", false) {
            Ok(f) => f,
            Err(e) => {
                return Err(e);
            },
        };
        let efi_image = match fetch_string(oracle, env, name_raw.as_slice(), "efi_image", false) {
            Ok(f) => f,
            Err(e) => {
                return Err(e);
            },
        };
        let image = match fetch_string(oracle, env, name_raw.as_slice(), "image", false) {
            Ok(f) => f,
            Err(e) => {
                return Err(e);
            },
        };
        let suffix_bytes = lit_bytes("options");
        let options_key = build_key(name_raw.as_slice(), suffix_bytes.as_slice());
        let options = match env.get(options_key.as_slice()) {
            None => None,
            Some(v) => match preset_array(oracle, v) {
                Ok(a) => Some(a),
                Err(e) => {
                    return Err(e);
                },
            },
        };
        let microcode = match fetch_string(oracle, env, name_raw.as_slice(), "microcode", true) {
            Ok(f) => f,
            Err(e) => {
                return Err(e);
            },
        };
        Ok(
            Preset {
                filename: filename.duplicate(),
                name: name.duplicate(),
                kver,
                config,
                uki,
                efi_image,
                image,
                options,
                microcode,
            },
        )
    }

    /// Read every preset that `env` names in `PRESETS`: a scalar counts as
    /// the one name it holds, an array as one name per entry, in order.
    pub fn presets_from_environment<O: ShellOracle>(
        oracle: &mut O,
        filename: &BashString,
        env: &Environment,
    ) -> (r: Result<Vec<Self>, Error>)
        ensures
            (r is Err && r->Err_0 is MissingPresets) <==> env.lookup(name_presets()) is None,
            r is Ok ==> presets_read_environment(r->Ok_0@, *env) && (forall|i: int|
                0 <= i < r->Ok_0@.len() ==> (#[trigger] r->Ok_0@[i]).filename@ == filename@),
    {
        proof {
            reveal_strlit("PRESETS");
            assert(vstd::string::is_ascii("PRESETS"));
        }
        let key = lit_bytes("PRESETS");
        let names: Vec<BashString> = match env.get(key.as_slice()) {
            None => {
                return Err(Error::MissingPresets);
            },
            Some(BashValue::Array(a)) => {
                let re = match a.reescape(oracle) {
                    Ok(re) => re,
                    Err(e) => {
                        proof {
                            assert(!(e is MissingPresets));
                        }
                        return Err(e);
                    },
                };
                re.into_values()
            },
            Some(BashValue::Scalar(s)) => {
                let re = match s.reescape(oracle) {
                    Ok(re) => re,
                    Err(e) => {
                        proof {
                            assert(!(e is MissingPresets));
                        }
                        return Err(e);
                    },
                };
                let mut one: Vec<BashString> = Vec::new();
                one.push(re);
                one
            },
        };
        let ghost scalar_case = env.lookup(name_presets())->0 is Scalar;
        let mut out: Vec<Preset> = Vec::new();
        let mut i: usize = 0;
        while i < names.len()
            invariant
                i <= names@.len(),
                out@.len() == i,
                scalar_case == (env.lookup(name_presets())->0 is Scalar),
                env.lookup(name_presets()) is Some,
                scalar_case ==> names@.len() == 1 && names@[0]@ == env.lookup(
                    name_presets(),
                )->0->Scalar_0@,
                !scalar_case ==> {
                    let named = env.lookup(name_presets())->0->Array_0.entries_view();
                    names@.len() == named.len() && forall|k: int|
                        0 <= k < names@.len() ==> (#[trigger] names@[k])@ == named[k].1@
                },
                forall|k: int|
                    0 <= k < i ==> (#[trigger] out@[k]).filename@ == filename@ && preset_fields_ok(
                        out@[k],
                        *env,
                        out@[k].name@,
                    ) && out@[k].name@ == names@[k]@,
            decreases names@.len() - i,
        {
            let p = match Self::parse_preset(oracle, filename, env, &names[i]) {
                Ok(p) => p,
                Err(e) => {
                    proof {
                        assert(!(e is MissingPresets));
                    }
                    return Err(e);
                },
            };
            out.push(p);
            i = i + 1;
        }
        Ok(out)
    }
}

/// The index of the last `.` in `s`, or `-1` when there is none.
pub open spec fn last_dot(s: Seq<u8>) -> int
    decreases s.len(),
{
    if s.len() == 0 {
        -1
    } else if s.last() == 46u8 {
        s.len() - 1
    } else {
        last_dot(s.drop_last())
    }
}

/// The stem of a file name: everything before the last `.`, unless the
/// dot leads the name or there is none.
pub open spec fn stem_spec(f: Seq<u8>) -> Seq<u8> {
    if last_dot(f) > 0 {
        f.subrange(0, last_dot(f))
    } else {
        f
    }
}

/// `last_dot` is the greatest index holding `.`, or `-1` when none does.
proof fn lemma_last_dot(s: Seq<u8>)
    ensures
        last_dot(s) == -1 ==> forall|i: int| 0 <= i < s.len() ==> s[i] != 46u8,
        last_dot(s) != -1 ==> {
            let d = last_dot(s);
            &&& 0 <= d < s.len()
            &&& s[d] == 46u8
            &&& forall|i: int| d < i < s.len() ==> s[i] != 46u8
        },
    decreases s.len(),
{
    if s.len() > 0 && s.last() != 46u8 {
        let sub = s.drop_last();
        lemma_last_dot(sub);
        assert forall|i: int| 0 <= i < sub.len() implies sub[i] == s[i] by {}
    }
}

/// The stem of `file`: the name up to its last dot, kept whole when the
/// dot leads the name or there is none.
pub fn file_stem(file: &[u8]) -> (r: Vec<u8>)
    ensures
        r@ == stem_spec(file@),
{
    proof {
        lemma_last_dot(file@);
    }
    let n = file.len();
    let mut i: usize = n;
    while i > 0
        invariant
            i <= n,
            n == file@.len(),
            forall|j: int| i <= j < n ==> file@[j] != 46u8,
        decreases i,
    {
        if file[i - 1] == 46 {
            proof {
                lemma_last_dot(file@);
                assert(file@[i - 1] == 46u8);
                assert(last_dot(file@) == i - 1);
            }
            if i - 1 > 0 {
                return crate::strings::subvec(file, 0, i - 1);
            } else {
                return vstd::slice::slice_to_vec(file);
            }
        }
        i = i - 1;
    }
    proof {
        assert(last_dot(file@) == -1);
    }
    vstd::slice::slice_to_vec(file)
}

/// One `<name>_<suffix>=<source>` line with its line feed.
pub open spec fn preset_line(name_src: Seq<u8>, suffix: Seq<u8>, source: Seq<u8>) -> Seq<u8> {
    name_src + seq![95u8] + suffix + seq![61u8] + source + seq![10u8]
}

/// The line a string field writes: nothing when the field is absent.
pub open spec fn field_line(name_src: Seq<u8>, suffix: Seq<u8>, f: Option<BashString>) -> Seq<u8> {
    match f {
        None => Seq::empty(),
        Some(s) => preset_line(name_src, suffix, s.source_view()),
    }
}

/// The line the options field writes: nothing when it is absent.
pub open spec fn options_line(name_src: Seq<u8>, f: Option<BashArray>) -> Seq<u8> {
    match f {
        None => Seq::empty(),
        Some(a) => preset_line(name_src, ascii_bytes("options"@), a.source_view()),
    }
}

/// The preset as file text: its own `PRESETS` line, then one line per
/// present field, in fixed order.
pub open spec fn preset_render_spec(p: Preset) -> Seq<u8> {
    let n = p.name.source_view();
    ascii_bytes("PRESETS=("@) + n + ascii_bytes(")\n"@) + field_line(n, ascii_bytes("kver"@), p.kver)
        + field_line(n, ascii_bytes("config"@), p.config) + field_line(
        n,
        ascii_bytes("image"@),
        p.image,
    ) + field_line(n, ascii_bytes("uki"@), p.uki) + field_line(
        n,
        ascii_bytes("efi_image"@),
        p.efi_image,
    ) + field_line(n, ascii_bytes("microcode"@), p.microcode) + options_line(n, p.options)
}

/// Append one `<name>_<suffix>=<source>` line for a present string field.
fn push_field_line(out: &mut Vec<u8>, name_src: &[u8], suffix: &str, field: &Option<BashString>)
    requires
        vstd::string::is_ascii(suffix),
    ensures
        final(out)@ == old(out)@ + field_line(name_src@, ascii_bytes(suffix@), *field),
{
    match field {
        None => {
            assert(final(out)@ =~= old(out)@ + field_line(name_src@, ascii_bytes(suffix@), *field));
        },
        Some(s) => {
            push_all(out, name_src);
            out.push(95);
            let sfx = lit_bytes(suffix);
            push_all(out, sfx.as_slice());
            out.push(61);
            push_all(out, s.source().as_slice());
            out.push(10);
            assert(final(out)@ =~= old(out)@ + field_line(name_src@, ascii_bytes(suffix@), *field));
        },
    }
}

impl Preset {
    /// Load every preset from the file `file` at `dir`: source it, then
    /// read each name that `PRESETS` lists. The preset's recorded
    /// filename is the stem of `file`.
    pub fn load_preset<O: ShellOracle>(oracle: &mut O, dir: &[u8], file: &[u8]) -> (r: Result<
        Vec<Self>,
        Error,
    >)
        ensures
            r is Ok ==> (forall|i: int|
                0 <= i < r->Ok_0@.len() ==> (#[trigger] r->Ok_0@[i]).filename@ == stem_spec(file@))
                && exists|env: Environment|
                #[trigger] presets_read_environment(r->Ok_0@, env) && env.wf(),
    {
        let stem = file_stem(file);
        let filename = match BashString::from_raw(oracle, stem.as_slice()) {
            Ok(filename) => filename,
            Err(e) => {
                return Err(e);
            },
        };
        let env = match crate::value::source(oracle, dir, file) {
            Ok(env) => env,
            Err(e) => {
                return Err(e);
            },
        };
        let presets = match Self::presets_from_environment(oracle, &filename, &env) {
            Ok(presets) => presets,
            Err(e) => {
                return Err(e);
            },
        };
        proof {
            assert(presets_read_environment(presets@, env));
        }
        Ok(presets)
    }

    /// The preset as file text, ready to be written back: the `PRESETS`
    /// line, then one line per present field, absent fields omitted.
    pub fn render(&self) -> (r: Vec<u8>)
        ensures
            r@ == preset_render_spec(*self),
    {
        proof {
            reveal_strlit("PRESETS=(");
            assert(vstd::string::is_ascii("PRESETS=("));
            reveal_strlit(")\n");
            assert(vstd::string::is_ascii(")\n"));
            reveal_strlit("kver");
            assert(vstd::string::is_ascii("kver"));
            reveal_strlit("config");
            assert(vstd::string::is_ascii("config"));
            reveal_strlit("image");
            assert(vstd::string::is_ascii("image"));
            reveal_strlit("uki");
            assert(vstd::string::is_ascii("uki"));
            reveal_strlit("efi_image");
            assert(vstd::string::is_ascii("efi_image"));
            reveal_strlit("microcode");
            assert(vstd::string::is_ascii("microcode"));
            reveal_strlit("options");
            assert(vstd::string::is_ascii("options"));
        }
        let mut out = lit_bytes("PRESETS=(");
        let name_src = self.name.source();
        push_all(&mut out, name_src.as_slice());
        let close = lit_bytes(")\n");
        push_all(&mut out, close.as_slice());
        push_field_line(&mut out, name_src.as_slice(), "kver", &self.kver);
        push_field_line(&mut out, name_src.as_slice(), "config", &self.config);
        push_field_line(&mut out, name_src.as_slice(), "image", &self.image);
        push_field_line(&mut out, name_src.as_slice(), "uki", &self.uki);
        push_field_line(&mut out, name_src.as_slice(), "efi_image", &self.efi_image);
        push_field_line(&mut out, name_src.as_slice(), "microcode", &self.microcode);
        match &self.options {
            None => {
                proof {
                    assert(out@ =~= preset_render_spec(*self));
                }
            },
            Some(a) => {
                push_all(&mut out, name_src.as_slice());
                out.push(95);
                let sfx = lit_bytes("options");
                push_all(&mut out, sfx.as_slice());
                out.push(61);
                push_all(&mut out, a.source().as_slice());
                out.push(10);
                proof {
                    assert(out@ =~= preset_render_spec(*self));
                }
            },
        }
        out
    }
}

} // verus!
