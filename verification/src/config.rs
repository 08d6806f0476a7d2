//! The configuration model: the recognised variables of a configuration
//! file, each field optional, with coercion between scalar and array
//! shapes and serialization back to source text.
//!
//! Absence is meaningful: a field is `None` exactly when the variable was
//! not set in the sourced file, and an unset field writes no line back.

use vstd::prelude::*;

use crate::array::{same_array, BashArray};
use crate::errors::Error;
use crate::scalar::BashString;
use crate::shell::ShellOracle;
use crate::strings::{ascii_bytes, lit_bytes, push_all};
use crate::value::{BashValue, Environment};

verus! {

/// The name of the module list variable.
pub open spec fn name_modules() -> Seq<u8> {
    ascii_bytes("MODULES"@)
}

/// The name of the binary list variable.
pub open spec fn name_binaries() -> Seq<u8> {
    ascii_bytes("BINARIES"@)
}

/// The name of the extra file list variable.
pub open spec fn name_files() -> Seq<u8> {
    ascii_bytes("FILES"@)
}

/// The name of the hook list variable.
pub open spec fn name_hooks() -> Seq<u8> {
    ascii_bytes("HOOKS"@)
}

/// The name of the compression method variable.
pub open spec fn name_compression() -> Seq<u8> {
    ascii_bytes("COMPRESSION"@)
}

/// The name of the compression options variable.
pub open spec fn name_compression_options() -> Seq<u8> {
    ascii_bytes("COMPRESSION_OPTIONS"@)
}

/// The name of the module decompression switch variable.
pub open spec fn name_module_decompress() -> Seq<u8> {
    ascii_bytes("MODULES_DECOMPRESS"@)
}

/// A parsed configuration: each recognised variable, when it was set.
#[derive(Debug)]
pub struct Config {
    /// Modules loaded into the image regardless of hook detection.
    pub modules: Option<BashArray>,
    /// Binaries added to the image as dependencies are resolved.
    pub binaries: Option<BashArray>,
    /// Files added to the image as they are.
    pub files: Option<BashArray>,
    /// Hooks run while the image is built and booted.
    pub hooks: Option<BashArray>,
    /// The compression method for the image.
    pub compression: Option<BashString>,
    /// Extra command line options for the compressor.
    pub compression_options: Option<BashArray>,
    /// Whether modules are decompressed while the image is built.
    pub module_decompress: Option<BashString>,
}

/// Whether `field` reads the looked-up variable faithfully as an array
/// field: present exactly when the variable was, and entry for entry equal
/// when the variable already was an array.
pub open spec fn array_field_ok(field: Option<BashArray>, looked: Option<BashValue>) -> bool {
    match looked {
        None => field is None,
        Some(v) => field is Some && (v is Array ==> same_array(field->0, v->Array_0)),
    }
}

/// Whether `field` reads the looked-up variable faithfully as a string
/// field: present exactly when the variable was, with the same raw bytes
/// when the variable already was a scalar.
pub open spec fn scalar_field_ok(field: Option<BashString>, looked: Option<BashValue>) -> bool {
    match looked {
        None => field is None,
        Some(v) => field is Some && (v is Scalar ==> field->0@ == v->Scalar_0@),
    }
}

/// Coerce a variable to a string field: a scalar is re-quoted as it is, an
/// array is joined by the shell into one word per `${ARRAY[*]}`.
pub fn coerce_string<O: ShellOracle>(oracle: &mut O, value: &BashValue) -> (r: Result<
    BashString,
    Error,
>)
    ensures
        r is Ok && value is Scalar ==> r->Ok_0@ == value->Scalar_0@,
        r is Err ==> !(r->Err_0 is MissingPresets),
{
    match value {
        BashValue::Scalar(s) => s.reescape(oracle),
        BashValue::Array(a) => {
            let s = match a.to_concatenated_string(oracle) {
                Ok(s) => s,
                Err(e) => {
                    return Err(e);
                },
            };
            s.reescape(oracle)
        },
    }
}

/// Coerce a variable to an array field: an array is re-quoted entry by
/// entry, a scalar is split at whitespace by the shell's own word
/// splitting.
pub fn coerce_array<O: ShellOracle>(oracle: &mut O, value: &BashValue) -> (r: Result<
    BashArray,
    Error,
>)
    ensures
        r is Ok && value is Array ==> same_array(r->Ok_0, value->Array_0),
        r is Err ==> !(r->Err_0 is MissingPresets),
{
    match value {
        BashValue::Scalar(s) => {
            let a = match s.arrayize(oracle) {
                Ok(a) => a,
                Err(e) => {
                    return Err(e);
                },
            };
            a.reescape(oracle)
        },
        BashValue::Array(a) => a.reescape(oracle),
    }
}

/// Whether no recognised variable is set in `env`.
pub open spec fn no_recognised_vars(env: Environment) -> bool {
    &&& env.lookup(name_modules()) is None
    &&& env.lookup(name_binaries()) is None
    &&& env.lookup(name_files()) is None
    &&& env.lookup(name_hooks()) is None
    &&& env.lookup(name_compression()) is None
    &&& env.lookup(name_compression_options()) is None
    &&& env.lookup(name_module_decompress()) is None
}

/// Whether `c` reads `env` faithfully: each field present exactly when
/// its variable is set, arrays kept entry for entry and scalars byte for
/// byte where no coercion intervenes.
pub open spec fn config_reads(c: Config, env: Environment) -> bool {
    &&& array_field_ok(c.modules, env.lookup(name_modules()))
    &&& array_field_ok(c.binaries, env.lookup(name_binaries()))
    &&& array_field_ok(c.files, env.lookup(name_files()))
    &&& array_field_ok(c.hooks, env.lookup(name_hooks()))
    &&& scalar_field_ok(c.compression, env.lookup(name_compression()))
    &&& array_field_ok(c.compression_options, env.lookup(name_compression_options()))
    &&& scalar_field_ok(c.module_decompress, env.lookup(name_module_decompress()))
}

impl Config {
    /// Pull the recognised variables out of `env` and coerce each to its
    /// field's shape; everything else in `env` is left behind and ignored.
    /// When nothing recognised is set the result is owed: every field is
    /// absent and nothing can fail.
    pub fn from_environment<O: ShellOracle>(oracle: &mut O, env: Environment) -> (r: Result<
        Self,
        Error,
    >)
        requires
            env.wf(),
        ensures
            r is Ok ==> config_reads(r->Ok_0, env),
            no_recognised_vars(env) ==> r is Ok,
            r is Err ==> !(r->Err_0 is MissingPresets),
    {
        proof {
            reveal_strlit("MODULES");
            assert(vstd::string::is_ascii("MODULES"));
            reveal_strlit("BINARIES");
            assert(vstd::string::is_ascii("BINARIES"));
            reveal_strlit("FILES");
            assert(vstd::string::is_ascii("FILES"));
            reveal_strlit("HOOKS");
            assert(vstd::string::is_ascii("HOOKS"));
            reveal_strlit("COMPRESSION");
            assert(vstd::string::is_ascii("COMPRESSION"));
            reveal_strlit("COMPRESSION_OPTIONS");
            assert(vstd::string::is_ascii("COMPRESSION_OPTIONS"));
            reveal_strlit("MODULES_DECOMPRESS");
            assert(vstd::string::is_ascii("MODULES_DECOMPRESS"));
            assert(name_modules().len() == 7 && name_binaries().len() == 8 && name_files().len()
                == 5 && name_hooks().len() == 5 && name_compression().len() == 11
                && name_compression_options().len() == 19 && name_module_decompress().len() == 18);
            assert(name_files()[0] == 70u8 && name_hooks()[0] == 72u8);
        }
        let mut env = env;
        let key = lit_bytes("MODULES");
        let got_modules = env.remove(key.as_slice());
        let key = lit_bytes("BINARIES");
        let got_binaries = env.remove(key.as_slice());
        let key = lit_bytes("FILES");
        let got_files = env.remove(key.as_slice());
        let key = lit_bytes("HOOKS");
        let got_hooks = env.remove(key.as_slice());
        let key = lit_bytes("COMPRESSION");
        let got_compression = env.remove(key.as_slice());
        let key = lit_bytes("COMPRESSION_OPTIONS");
        let got_compression_options = env.remove(key.as_slice());
        let key = lit_bytes("MODULES_DECOMPRESS");
        let got_module_decompress = env.remove(key.as_slice());
        let modules = match got_modules {
            None => None,
            Some(v) => match coerce_array(oracle, &v) {
                Ok(a) => Some(a),
                Err(e) => {
                    return Err(e);
                },
            },
        };
        let binaries = match got_binaries {
            None => None,
            Some(v) => match coerce_array(oracle, &v) {
                Ok(a) => Some(a),
                Err(e) => {
                    return Err(e);
                },
            },
        };
        let files = match got_files {
            None => None,
            Some(v) => match coerce_array(oracle, &v) {
                Ok(a) => Some(a),
                Err(e) => {
                    return Err(e);
                },
            },
        };
        let hooks = match got_hooks {
            None => None,
            Some(v) => match coerce_array(oracle, &v) {
                Ok(a) => Some(a),
                Err(e) => {
                    return Err(e);
                },
            },
        };
        let compression = match got_compression {
            None => None,
            Some(v) => match coerce_string(oracle, &v) {
                Ok(s) => Some(s),
                Err(e) => {
                    return Err(e);
                },
            },
        };
        let compression_options = match got_compression_options {
            None => None,
            Some(v) => match coerce_array(oracle, &v) {
                Ok(a) => Some(a),
                Err(e) => {
                    return Err(e);
                },
            },
        };
        let module_decompress = match got_module_decompress {
            None => None,
            Some(v) => match coerce_string(oracle, &v) {
                Ok(s) => Some(s),
                Err(e) => {
                    return Err(e);
                },
            },
        };
        Ok(
            Config {
                modules,
                binaries,
                files,
                hooks,
                compression,
                compression_options,
                module_decompress,
            },
        )
    }

    /// Source the configuration file `file` at `dir` and read the
    /// recognised variables out of the environment it leaves: some
    /// faithfully parsed environment stands between the shell's output
    /// and every field of the result.
    pub fn load_config<O: ShellOracle>(oracle: &mut O, dir: &[u8], file: &[u8]) -> (r: Result<
        Self,
        Error,
    >)
        ensures
            r is Ok ==> exists|env: Environment, out: Seq<u8>|
                env.wf() && #[trigger] crate::value::environment_reads(env, out) && config_reads(
                    r->Ok_0,
                    env,
                ),
            r is Err ==> !(r->Err_0 is MissingPresets),
    {
        let env = match crate::value::source(oracle, dir, file) {
            Ok(env) => env,
            Err(e) => {
                return Err(e);
            },
        };
        let ghost env0 = env;
        let config = match Self::from_environment(oracle, env) {
            Ok(config) => config,
            Err(e) => {
                return Err(e);
            },
        };
        proof {
            let out = choose|out: Seq<u8>| crate::value::environment_reads(env0, out);
            assert(crate::value::environment_reads(env0, out));
            assert(config_reads(config, env0));
        }
        Ok(config)
    }
}

/// One `NAME=source` line with its line feed.
pub open spec fn line_for(name: Seq<u8>, source: Seq<u8>) -> Seq<u8> {
    name + seq![61u8] + source + seq![10u8]
}

/// The line a string field writes: nothing when the field is absent.
pub open spec fn scalar_line(name: Seq<u8>, field: Option<BashString>) -> Seq<u8> {
    match field {
        None => Seq::empty(),
        Some(s) => line_for(name, s.source_view()),
    }
}

/// The line an array field writes: nothing when the field is absent.
pub open spec fn array_line(name: Seq<u8>, field: Option<BashArray>) -> Seq<u8> {
    match field {
        None => Seq::empty(),
        Some(a) => line_for(name, a.source_view()),
    }
}

/// The configuration as file text: one line per present field, in the
/// fixed order of the recognised variables.
pub open spec fn config_render_spec(c: Config) -> Seq<u8> {
    array_line(name_modules(), c.modules) + array_line(name_binaries(), c.binaries) + array_line(
        name_files(),
        c.files,
    ) + array_line(name_hooks(), c.hooks) + scalar_line(name_compression(), c.compression)
        + array_line(name_compression_options(), c.compression_options) + scalar_line(
        name_module_decompress(),
        c.module_decompress,
    )
}

/// Append one `NAME=source` line for a present string field.
fn push_scalar_line(out: &mut Vec<u8>, name: &[u8], field: &Option<BashString>)
    ensures
        final(out)@ == old(out)@ + scalar_line(name@, *field),
{
    match field {
        None => {
            assert(final(out)@ =~= old(out)@ + scalar_line(name@, *field));
        },
        Some(s) => {
            push_all(out, name);
            out.push(61);
            push_all(out, s.source().as_slice());
            out.push(10);
            assert(final(out)@ =~= old(out)@ + scalar_line(name@, *field));
        },
    }
}

/// Append one `NAME=source` line for a present array field.
fn push_array_line(out: &mut Vec<u8>, name: &[u8], field: &Option<BashArray>)
    ensures
        final(out)@ == old(out)@ + array_line(name@, *field),
{
    match field {
        None => {
            assert(final(out)@ =~= old(out)@ + array_line(name@, *field));
        },
        Some(a) => {
            push_all(out, name);
            out.push(61);
            push_all(out, a.source().as_slice());
            out.push(10);
            assert(final(out)@ =~= old(out)@ + array_line(name@, *field));
        },
    }
}

impl Config {
    /// The configuration as file text, ready to be written back: one
    /// `NAME=source` line per present field, absent fields omitted.
    pub fn render(&self) -> (r: Vec<u8>)
        ensures
            r@ == config_render_spec(*self),
    {
        proof {
            reveal_strlit("MODULES");
            assert(vstd::string::is_ascii("MODULES"));
            reveal_strlit("BINARIES");
            assert(vstd::string::is_ascii("BINARIES"));
            reveal_strlit("FILES");
            assert(vstd::string::is_ascii("FILES"));
            reveal_strlit("HOOKS");
            assert(vstd::string::is_ascii("HOOKS"));
            reveal_strlit("COMPRESSION");
            assert(vstd::string::is_ascii("COMPRESSION"));
            reveal_strlit("COMPRESSION_OPTIONS");
            assert(vstd::string::is_ascii("COMPRESSION_OPTIONS"));
            reveal_strlit("MODULES_DECOMPRESS");
            assert(vstd::string::is_ascii("MODULES_DECOMPRESS"));
        }
        let mut out: Vec<u8> = Vec::new();
        let name = lit_bytes("MODULES");
        push_array_line(&mut out, name.as_slice(), &self.modules);
        let name = lit_bytes("BINARIES");
        push_array_line(&mut out, name.as_slice(), &self.binaries);
        let name = lit_bytes("FILES");
        push_array_line(&mut out, name.as_slice(), &self.files);
        let name = lit_bytes("HOOKS");
        push_array_line(&mut out, name.as_slice(), &self.hooks);
        let name = lit_bytes("COMPRESSION");
        push_scalar_line(&mut out, name.as_slice(), &self.compression);
        let name = lit_bytes("COMPRESSION_OPTIONS");
        push_array_line(&mut out, name.as_slice(), &self.compression_options);
        let name = lit_bytes("MODULES_DECOMPRESS");
        push_scalar_line(&mut out, name.as_slice(), &self.module_decompress);
        proof {
            assert(out@ =~= config_render_spec(*self));
        }
        out
    }
}

} // verus!
