//! Building a mock preset for one measured run: a copy of a preset and a
//! configuration, redirected into a scratch directory, with compression
//! turned off so that the image is written raw.
//!
//! Everything here is value work — paths as bytes, fields replaced,
//! files rendered; writing the results to disk is the caller's part.

use vstd::prelude::*;

use crate::config::{config_render_spec, Config};
use crate::errors::Error;
use crate::preset::{preset_render_spec, stem_spec, Preset};
use crate::scalar::BashString;
use crate::shell::ShellOracle;
use crate::strings::{ascii_bytes, lit_bytes, push_all};

verus! {

/// `a` and `b` joined as one path: `b` goes under `a`, with exactly one
/// separator between them.
pub open spec fn join_spec(a: Seq<u8>, b: Seq<u8>) -> Seq<u8> {
    if a.len() == 0 {
        b
    } else if a.last() == 47u8 {
        a + b
    } else {
        a + seq![47u8] + b
    }
}

/// `a` and `b` joined as one path.
pub fn join_path(a: &[u8], b: &[u8]) -> (r: Vec<u8>)
    ensures
        r@ == join_spec(a@, b@),
{
    let mut out = vstd::slice::slice_to_vec(a);
    if a.len() > 0 && a[a.len() - 1] != 47 {
        out.push(47);
    }
    push_all(&mut out, b);
    proof {
        assert(out@ =~= join_spec(a@, b@));
    }
    out
}

/// A mock preset, ready to be written out: the scratch directory, each
/// file's path and rendered text, and the adjusted values themselves.
pub struct MockPreset {
    /// The scratch directory the mock lives in.
    pub preset_dir: Vec<u8>,
    /// Where the mock configuration file goes.
    pub config_path: Vec<u8>,
    /// Where the mock preset file goes.
    pub preset_path: Vec<u8>,
    /// Where the mock preset writes its image.
    pub image_path: Vec<u8>,
    /// Where the mock preset writes its unified kernel image.
    pub uki_path: Vec<u8>,
    /// The adjusted configuration.
    pub config: Config,
    /// The adjusted preset.
    pub preset: Preset,
    /// The configuration file's text.
    pub config_text: Vec<u8>,
    /// The preset file's text.
    pub preset_text: Vec<u8>,
}

/// Build the mock for `preset` under `output_dir`, starting from
/// `config`: the scratch directory is `output_dir/<file stem>/<name>`,
/// compression becomes `cat` with no options so the image stays raw, and
/// the preset is pointed at the mock configuration and at fresh image
/// paths, with the legacy EFI image dropped.
pub fn create_mock_preset<O: ShellOracle>(
    oracle: &mut O,
    preset: Preset,
    output_dir: &[u8],
    config: Config,
) -> (r: Result<MockPreset, Error>)
    ensures
        r is Ok ==> {
            let m = r->Ok_0;
            &&& m.preset_dir@ == join_spec(
                join_spec(output_dir@, stem_spec(preset.filename@)),
                preset.name@,
            )
            &&& m.config_path@ == join_spec(m.preset_dir@, ascii_bytes("mkinitcpio.conf"@))
            &&& m.image_path@ == join_spec(m.preset_dir@, ascii_bytes("test.img"@))
            &&& m.uki_path@ == join_spec(m.preset_dir@, ascii_bytes("test.efi"@))
            &&& m.preset_path@ == join_spec(
                m.preset_dir@,
                stem_spec(preset.filename@) + ascii_bytes(".preset"@),
            )
            &&& m.config.modules == config.modules
            &&& m.config.binaries == config.binaries
            &&& m.config.files == config.files
            &&& m.config.hooks == config.hooks
            &&& m.config.module_decompress == config.module_decompress
            &&& m.config.compression is Some
            &&& m.config.compression->0@ == ascii_bytes("cat"@)
            &&& m.config.compression_options is None
            &&& m.preset.filename@ == preset.filename@
            &&& m.preset.name@ == preset.name@
            &&& m.preset.name.source_view() == preset.name.source_view()
            &&& m.preset.kver == preset.kver
            &&& m.preset.microcode == preset.microcode
            &&& m.preset.options == preset.options
            &&& m.preset.config is Some
            &&& m.preset.config->0@ == m.config_path@
            &&& m.preset.image is Some
            &&& m.preset.image->0@ == m.image_path@
            &&& m.preset.uki is Some
            &&& m.preset.uki->0@ == m.uki_path@
            &&& m.preset.efi_image is None
            &&& m.config_text@ == config_render_spec(m.config)
            &&& m.preset_text@ == preset_render_spec(m.preset)
        },
{
    proof {
        reveal_strlit("mkinitcpio.conf");
        assert(vstd::string::is_ascii("mkinitcpio.conf"));
        reveal_strlit("test.img");
        assert(vstd::string::is_ascii("test.img"));
        reveal_strlit("test.efi");
        assert(vstd::string::is_ascii("test.efi"));
        reveal_strlit(".preset");
        assert(vstd::string::is_ascii(".preset"));
        reveal_strlit("cat");
        assert(vstd::string::is_ascii("cat"));
    }
    let stem = crate::preset::file_stem(preset.filename.as_raw().as_slice());
    let with_stem = join_path(output_dir, stem.as_slice());
    let preset_dir = join_path(with_stem.as_slice(), preset.name.as_raw().as_slice());

    let part = lit_bytes("mkinitcpio.conf");
    let config_path = join_path(preset_dir.as_slice(), part.as_slice());
    let part = lit_bytes("test.img");
    let image_path = join_path(preset_dir.as_slice(), part.as_slice());
    let part = lit_bytes("test.efi");
    let uki_path = join_path(preset_dir.as_slice(), part.as_slice());
    let mut preset_file = stem;
    let part = lit_bytes(".preset");
    push_all(&mut preset_file, part.as_slice());
    let preset_path = join_path(preset_dir.as_slice(), preset_file.as_slice());

    let cat = lit_bytes("cat");
    let compression = match BashString::from_raw(oracle, cat.as_slice()) {
        Ok(compression) => compression,
        Err(e) => {
            return Err(e);
        },
    };
    let config = Config {
        modules: config.modules,
        binaries: config.binaries,
        files: config.files,
        hooks: config.hooks,
        compression: Some(compression),
        compression_options: None,
        module_decompress: config.module_decompress,
    };

    let config_string = match BashString::from_raw(oracle, config_path.as_slice()) {
        Ok(s) => s,
        Err(e) => {
            return Err(e);
        },
    };
    let image_string = match BashString::from_raw(oracle, image_path.as_slice()) {
        Ok(s) => s,
        Err(e) => {
            return Err(e);
        },
    };
    let uki_string = match BashString::from_raw(oracle, uki_path.as_slice()) {
        Ok(s) => s,
        Err(e) => {
            return Err(e);
        },
    };
    let preset = Preset {
        filename: preset.filename,
        name: preset.name,
        kver: preset.kver,
        config: Some(config_string),
        image: Some(image_string),
        uki: Some(uki_string),
        efi_image: None,
        microcode: preset.microcode,
        options: preset.options,
    };

    let config_text = config.render();
    let preset_text = preset.render();
    Ok(
        MockPreset {
            preset_dir,
            config_path,
            preset_path,
            image_path,
            uki_path,
            config,
            preset,
            config_text,
            preset_text,
        },
    )
}

} // verus!
