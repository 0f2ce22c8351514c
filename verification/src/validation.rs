//! Validation of the host program's settings before a run: each check in
//! the order the run would hit it, each failure as a typed error. The file
//! system is consulted outside this crate; its answers arrive here as plain
//! truth values.

use vstd::prelude::*;
use vstd::string::StrSliceExecFns;
use crate::args::{is_supported_image_format, is_supported_image_spec, Args};

verus! {

/// Why the settings were rejected.
#[derive(Clone, Copy, Debug, PartialEq, Eq, Structural)]
pub enum ArgError {
    /// The input file does not exist.
    InputMissing,
    /// The input file is not in a supported image format.
    InputFormat,
    /// The output file is not in a supported image format.
    OutputFormat,
    /// The plugin name is empty.
    PluginNameEmpty,
    /// The plugin parameters file does not exist.
    ParamsMissing,
    /// The plugin directory path is empty.
    PluginDirEmpty,
    /// The plugin directory does not exist.
    PluginDirMissing,
    /// The plugin directory is not a directory.
    PluginDirNotDir,
    /// The plugin library itself does not exist.
    PluginMissing,
}

/// What the file system says about the paths a run would touch, gathered by
/// the host before validation.
#[derive(Clone, Copy, Debug, PartialEq, Eq, Structural)]
pub struct FsFacts {
    /// The input image file exists.
    pub input_exists: bool,
    /// The parameters file exists.
    pub params_exists: bool,
    /// The plugin directory the run would use exists.
    pub plugin_dir_exists: bool,
    /// That directory really is a directory.
    pub plugin_dir_is_dir: bool,
    /// The plugin library file exists under that directory.
    pub plugin_file_exists: bool,
}

/// The outcome validation owes for given settings and file-system answers:
/// the first failing check decides the error.
pub open spec fn validate_spec(
    input: Seq<char>,
    output: Seq<char>,
    plugin: Seq<char>,
    facts: FsFacts,
) -> Result<(), ArgError> {
    if !facts.input_exists {
        Err(ArgError::InputMissing)
    } else if !is_supported_image_spec(input) {
        Err(ArgError::InputFormat)
    } else if !is_supported_image_spec(output) {
        Err(ArgError::OutputFormat)
    } else if plugin.len() == 0 {
        Err(ArgError::PluginNameEmpty)
    } else if !facts.params_exists {
        Err(ArgError::ParamsMissing)
    } else if !facts.plugin_dir_exists {
        Err(ArgError::PluginDirMissing)
    } else if !facts.plugin_dir_is_dir {
        Err(ArgError::PluginDirNotDir)
    } else if !facts.plugin_file_exists {
        Err(ArgError::PluginMissing)
    } else {
        Ok(())
    }
}

/// Validates the settings against the file system's answers, in the order
/// a run would hit the failures: input, formats, plugin name, parameters
/// file, plugin directory, plugin library.
pub fn validate_args(args: &Args, facts: FsFacts) -> (r: Result<(), ArgError>)
    ensures
        r == validate_spec(args.input@, args.output@, args.plugin@, facts),
{
    if !facts.input_exists {
        return Err(ArgError::InputMissing);
    }
    if !is_supported_image_format(args.input.as_str()) {
        return Err(ArgError::InputFormat);
    }
    if !is_supported_image_format(args.output.as_str()) {
        return Err(ArgError::OutputFormat);
    }
    if args.plugin.as_str().is_empty() {
        return Err(ArgError::PluginNameEmpty);
    }
    if !facts.params_exists {
        return Err(ArgError::ParamsMissing);
    }
    if !facts.plugin_dir_exists {
        return Err(ArgError::PluginDirMissing);
    }
    if !facts.plugin_dir_is_dir {
        return Err(ArgError::PluginDirNotDir);
    }
    if !facts.plugin_file_exists {
        return Err(ArgError::PluginMissing);
    }
    Ok(())
}

/// Decodes an input image path: it must exist (the host's answer) and be in
/// a supported format.
pub fn parse_input_file_path(path: &str, exists: bool) -> (r: Result<String, ArgError>)
    ensures
        r is Ok <==> exists && is_supported_image_spec(path@),
        (r matches Ok(p) ==> p@ == path@),
        !exists ==> r == Err::<String, ArgError>(ArgError::InputMissing),
        exists && !is_supported_image_spec(path@) ==> r == Err::<String, ArgError>(
            ArgError::InputFormat,
        ),
{
    if !exists {
        return Err(ArgError::InputMissing);
    }
    if !is_supported_image_format(path) {
        return Err(ArgError::InputFormat);
    }
    Ok(path.to_owned())
}

/// Decodes an output image path: it must be in a supported format.
pub fn parse_output_file_path(path: &str) -> (r: Result<String, ArgError>)
    ensures
        r is Ok <==> is_supported_image_spec(path@),
        (r matches Ok(p) ==> p@ == path@),
        !is_supported_image_spec(path@) ==> r == Err::<String, ArgError>(ArgError::OutputFormat),
{
    if !is_supported_image_format(path) {
        return Err(ArgError::OutputFormat);
    }
    Ok(path.to_owned())
}

/// Decodes a plugin name: it must not be empty.
pub fn parse_plugin_name(path: &str) -> (r: Result<String, ArgError>)
    ensures
        r is Ok <==> path@.len() > 0,
        (r matches Ok(p) ==> p@ == path@),
        path@.len() == 0 ==> r == Err::<String, ArgError>(ArgError::PluginNameEmpty),
{
    if path.is_empty() {
        return Err(ArgError::PluginNameEmpty);
    }
    Ok(path.to_owned())
}

/// Decodes a parameters file path: it must exist (the host's answer).
pub fn parse_params_file_path(path: &str, exists: bool) -> (r: Result<String, ArgError>)
    ensures
        r is Ok <==> exists,
        (r matches Ok(p) ==> p@ == path@),
        !exists ==> r == Err::<String, ArgError>(ArgError::ParamsMissing),
{
    if !exists {
        return Err(ArgError::ParamsMissing);
    }
    Ok(path.to_owned())
}

/// Decodes a plugin directory path: it must be non-empty, exist, and be a
/// directory (the last two are the host's answers).
pub fn parse_plugin_directory(path: &str, exists: bool, is_dir: bool) -> (r: Result<
    String,
    ArgError,
>)
    ensures
        r is Ok <==> path@.len() > 0 && exists && is_dir,
        (r matches Ok(p) ==> p@ == path@),
        path@.len() == 0 ==> r == Err::<String, ArgError>(ArgError::PluginDirEmpty),
        path@.len() > 0 && !exists ==> r == Err::<String, ArgError>(ArgError::PluginDirMissing),
        path@.len() > 0 && exists && !is_dir ==> r == Err::<String, ArgError>(
            ArgError::PluginDirNotDir,
        ),
{
    if path.is_empty() {
        return Err(ArgError::PluginDirEmpty);
    }
    if !exists {
        return Err(ArgError::PluginDirMissing);
    }
    if !is_dir {
        return Err(ArgError::PluginDirNotDir);
    }
    Ok(path.to_owned())
}

} // verus!
