//! The host program's settings: the file paths and plugin name it was
//! started with, the path the plugin library is looked up under, and the
//! image-format check applied to the input and output paths. Reading the
//! command line and asking the file system about the paths happen outside
//! this crate; these functions work on the plain strings.

use vstd::prelude::*;
use vstd::string::{StrSliceExecFns, StringExecFns};
use crate::text::{ends_with_spec, find_last, last_index_of, range_matches, str_ends_with};

verus! {

/// The host program's settings, as decoded from its command line.
pub struct Args {
    /// Input image file path.
    pub input: String,
    /// Output image file path.
    pub output: String,
    /// Plugin name.
    pub plugin: String,
    /// Plugin parameters file path.
    pub params: String,
    /// Plugin directory path, when one was given.
    pub plugin_path: Option<String>,
}

/// The file name a plugin is looked up under: the plugin name itself when it
/// already ends with the platform library extension, otherwise the name with
/// a dot and that extension appended.
pub open spec fn plugin_file_name(plugin: Seq<char>, ext: Seq<char>) -> Seq<char> {
    if ends_with_spec(plugin, ext) {
        plugin
    } else {
        plugin + "."@ + ext
    }
}

/// The directory the plugin is looked up in: the one given on the command
/// line, or the default.
pub open spec fn plugin_dir_of(args: Args, default_dir: Seq<char>) -> Seq<char> {
    match args.plugin_path {
        Some(d) => d@,
        None => default_dir,
    }
}

/// Joins a directory and a file name as `Path::join` does on `/` paths: an
/// absolute name replaces the directory, and a separator is inserted only
/// where one is missing.
pub open spec fn joined_path(dir: Seq<char>, name: Seq<char>) -> Seq<char> {
    if name.len() > 0 && name[0] == '/' {
        name
    } else if dir.len() == 0 {
        name
    } else if dir.last() == '/' {
        dir + name
    } else {
        dir + "/"@ + name
    }
}

/// The full path the plugin library is loaded from: the chosen directory
/// joined with the plugin's file name.
pub open spec fn plugin_path_spec(args: Args, default_dir: Seq<char>, ext: Seq<char>) -> Seq<char> {
    joined_path(plugin_dir_of(args, default_dir), plugin_file_name(args.plugin@, ext))
}

/// The path with trailing `/` separators and trailing `.` components
/// removed, as `Path` iterates components: `"x.png/"` and `"x.png/."` both
/// name the file `x.png`.
pub open spec fn strip_trailing_dirs(path: Seq<char>) -> Seq<char>
    decreases path.len(),
{
    if path.len() > 0 && path.last() == '/' {
        strip_trailing_dirs(path.drop_last())
    } else if path.len() > 0 && path.last() == '.' && (path.len() == 1 || path[path.len() - 2]
        == '/') {
        strip_trailing_dirs(path.drop_last())
    } else {
        path
    }
}

/// The file name the path ends in: the final component, read past any
/// trailing separators or `.` components.
pub open spec fn file_name_of(path: Seq<char>) -> Seq<char> {
    let t = strip_trailing_dirs(path);
    t.skip(last_index_of(t, '/') + 1)
}

/// The extension of the path's file name: what follows the last `.`, absent
/// when the name holds no `.` or only a leading one.
pub open spec fn extension_of(path: Seq<char>) -> Option<Seq<char>> {
    let name = file_name_of(path);
    let j = last_index_of(name, '.');
    if j > 0 {
        Some(name.skip(j + 1))
    } else {
        None
    }
}

/// Whether the path names a file in a supported image format: its extension
/// must be exactly `png`.
pub open spec fn is_supported_image_spec(path: Seq<char>) -> bool {
    extension_of(path) == Some("png"@)
}

/// Checks the path's extension against the supported image formats.
#[verifier::loop_isolation(false)]
pub fn is_supported_image_format(image_path: &str) -> (r: bool)
    ensures
        r == is_supported_image_spec(image_path@),
{
    let n = image_path.unicode_len();
    proof {
        assert(image_path@.take(n as int) =~= image_path@);
    }
    let mut e = n;
    while e > 0 && (image_path.get_char(e - 1) == '/' || (image_path.get_char(e - 1) == '.' && (e
        == 1 || image_path.get_char(e - 2) == '/')))
        invariant
            e <= n,
            strip_trailing_dirs(image_path@) == strip_trailing_dirs(image_path@.take(e as int)),
        decreases e,
    {
        proof {
            assert(image_path@.take(e as int).drop_last() =~= image_path@.take(e as int - 1));
        }
        e = e - 1;
    }
    let ghost t = image_path@.take(e as int);
    proof {
        assert(strip_trailing_dirs(t) == t);
        assert(image_path@.subrange(0, e as int) =~= t);
    }
    let start = match find_last(image_path, 0, e, '/') {
        Some(p) => p + 1,
        None => 0,
    };
    proof {
        assert(file_name_of(image_path@) =~= image_path@.subrange(start as int, e as int));
    }
    match find_last(image_path, start, e, '.') {
        None => false,
        Some(p) => {
            if p == start {
                false
            } else {
                proof {
                    assert(file_name_of(image_path@).skip(p - start + 1) =~= image_path@.subrange(
                        p as int + 1,
                        e as int,
                    ));
                }
                range_matches(image_path, p + 1, e, "png")
            }
        },
    }
}

impl Args {
    /// Bundles the decoded command-line values.
    pub fn new(
        input: String,
        output: String,
        plugin: String,
        params: String,
        plugin_path: Option<String>,
    ) -> (a: Args)
        ensures
            a.input@ == input@,
            a.output@ == output@,
            a.plugin@ == plugin@,
            a.params@ == params@,
            a.plugin_path == plugin_path,
    {
        Args { input, output, plugin, params, plugin_path }
    }

    /// The full path the plugin library is loaded from: the chosen directory
    /// joined (as `Path::join` joins) with the plugin's file name, the
    /// extension appended unless the name already ends with it.
    pub fn plugin_path(&self, default_plugin_directory: &str, lib_extension: &str) -> (p: String)
        ensures
            p@ == plugin_path_spec(*self, default_plugin_directory@, lib_extension@),
    {
        let mut name = String::new();
        name.append(self.plugin.as_str());
        if !str_ends_with(self.plugin.as_str(), lib_extension) {
            name.append(".");
            name.append(lib_extension);
        }
        proof {
            assert(name@ == plugin_file_name(self.plugin@, lib_extension@));
        }
        let dir: &str = match &self.plugin_path {
            Some(d) => d.as_str(),
            None => default_plugin_directory,
        };
        let name_len = name.as_str().unicode_len();
        if name_len > 0 && name.as_str().get_char(0) == '/' {
            return name;
        }
        let dir_len = dir.unicode_len();
        if dir_len == 0 {
            return name;
        }
        let mut p = String::new();
        p.append(dir);
        if dir.get_char(dir_len - 1) != '/' {
            p.append("/");
        }
        p.append(name.as_str());
        proof {
            assert(p@ == plugin_path_spec(*self, default_plugin_directory@, lib_extension@));
        }
        p
    }

    /// The input image file path.
    pub fn get_input(&self) -> (r: &str)
        ensures
            r@ == self.input@,
    {
        self.input.as_str()
    }

    /// The output image file path.
    pub fn get_output(&self) -> (r: &str)
        ensures
            r@ == self.output@,
    {
        self.output.as_str()
    }

    /// The plugin parameters file path.
    pub fn get_params(&self) -> (r: &str)
        ensures
            r@ == self.params@,
    {
        self.params.as_str()
    }
}

} // verus!
