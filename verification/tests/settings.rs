use image_processor::args::{is_supported_image_format, Args};
use image_processor::validation::{
    parse_input_file_path, parse_output_file_path, parse_params_file_path, parse_plugin_directory,
    parse_plugin_name, validate_args, ArgError, FsFacts,
};

fn sample_args() -> Args {
    Args::new(
        "in.png".to_string(),
        "out.png".to_string(),
        "blur_plugin".to_string(),
        "params.txt".to_string(),
        None,
    )
}

fn all_good() -> FsFacts {
    FsFacts {
        input_exists: true,
        params_exists: true,
        plugin_dir_exists: true,
        plugin_dir_is_dir: true,
        plugin_file_exists: true,
    }
}

#[test]
fn supported_image_format_is_png_extension() {
    assert!(is_supported_image_format("a.png"));
    assert!(is_supported_image_format("dir/sub/photo.png"));
    assert!(is_supported_image_format("archive.tar.png"));
    assert!(!is_supported_image_format("a.jpg"));
    assert!(!is_supported_image_format("png"));
    assert!(!is_supported_image_format(".png"));
    assert!(!is_supported_image_format("dir/.png"));
    assert!(!is_supported_image_format("dir.png/file"));
    assert!(!is_supported_image_format(""));
}

#[test]
fn supported_image_format_ignores_trailing_separators() {
    // Path::extension reads the final component past trailing separators
    // and `.` components; the checks here agree with it.
    assert!(is_supported_image_format("x.png/"));
    assert!(is_supported_image_format("x.png//"));
    assert!(is_supported_image_format("x.png/."));
    assert!(is_supported_image_format("x.png/./"));
    assert!(!is_supported_image_format("x.png/.."));
    assert!(!is_supported_image_format("."));
    assert!(!is_supported_image_format("/"));
}

#[test]
fn supported_image_format_agrees_with_std_path() {
    let cases = [
        "a.png", "x.png/", "x.png//", "x.png/.", "x.png/./", "x.png/./.", "x.png/..", ".", "..",
        "./.", "/", "", "png", ".png", "dir/.png", "..png", "a/.hidden.png", "a.PNG", "foo.",
        "...", "a/b.png", "./x.png", "dir.png/file", "archive.tar.png",
    ];
    for p in cases {
        let std_says =
            std::path::Path::new(p).extension().unwrap_or_default().to_str().unwrap_or("")
                == "png";
        assert_eq!(is_supported_image_format(p), std_says, "path {:?}", p);
    }
}

#[test]
fn plugin_path_appends_extension_and_joins() {
    let args = sample_args();
    assert_eq!(args.plugin_path("target/debug", "so"), "target/debug/blur_plugin.so");
}

#[test]
fn plugin_path_keeps_existing_extension() {
    let args = Args::new(
        "in.png".to_string(),
        "out.png".to_string(),
        "libblur.so".to_string(),
        "params.txt".to_string(),
        None,
    );
    assert_eq!(args.plugin_path("target/debug", "so"), "target/debug/libblur.so");
}

#[test]
fn plugin_path_prefers_given_directory() {
    let args = Args::new(
        "in.png".to_string(),
        "out.png".to_string(),
        "mirror_plugin".to_string(),
        "params.txt".to_string(),
        Some("/opt/plugins".to_string()),
    );
    assert_eq!(args.plugin_path("target/debug", "so"), "/opt/plugins/mirror_plugin.so");
}

#[test]
fn plugin_path_join_matches_path_semantics() {
    // An absolute plugin name replaces the directory, as Path::join does,
    // and a directory with a trailing separator gains no second one.
    let absolute = Args::new(
        "in.png".to_string(),
        "out.png".to_string(),
        "/opt/plugins/blur.so".to_string(),
        "params.txt".to_string(),
        None,
    );
    assert_eq!(absolute.plugin_path("target/debug", "so"), "/opt/plugins/blur.so");

    let slashed = Args::new(
        "in.png".to_string(),
        "out.png".to_string(),
        "blur".to_string(),
        "params.txt".to_string(),
        Some("plugins/".to_string()),
    );
    assert_eq!(slashed.plugin_path("target/debug", "so"), "plugins/blur.so");
}

#[test]
fn plugin_path_agrees_with_std_join() {
    let cases = [
        ("blur", "target/debug"),
        ("libx.so", "d"),
        ("/abs/x.so", "d"),
        ("blur", "plugins/"),
        ("blur", ""),
        ("queso", "p"),
    ];
    for (plugin, dir) in cases {
        let name = if plugin.ends_with("so") {
            plugin.to_string()
        } else {
            format!("{}.{}", plugin, "so")
        };
        let expected = std::path::Path::new(dir).join(name);
        let args = Args::new(
            "in.png".to_string(),
            "out.png".to_string(),
            plugin.to_string(),
            "params.txt".to_string(),
            Some(dir.to_string()),
        );
        assert_eq!(
            args.plugin_path("target/debug", "so"),
            expected.to_str().unwrap(),
            "plugin {:?} dir {:?}",
            plugin,
            dir
        );
    }
}

#[test]
fn args_getters_return_the_paths() {
    let args = sample_args();
    assert_eq!(args.get_input(), "in.png");
    assert_eq!(args.get_output(), "out.png");
    assert_eq!(args.get_params(), "params.txt");
}

#[test]
fn validate_args_accepts_good_settings() {
    assert_eq!(validate_args(&sample_args(), all_good()), Ok(()));
}

#[test]
fn validate_args_reports_first_failure() {
    let args = sample_args();

    let mut facts = all_good();
    facts.input_exists = false;
    assert_eq!(validate_args(&args, facts), Err(ArgError::InputMissing));

    let mut facts = all_good();
    facts.params_exists = false;
    assert_eq!(validate_args(&args, facts), Err(ArgError::ParamsMissing));

    let mut facts = all_good();
    facts.plugin_dir_exists = false;
    assert_eq!(validate_args(&args, facts), Err(ArgError::PluginDirMissing));

    let mut facts = all_good();
    facts.plugin_dir_is_dir = false;
    assert_eq!(validate_args(&args, facts), Err(ArgError::PluginDirNotDir));

    let mut facts = all_good();
    facts.plugin_file_exists = false;
    assert_eq!(validate_args(&args, facts), Err(ArgError::PluginMissing));
}

#[test]
fn validate_args_checks_formats_and_name() {
    let bad_input = Args::new(
        "in.bmp".to_string(),
        "out.png".to_string(),
        "p".to_string(),
        "params.txt".to_string(),
        None,
    );
    assert_eq!(validate_args(&bad_input, all_good()), Err(ArgError::InputFormat));

    let bad_output = Args::new(
        "in.png".to_string(),
        "out".to_string(),
        "p".to_string(),
        "params.txt".to_string(),
        None,
    );
    assert_eq!(validate_args(&bad_output, all_good()), Err(ArgError::OutputFormat));

    let no_name = Args::new(
        "in.png".to_string(),
        "out.png".to_string(),
        "".to_string(),
        "params.txt".to_string(),
        None,
    );
    assert_eq!(validate_args(&no_name, all_good()), Err(ArgError::PluginNameEmpty));
}

#[test]
fn parse_path_helpers_report_each_error() {
    assert_eq!(parse_input_file_path("a.png", false), Err(ArgError::InputMissing));
    assert_eq!(parse_input_file_path("a.gif", true), Err(ArgError::InputFormat));
    assert_eq!(parse_input_file_path("a.png", true), Ok("a.png".to_string()));

    assert_eq!(parse_output_file_path("b.txt"), Err(ArgError::OutputFormat));
    assert_eq!(parse_output_file_path("b.png"), Ok("b.png".to_string()));

    assert_eq!(parse_plugin_name(""), Err(ArgError::PluginNameEmpty));
    assert_eq!(parse_plugin_name("blur"), Ok("blur".to_string()));

    assert_eq!(parse_params_file_path("p.txt", false), Err(ArgError::ParamsMissing));
    assert_eq!(parse_params_file_path("p.txt", true), Ok("p.txt".to_string()));

    assert_eq!(parse_plugin_directory("", true, true), Err(ArgError::PluginDirEmpty));
    assert_eq!(parse_plugin_directory("d", false, false), Err(ArgError::PluginDirMissing));
    assert_eq!(parse_plugin_directory("d", true, false), Err(ArgError::PluginDirNotDir));
    assert_eq!(parse_plugin_directory("d", true, true), Ok("d".to_string()));
}
