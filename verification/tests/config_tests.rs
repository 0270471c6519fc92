use aigosd::config::{validate, validate_layer_list, validate_on_disk, validate_mesh_name, Config, ConfigBuilder, MeshConfig, MeshesBuilder, Options, TopLevelKey};
use aigosd::layers::LayerRegistry;
use aigosd::log_path::{check_log_path_lexically, decide_log_path, EntryProbe, LogPathError, ParentProbe, TargetProbe};
use aigosd::resolve::Platform;
use indexmap::IndexMap;

const CORE: [&str; 10] = ["dio", "zt-aas", "icae", "poc", "fak", "are", "jib", "icl", "gsas", "able"];

fn registry() -> LayerRegistry {
    LayerRegistry::new(
        CORE.iter().map(|l| l.to_string()).collect(),
        vec!["iam".to_string(), "sck".to_string()],
    )
    .expect("well-formed registry")
}

fn options(logging: &str, restart: &str, log_file: Option<&str>) -> Options {
    Options {
        logging: logging.to_string(),
        restart: restart.to_string(),
        log_file: log_file.map(|f| f.to_string()),
    }
}

fn config_with_mesh(mesh_name: &str) -> Config {
    let mut meshes = IndexMap::new();
    meshes.insert(mesh_name.to_string(), MeshConfig { layers: None });
    Config { meshes, options: options("plaintext", "never", None) }
}

fn config_with_layers(layers: &[&str]) -> Config {
    let mut meshes = IndexMap::new();
    meshes.insert(
        "mesh".to_string(),
        MeshConfig { layers: Some(layers.iter().map(|l| l.to_string()).collect()) },
    );
    Config { meshes, options: options("plaintext", "never", None) }
}

/// Reads a top-level mapping holding `version` (if given), one empty mesh
/// and plaintext options, the way the configuration file reader feeds it.
fn read_top_level(version: Option<&str>) -> Result<Config, String> {
    let mut builder = ConfigBuilder::new();
    if let Some(v) = version {
        match builder.accept_key("version").map_err(|e| e.message())? {
            TopLevelKey::Version => builder.set_version(v.to_string()),
            _ => unreachable!(),
        }
    }
    builder.accept_key("meshes").map_err(|e| e.message())?;
    let mut meshes = MeshesBuilder::new();
    meshes.check_name("mesh1").map_err(|e| e.message())?;
    meshes.add("mesh1".to_string(), MeshConfig { layers: None }).map_err(|e| e.message())?;
    builder.set_meshes(meshes.finish());
    builder.accept_key("options").map_err(|e| e.message())?;
    builder.set_options(options("plaintext", "never", None));
    let config = builder.finish().map_err(|e| e.message())?;
    validate(&registry(), &config, Platform::Unix).map_err(|e| e.message())?;
    Ok(config)
}

#[test]
fn config_accepts_absent_or_supported_version() {
    read_top_level(None).expect("version may be absent");
    read_top_level(Some("1.0.0")).expect("supported version should parse");
}

#[test]
fn config_rejects_unsupported_version_and_unknown_top_level_fields() {
    let unsupported = read_top_level(Some("2.0.0")).expect_err("unsupported version must fail");
    assert!(unsupported.contains("Unsupported config version"));

    let mut builder = ConfigBuilder::new();
    let unknown = builder.accept_key("unexpected").err().expect("unknown top-level field must fail");
    assert!(unknown.message().contains("unknown field"));
}

#[test]
fn mesh_names_are_canonical_and_unambiguous() {
    validate(&registry(), &config_with_mesh("mesh-1.prod_core"), Platform::Unix).expect("valid mesh name");

    for invalid in [
        "",
        "-mesh",
        "mesh@other",
        "mesh/other",
        "mésh",
        "aaaaaaaaaaaaaaaaaaaaaaaaaaaaaaaaaaaaaaaaaaaaaaaaaaaaaaaaaaaaaaaaa",
    ] {
        let error = validate(&registry(), &config_with_mesh(invalid), Platform::Unix).err().expect("invalid mesh name");
        assert!(error.message().contains("mesh name"));
    }
}

#[test]
fn config_rejects_partial_core_layer_lists() {
    let err = validate(&registry(), &config_with_layers(&["dio"]), Platform::Unix).err().expect("partial Core config should be rejected");
    assert!(err
        .message()
        .contains("must include all ten canonical Core layers or omit Core layers"));
}

#[test]
fn config_rejects_duplicate_mesh_names_before_indexmap_overwrite() {
    let mut meshes = MeshesBuilder::new();
    let mut first_error = None;
    for name in ["mesh3", "mesh2", "mesh2"] {
        if let Err(e) = meshes.check_name(name) {
            first_error = Some(e.message());
            break;
        }
        meshes.add(name.to_string(), MeshConfig { layers: None }).expect("fresh mesh name");
    }
    let err = first_error.expect("duplicate mesh config should be rejected");
    assert!(err.contains("Duplicate mesh name 'mesh2' in config.yaml"));
}

#[test]
fn config_rejects_duplicate_core_layers() {
    let mut layers: Vec<&str> = CORE.to_vec();
    layers.insert(1, "dio");
    let err = validate(&registry(), &config_with_layers(&layers), Platform::Unix).err().expect("duplicate Core config should be rejected");
    assert!(err.message().contains("Duplicate Core layer 'dio' in mesh 'mesh'"));
}

#[test]
fn config_rejects_unknown_layers() {
    let err = validate(&registry(), &config_with_layers(&["made-up-layer"]), Platform::Unix).err().expect("unknown layer config should be rejected");
    assert!(err.message().contains("Invalid layer 'made-up-layer' in mesh 'mesh'"));
}

#[test]
fn config_rejects_duplicate_extension_layers() {
    let err = validate(&registry(), &config_with_layers(&["iam", "iam"]), Platform::Unix).err().expect("duplicate extension config should be rejected");
    assert!(err.message().contains("Duplicate extension layer 'iam' in mesh 'mesh'"));
}

#[test]
fn config_without_meshes_is_rejected() {
    let config = Config { meshes: IndexMap::new(), options: options("plaintext", "never", None) };
    let err = validate(&registry(), &config, Platform::Unix).err().expect("no mesh");
    assert_eq!(err.message(), "Config must define at least one mesh");
}

#[test]
fn empty_layer_list_is_rejected() {
    let err = validate(&registry(), &config_with_layers(&[]), Platform::Unix).err().expect("empty layer list");
    assert_eq!(err.message(), "Mesh 'mesh' must omit layers or list Core and/or extension layers");
}

#[test]
fn full_core_and_extensions_are_accepted() {
    let mut layers: Vec<&str> = CORE.to_vec();
    layers.push("sck");
    layers.push("iam");
    validate(&registry(), &config_with_layers(&layers), Platform::Unix).expect("full Core plus extensions");
    validate(&registry(), &config_with_layers(&["iam", "sck"]), Platform::Unix).expect("extensions only");
}

#[test]
fn logging_mode_and_restart_policy_are_checked() {
    let mut config = config_with_mesh("mesh");
    config.options = options("json", "never", None);
    assert_eq!(validate(&registry(), &config, Platform::Unix).err().expect("bad logging").message(), "Invalid logging mode: json");
    config.options = options("structured", "sometimes", None);
    assert_eq!(
        validate(&registry(), &config, Platform::Unix).err().expect("bad restart").message(),
        "Invalid restart policy: sometimes"
    );
    for restart in ["on-failure", "never", "always"] {
        config.options = options("structured", restart, None);
        validate(&registry(), &config, Platform::Unix).expect("known restart policy");
    }
}

#[test]
fn log_file_paths_are_checked_lexically() {
    let mut config = config_with_mesh("mesh");
    config.options = options("plaintext", "never", Some("logs/aigosd.log"));
    validate(&registry(), &config, Platform::Unix).expect("relative log path");
    for (bad, text) in [
        ("", "Log file must be a non-empty relative path inside the runtime directory"),
        ("/abs/aigosd.log", "Log file must be a non-empty relative path inside the runtime directory"),
        ("../escape.log", "Log file path must not contain parent, root, or platform-prefix components"),
        ("logs/../../escape.log", "Log file path must not contain parent, root, or platform-prefix components"),
        ("./", "Log file path must name a file inside the runtime directory"),
    ] {
        config.options = options("plaintext", "never", Some(bad));
        assert_eq!(validate(&registry(), &config, Platform::Unix).err().expect("refused log path").message(), text);
    }
}

#[test]
fn lexical_log_path_keeps_normal_components() {
    let parts = check_log_path_lexically("./logs//./aigosd.log", Platform::Unix).ok().expect("accepted");
    assert_eq!(parts, vec!["logs".to_string(), "aigosd.log".to_string()]);
    assert!(matches!(check_log_path_lexically("a/..", Platform::Unix), Err(LogPathError::OutsideComponent)));
}

#[test]
fn log_path_decision_follows_the_file_system() {
    let plain = vec![("/run/logs".to_string(), EntryProbe::Present), ("/run/logs/aigosd.log".to_string(), EntryProbe::Missing)];
    assert!(decide_log_path(&plain, &ParentProbe::Inside, &TargetProbe::Missing).is_ok());
    assert!(decide_log_path(&plain, &ParentProbe::Inside, &TargetProbe::RegularInside).is_ok());

    let linked = vec![("/run/linked-logs".to_string(), EntryProbe::SymbolicLink), ("/run/linked-logs/aigosd.log".to_string(), EntryProbe::Missing)];
    let err = decide_log_path(&linked, &ParentProbe::Inside, &TargetProbe::Missing).err().expect("symlinked component");
    assert!(err.message().contains("symbolic link"));
    assert_eq!(err.message(), "Log file path must not traverse a symbolic link: /run/linked-logs");

    assert_eq!(
        decide_log_path(&plain, &ParentProbe::Outside, &TargetProbe::Missing).err().expect("parent outside").message(),
        "Log file parent resolves outside the runtime directory"
    );
    assert_eq!(
        decide_log_path(&plain, &ParentProbe::Failed("No such file or directory".to_string()), &TargetProbe::Missing)
            .err()
            .expect("missing parent")
            .message(),
        "No such file or directory"
    );
    assert_eq!(
        decide_log_path(&plain, &ParentProbe::Inside, &TargetProbe::SymbolicLink).err().expect("final link").message(),
        "Log file must not be a symbolic link"
    );
    assert_eq!(
        decide_log_path(&plain, &ParentProbe::Inside, &TargetProbe::NotRegular).err().expect("directory").message(),
        "Configured log path must be a regular file"
    );
    assert_eq!(
        decide_log_path(&plain, &ParentProbe::Inside, &TargetProbe::RegularOutside).err().expect("outside").message(),
        "Log file resolves outside the runtime directory"
    );
}

#[test]
fn top_level_keys_are_recognized_once() {
    let mut builder = ConfigBuilder::new();
    assert!(matches!(builder.accept_key("options"), Ok(TopLevelKey::Options)));
    let dup = builder.accept_key("options").err().expect("duplicate key");
    assert_eq!(dup.message(), "Duplicate top-level key 'options' in config.yaml");
    let unknown = builder.accept_key("unexpected").err().expect("unknown key");
    assert_eq!(unknown.message(), "unknown field `unexpected`, expected one of `version`, `meshes`, `options`");
}

#[test]
fn missing_meshes_or_options_are_reported() {
    let builder = ConfigBuilder::new();
    assert_eq!(builder.finish().err().expect("no meshes").message(), "missing field `meshes`");
    let mut builder = ConfigBuilder::new();
    builder.set_meshes(IndexMap::new());
    assert_eq!(builder.finish().err().expect("no options").message(), "missing field `options`");
}

#[test]
fn mesh_name_rules() {
    assert!(validate_mesh_name("a").is_ok());
    assert!(validate_mesh_name("0mesh_.-").is_ok());
    assert!(validate_mesh_name(&"m".repeat(64)).is_ok());
    assert!(validate_mesh_name(&"m".repeat(65)).is_err());
    assert!(validate_mesh_name("_mesh").is_err());
    assert!(validate_mesh_name("mesh name").is_err());
}

#[test]
fn layer_list_validation_names_the_mesh() {
    let reg = registry();
    let layers = vec!["dio".to_string(), "zt-aas".to_string()];
    let err = validate_layer_list(&reg, "prod", &layers).err().expect("partial");
    assert_eq!(err.message(), "Core mesh 'prod' must include all ten canonical Core layers or omit Core layers");
}

#[test]
fn malformed_registries_are_refused() {
    assert!(LayerRegistry::new(vec!["dio".to_string(), "dio".to_string()], vec![]).is_none());
    assert!(LayerRegistry::new(vec!["dio".to_string()], vec!["dio".to_string()]).is_none());
    assert!(LayerRegistry::new(vec!["dio".to_string()], vec!["iam".to_string(), "iam".to_string()]).is_none());
}

/// The file-system outcome of each probe is written as the value the daemon
/// reads on disk for a runtime directory holding a `logs` directory.
#[test]
fn log_file_is_confined_to_a_regular_local_path() {
    let root = "/tmp/aigosd-config-log-path";

    let parts = check_log_path_lexically("logs/aigosd.log", Platform::Unix).ok().expect("lexically local");
    assert_eq!(parts, vec!["logs".to_string(), "aigosd.log".to_string()]);
    let components = vec![
        (format!("{root}/logs"), EntryProbe::Present),
        (format!("{root}/logs/aigosd.log"), EntryProbe::Missing),
    ];
    assert!(decide_log_path(&components, &ParentProbe::Inside, &TargetProbe::Missing).is_ok());

    assert!(check_log_path_lexically(&format!("{root}/absolute.log"), Platform::Unix).is_err());
    assert!(check_log_path_lexically("../escape.log", Platform::Unix).is_err());

    assert!(check_log_path_lexically("missing/aigosd.log", Platform::Unix).is_ok());
    let components = vec![
        (format!("{root}/missing"), EntryProbe::Missing),
        (format!("{root}/missing/aigosd.log"), EntryProbe::Missing),
    ];
    let missing_parent = ParentProbe::Failed("No such file or directory (os error 2)".to_string());
    assert!(decide_log_path(&components, &missing_parent, &TargetProbe::Missing).is_err());
}

/// `linked-logs` is a symbolic link to the runtime directory's `logs`.
#[test]
fn log_file_rejects_symbolic_link_components() {
    let root = "/tmp/aigosd-config-log-symlink";
    assert!(check_log_path_lexically("linked-logs/aigosd.log", Platform::Unix).is_ok());
    let components = vec![
        (format!("{root}/linked-logs"), EntryProbe::SymbolicLink),
        (format!("{root}/linked-logs/aigosd.log"), EntryProbe::Present),
    ];
    let error = decide_log_path(&components, &ParentProbe::Inside, &TargetProbe::Missing)
        .err()
        .expect("symlinked log path must fail");
    assert!(error.message().contains("symbolic link"));
}

#[test]
fn configuration_acceptance_includes_the_log_path_on_disk() {
    let mut config = config_with_mesh("mesh1");
    config.options = options("plaintext", "never", Some("logs/aigosd.log"));
    let good = vec![
        ("/run/logs".to_string(), EntryProbe::Present),
        ("/run/logs/aigosd.log".to_string(), EntryProbe::Missing),
    ];
    assert!(validate_on_disk(&registry(), &config, &good, &ParentProbe::Inside, &TargetProbe::Missing, Platform::Unix).is_ok());

    let linked = vec![
        ("/run/logs".to_string(), EntryProbe::SymbolicLink),
        ("/run/logs/aigosd.log".to_string(), EntryProbe::Missing),
    ];
    let err = validate_on_disk(&registry(), &config, &linked, &ParentProbe::Inside, &TargetProbe::Missing, Platform::Unix)
        .err()
        .expect("symbolic link");
    assert_eq!(err.message(), "Log file path must not traverse a symbolic link: /run/logs");
    let err = validate_on_disk(&registry(), &config, &good, &ParentProbe::Outside, &TargetProbe::Missing, Platform::Unix)
        .err()
        .expect("parent outside");
    assert_eq!(err.message(), "Log file parent resolves outside the runtime directory");

    config.options = options("plaintext", "sometimes", Some("logs/aigosd.log"));
    let err = validate_on_disk(&registry(), &config, &linked, &ParentProbe::Inside, &TargetProbe::Missing, Platform::Unix)
        .err()
        .expect("restart policy first");
    assert_eq!(err.message(), "Invalid restart policy: sometimes");

    config.options = options("plaintext", "never", None);
    assert!(validate_on_disk(&registry(), &config, &linked, &ParentProbe::Outside, &TargetProbe::NotRegular, Platform::Unix).is_ok());
}

#[test]
fn windows_log_paths_are_read_with_windows_separators_and_prefixes() {
    for refused in ["..\\escape.log", "logs\\..\\x.log", "\\x.log", "C:x.log", "C:\\logs\\x.log", "\\\\server\\share\\x.log", "//server/x.log"] {
        assert!(check_log_path_lexically(refused, Platform::Windows).is_err(), "{refused}");
    }
    assert!(matches!(check_log_path_lexically("C:\\logs\\x.log", Platform::Windows), Err(LogPathError::EmptyOrAbsolute)));
    assert!(matches!(check_log_path_lexically("C:x.log", Platform::Windows), Err(LogPathError::OutsideComponent)));
    assert!(matches!(check_log_path_lexically("\\x.log", Platform::Windows), Err(LogPathError::OutsideComponent)));
    let parts = check_log_path_lexically("logs\\.\\aigosd.log", Platform::Windows).ok().expect("local");
    assert_eq!(parts, vec!["logs".to_string(), "aigosd.log".to_string()]);

    // On Unix a backslash is an ordinary character of a file name.
    let parts = check_log_path_lexically("..\\escape.log", Platform::Unix).ok().expect("one file name");
    assert_eq!(parts, vec!["..\\escape.log".to_string()]);
}
