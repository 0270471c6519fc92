use aigosd::config::{Config, MeshConfig, Options};
use aigosd::layers::{LayerFault, LayerRegistry};
use aigosd::resolve::{candidate_layer_paths, resolve_required_layers, Platform};
use aigosd::signals::{console_event_requests_shutdown, signal_requests_shutdown};
use aigosd::supervisor::{output_record, process_name, should_restart, signal_failure_is_reported, StartAction, Supervisor, SupervisorError};
use aigosd::systemd::{generate_service_template, service_file_name};
use aigosd::windows::{get_exe_name, get_layer_exe_path, register_service};
use aigosd::logging::Level;
use indexmap::IndexMap;

const CORE: [&str; 10] = ["dio", "zt-aas", "icae", "poc", "fak", "are", "jib", "icl", "gsas", "able"];

fn canonical_core_layers() -> Vec<String> {
    CORE.iter().map(|l| l.to_string()).collect()
}

fn registry() -> LayerRegistry {
    LayerRegistry::new(canonical_core_layers(), vec!["iam".to_string(), "sck".to_string()]).expect("registry")
}

fn test_config_with_meshes(mesh_specs: &[(&str, Option<&[&str]>)], restart: &str) -> Config {
    let mut meshes = IndexMap::new();
    for (mesh_name, layers) in mesh_specs {
        meshes.insert(
            (*mesh_name).to_string(),
            MeshConfig { layers: layers.map(|layers| layers.iter().map(|layer| (*layer).to_string()).collect()) },
        );
    }
    Config {
        meshes,
        options: Options { logging: "plaintext".to_string(), restart: restart.to_string(), log_file: None },
    }
}

fn test_config(layers: Option<&[&str]>) -> Config {
    test_config_with_meshes(&[("mesh", layers)], "never")
}

fn expected_layers_with_extensions(extensions: &[&str]) -> Vec<String> {
    let mut layers = canonical_core_layers();
    layers.extend(extensions.iter().map(|layer| (*layer).to_string()));
    layers
}

/// The flat-layout path of every Core layer.
fn flat_core_files() -> Vec<String> {
    CORE.iter().map(|l| candidate_layer_paths(l, Platform::Unix)[0].clone()).collect()
}

#[test]
fn flat_layout_resolves_before_nested_layout() {
    let mut files = Vec::new();
    for layer in CORE {
        files.extend(candidate_layer_paths(layer, Platform::Unix));
    }
    let resolved = resolve_required_layers(&canonical_core_layers(), Platform::Unix, &files).ok().expect("flat layout should resolve");
    for layer in CORE {
        assert_eq!(resolved.get(layer), Some(&candidate_layer_paths(layer, Platform::Unix)[0]));
    }
}

#[test]
fn nested_layout_still_resolves() {
    let files: Vec<String> = CORE.iter().map(|l| candidate_layer_paths(l, Platform::Unix)[1].clone()).collect();
    let resolved = resolve_required_layers(&canonical_core_layers(), Platform::Unix, &files).ok().expect("nested layout should resolve");
    for layer in CORE {
        assert_eq!(resolved.get(layer), Some(&candidate_layer_paths(layer, Platform::Unix)[1]));
    }
}

#[test]
fn candidate_paths_follow_platform_conventions() {
    assert_eq!(candidate_layer_paths("dio", Platform::Unix), vec!["./dio".to_string(), "./dio/dio".to_string()]);
    assert_eq!(
        candidate_layer_paths("dio", Platform::Windows),
        vec![".\\dio.exe".to_string(), ".\\dio\\dio.exe".to_string()]
    );
}

#[test]
fn duplicate_extension_layers_are_rejected() {
    let mesh_config = MeshConfig { layers: Some(vec!["iam".to_string(), "iam".to_string()]) };
    let err = Supervisor::layers_for_mesh(&registry(), &mesh_config).err().expect("duplicate extension should be rejected");
    assert!(err.message().contains("Duplicate extension layer 'iam'"));
}

#[test]
fn extension_only_layers_append_after_core_in_config_order() {
    let mesh_config = MeshConfig { layers: Some(vec!["iam".to_string(), "sck".to_string()]) };
    let layers = Supervisor::layers_for_mesh(&registry(), &mesh_config).ok().expect("extension layers");
    assert_eq!(layers, expected_layers_with_extensions(&["iam", "sck"]));
}

#[test]
fn mixed_full_core_and_extensions_runs_core_once_then_extensions() {
    let mut configured_layers = canonical_core_layers();
    configured_layers.push("sck".to_string());
    configured_layers.push("iam".to_string());
    let mesh_config = MeshConfig { layers: Some(configured_layers) };
    let layers = Supervisor::layers_for_mesh(&registry(), &mesh_config).ok().expect("mixed layers");
    assert_eq!(layers, expected_layers_with_extensions(&["sck", "iam"]));
}

#[test]
fn layer_faults_have_runtime_texts() {
    let reg = registry();
    let cases: [(&[&str], &str); 3] = [
        (&["made-up"], "Invalid layer 'made-up'"),
        (&["dio", "dio"], "Duplicate Core layer 'dio'"),
        (&["dio"], "Partial Core layer list is not allowed"),
    ];
    for (layers, text) in cases {
        let mesh = MeshConfig { layers: Some(layers.iter().map(|l| l.to_string()).collect()) };
        let err = Supervisor::layers_for_mesh(&reg, &mesh).err().expect("fault");
        assert_eq!(err.message(), text);
    }
    let absent = Supervisor::layers_for_mesh(&reg, &MeshConfig { layers: None }).ok().expect("Core only");
    assert_eq!(absent, canonical_core_layers());
    let empty = Supervisor::layers_for_mesh(&reg, &MeshConfig { layers: Some(vec![]) }).ok().expect("Core only");
    assert_eq!(empty, canonical_core_layers());
    assert!(matches!(
        Supervisor::layers_for_mesh(&reg, &MeshConfig { layers: Some(vec!["x".to_string()]) }),
        Err(LayerFault::InvalidLayer(_))
    ));
}

#[test]
fn planned_mesh_order_follows_config_order() {
    let core = CORE;
    let supervisor = Supervisor::new(
        test_config_with_meshes(&[("mesh3", None), ("mesh2", Some(&["iam"])), ("mesh1", Some(&core[..]))], "never"),
        registry(),
        Platform::Unix,
    );
    let planned = supervisor.planned_mesh_layers().ok().expect("planned layers");
    let mesh_names = planned.iter().map(|(mesh_name, _)| mesh_name.as_str()).collect::<Vec<_>>();
    assert_eq!(mesh_names, vec!["mesh3", "mesh2", "mesh1"]);
    assert_eq!(planned[1].1, expected_layers_with_extensions(&["iam"]));
}

#[test]
fn configured_extension_missing_binary_fails_before_spawn() {
    let mut supervisor = Supervisor::new(test_config(Some(&["iam"])), registry(), Platform::Unix);
    let err = supervisor.prepare_run(&flat_core_files()).err().expect("missing configured extension binary should fail");
    let text = err.message();
    assert!(text.contains("Missing required layer binaries"));
    assert!(text.contains("- iam (attempted:"));
    assert!(supervisor.process_names().is_empty());
}

#[test]
fn missing_mandatory_core_layers_fail_before_spawning() {
    let files = vec![candidate_layer_paths(CORE[0], Platform::Unix)[0].clone()];
    let mut supervisor = Supervisor::new(test_config(None), registry(), Platform::Unix);
    let err = supervisor.prepare_run(&files).err().expect("missing layers should fail");
    assert!(err.message().contains("Missing required layer binaries"));
    match err {
        SupervisorError::Missing(missing) => assert_eq!(missing.missing().len(), CORE.len() - 1),
        _ => panic!("missing Core error"),
    }
    assert!(supervisor.process_names().is_empty());
}

#[test]
fn missing_layer_text_lists_attempted_paths() {
    let err = resolve_required_layers(&vec!["iam".to_string()], Platform::Unix, &vec![]).err().expect("missing");
    assert_eq!(err.message(), "Missing required layer binaries:\n- iam (attempted: ./iam, ./iam/iam)\n");
}

/// Starts every layer the mesh runs, recording a made-up pid for each.
fn start_all(supervisor: &mut Supervisor, mesh: &str, files: &Vec<String>) -> usize {
    let layers = supervisor.start_mesh(mesh, files).ok().expect("start Core mesh");
    let mut spawned = 0;
    for (i, layer) in layers.iter().enumerate() {
        match supervisor.start_layer(mesh, layer, files).ok().expect("start layer") {
            StartAction::Spawn { name, binary } => {
                assert_eq!(name, process_name(mesh, layer));
                assert_eq!(binary, candidate_layer_paths(layer, Platform::Unix)[0]);
                assert!(supervisor.record_started(mesh, layer, 1000 + i as u32, 0));
                spawned += 1;
            }
            StartAction::AlreadyRunning { .. } => {}
        }
    }
    spawned
}

#[test]
fn configured_mesh_spawns_all_canonical_core_layers() {
    let files = flat_core_files();
    let mut supervisor = Supervisor::new(test_config(None), registry(), Platform::Unix);
    start_all(&mut supervisor, "mesh", &files);
    for layer in CORE {
        let process_name = format!("aigosd-mesh@{}", layer);
        assert!(supervisor.process_exists(&process_name), "{} should be running", process_name);
    }
}

#[test]
fn explicit_full_core_list_spawns_core_only_once() {
    let files = flat_core_files();
    let core = CORE;
    let mut supervisor = Supervisor::new(test_config(Some(&core[..])), registry(), Platform::Unix);
    assert_eq!(start_all(&mut supervisor, "mesh", &files), CORE.len());
    assert_eq!(supervisor.process_names().len(), CORE.len());
    assert_eq!(start_all(&mut supervisor, "mesh", &files), 0);
    assert_eq!(supervisor.process_names().len(), CORE.len());
}

#[test]
fn stopping_a_mesh_keeps_other_meshes() {
    let files = flat_core_files();
    let mut supervisor = Supervisor::new(
        test_config_with_meshes(&[("a", None), ("ab", None)], "never"),
        registry(),
        Platform::Unix,
    );
    start_all(&mut supervisor, "a", &files);
    start_all(&mut supervisor, "ab", &files);
    let stopped = supervisor.stop_mesh("a");
    assert_eq!(stopped.len(), CORE.len());
    assert!(stopped.iter().all(|r| r.mesh == "a" && r.name.starts_with("aigosd-a@")));
    assert_eq!(supervisor.process_names().len(), CORE.len());
    assert!(supervisor.process_exists("aigosd-ab@dio"));
    assert_eq!(supervisor.stop_all().len(), CORE.len());
    assert!(supervisor.process_names().is_empty());
}

#[test]
fn exits_are_restarted_by_policy() {
    let files = flat_core_files();
    for (policy, success, restarted) in [
        ("never", false, false),
        ("always", true, true),
        ("on-failure", true, false),
        ("on-failure", false, true),
    ] {
        let mut supervisor = Supervisor::new(test_config_with_meshes(&[("mesh", None)], policy), registry(), Platform::Unix);
        start_all(&mut supervisor, "mesh", &files);
        let decision = supervisor.exit_decision("aigosd-mesh@dio", success);
        assert_eq!(decision.is_some(), restarted, "{policy} {success}");
        if let Some((mesh, layer)) = decision {
            assert_eq!((mesh.as_str(), layer.as_str()), ("mesh", "dio"));
        }
        assert!(supervisor.remove_process("aigosd-mesh@dio").is_some());
        assert!(!supervisor.process_exists("aigosd-mesh@dio"));
        assert!(supervisor.exit_decision("aigosd-mesh@dio", false).is_none());
    }
    assert!(should_restart("always", true));
    assert!(!should_restart("never", false));
}

#[test]
fn health_check_requires_more_than_a_second() {
    let files = flat_core_files();
    let mut supervisor = Supervisor::new(test_config(None), registry(), Platform::Unix);
    supervisor.start_mesh("mesh", &files).ok().expect("start");
    assert!(supervisor.record_started("mesh", "dio", 7, 5_000_000_000));
    assert!(!supervisor.health_check("aigosd-mesh@dio", 6_000_000_000));
    assert!(supervisor.health_check("aigosd-mesh@dio", 6_000_000_001));
    assert!(!supervisor.health_check("aigosd-mesh@icae", 9_000_000_000));
}

#[test]
fn unknown_mesh_starts_nothing() {
    let mut supervisor = Supervisor::new(test_config(None), registry(), Platform::Unix);
    let layers = supervisor.start_mesh("other", &vec![]).ok().expect("nothing to start");
    assert!(layers.is_empty());
}

#[test]
fn child_output_is_attributed_to_its_process() {
    let (level, text) = output_record("aigosd-mesh@dio", "stdout", "child stdout alpha");
    assert!(matches!(level, Level::Info));
    assert_eq!(text, "[aigosd-mesh@dio:stdout] child stdout alpha");
    let (level, text) = output_record("aigosd-mesh@dio", "stderr", "child stderr beta");
    assert!(matches!(level, Level::Error));
    assert_eq!(text, "[aigosd-mesh@dio:stderr] child stderr beta");
    assert!(!signal_failure_is_reported(Some(3)));
    assert!(signal_failure_is_reported(Some(1)));
}

#[test]
fn service_names_and_templates() {
    let unit = generate_service_template("mesh1", "dio");
    assert!(unit.starts_with("[Unit]\nDescription=AIGOS Layer dio (mesh mesh1)\n"));
    assert!(unit.contains("ExecStart=/usr/local/bin/dio --mesh mesh1\n"));
    assert!(unit.ends_with("WantedBy=multi-user.target\n"));
    assert_eq!(service_file_name("mesh1", "dio"), "aigosd-mesh1@dio.service");
    assert_eq!(get_exe_name("mesh1", "dio"), "aigosd-mesh1@dio.exe");
    assert_eq!(get_layer_exe_path("dio"), ".\\dio.exe");
    assert_eq!(register_service(Platform::Windows, "mesh1", "dio").ok().expect("windows"), "aigosd-mesh1@dio");
    let err = register_service(Platform::Unix, "mesh1", "dio").err().expect("elsewhere");
    assert_eq!(err.message(), "Windows service registration not available on this platform");
}

#[test]
fn shutdown_signals_and_events() {
    for event in [0u32, 1, 2, 5, 6] {
        assert!(console_event_requests_shutdown(event));
    }
    assert!(!console_event_requests_shutdown(3));
    assert!(signal_requests_shutdown(2) && signal_requests_shutdown(15));
    assert!(!signal_requests_shutdown(9));
}

#[test]
fn core_layers_resolve_in_canonical_order() {
    let mut files = flat_core_files();
    files.push("./iam".to_string());
    let resolved = Supervisor::resolve_core_layers(&registry(), Platform::Unix, &files).ok().expect("all Core present");
    let layers: Vec<&String> = resolved.keys().collect();
    assert_eq!(layers, CORE.iter().map(|l| l.to_string()).collect::<Vec<_>>().iter().collect::<Vec<_>>());
    assert_eq!(resolved.get("dio"), Some(&"./dio".to_string()));
    assert!(resolved.get("iam").is_none());

    let without_able: Vec<String> = flat_core_files().into_iter().filter(|f| f != "./able").collect();
    let err = Supervisor::resolve_core_layers(&registry(), Platform::Unix, &without_able).err().expect("able missing");
    assert_eq!(err.missing().len(), 1);
    assert_eq!(err.missing()[0].layer, "able");
    assert_eq!(err.missing()[0].attempted_paths, vec!["./able".to_string(), "./able/able".to_string()]);
}

#[test]
fn compiled_in_extension_must_be_present_even_when_unlisted() {
    let mut supervisor = Supervisor::new(test_config(None), registry(), Platform::Unix);
    let mut files = flat_core_files();
    files.push("./iam".to_string());
    let err = supervisor.prepare_run(&files).err().expect("sck is compiled in but missing");
    match &err {
        SupervisorError::Missing(missing) => {
            assert_eq!(missing.missing().len(), 1);
            assert_eq!(missing.missing()[0].layer, "sck");
        }
        _ => panic!("missing extension error"),
    }
    assert!(supervisor.process_names().is_empty());

    files.push("./sck/sck".to_string());
    let plan = supervisor.prepare_run(&files).ok().expect("every required executable present");
    assert_eq!(plan.len(), 1);
    assert_eq!(plan[0].1, canonical_core_layers());
}

#[test]
fn unlisted_extensions_are_checked_once_planned_layers_are_found() {
    let files = vec![candidate_layer_paths(CORE[0], Platform::Unix)[0].clone()];
    let mut supervisor = Supervisor::new(test_config(None), registry(), Platform::Unix);
    match supervisor.prepare_run(&files).err().expect("Core missing") {
        SupervisorError::Missing(missing) => {
            let layers: Vec<&str> = missing.missing().iter().map(|m| m.layer.as_str()).collect();
            assert_eq!(layers, CORE[1..].to_vec());
        }
        _ => panic!("missing layers error"),
    }

    match supervisor.prepare_run(&flat_core_files()).err().expect("extensions missing") {
        SupervisorError::Missing(missing) => {
            let layers: Vec<&str> = missing.missing().iter().map(|m| m.layer.as_str()).collect();
            assert_eq!(layers, vec!["iam", "sck"]);
            assert_eq!(missing.missing()[1].attempted_paths, vec!["./sck".to_string(), "./sck/sck".to_string()]);
        }
        _ => panic!("missing layers error"),
    }
    assert!(supervisor.process_names().is_empty());
}

#[test]
fn a_layer_requested_twice_is_listed_twice_when_missing() {
    let requested = vec!["iam".to_string(), "dio".to_string(), "iam".to_string()];
    let err = resolve_required_layers(&requested, Platform::Unix, &vec!["./dio".to_string()]).err().expect("iam missing");
    let layers: Vec<&str> = err.missing().iter().map(|m| m.layer.as_str()).collect();
    assert_eq!(layers, vec!["iam", "iam"]);
}
