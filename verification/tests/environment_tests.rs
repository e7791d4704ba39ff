use sha2::Digest;
use relay_gateway::environment::{
    check_attestation_fields, check_entrypoint_declaration, environment_entry_is_ignored,
    managed_environment_dir_name, name_order, pip_install_arguments, provision_next,
    python_executable, removal_decision, select_entrypoint_module, venv_arguments, EntryKind,
    EnvironmentDigest, ProvisionDecision, ProvisionPlan, ProvisionStep, PythonSource,
    PythonWorkerManifest,
};

fn manifest(root: Option<&str>, artifact: Option<&str>, entrypoint: Option<&str>) -> PythonWorkerManifest {
    PythonWorkerManifest {
        plugin_id: "example".to_string(),
        python_worker: true,
        source: Some(PythonSource {
            manifest_root: root.map(str::to_string),
            artifact: artifact.map(str::to_string),
        }),
        entrypoint: entrypoint.map(str::to_string),
        integrity_sha256: None,
    }
}

fn declaration_error(m: &PythonWorkerManifest) -> String {
    match check_entrypoint_declaration(m) {
        Err(e) => e,
        Ok(_) => panic!("expected a declaration error"),
    }
}

#[test]
fn non_python_plugins_need_no_entrypoint_declaration() {
    let mut m = manifest(None, None, None);
    m.python_worker = false;
    assert!(matches!(check_entrypoint_declaration(&m), Ok(None)));
}

#[test]
fn python_entrypoint_declarations_are_checked_in_order() {
    let mut m = manifest(Some("."), Some("plugin.py"), Some("plugin:run"));
    m.source = None;
    assert_eq!(
        declaration_error(&m),
        "Python worker plugins must declare source.manifest_root and source.artifact"
    );
    assert_eq!(
        declaration_error(&manifest(Some("   "), Some("plugin.py"), Some("plugin:run"))),
        "Python worker plugins added through the CLI must declare source.manifest_root"
    );
    assert_eq!(
        declaration_error(&manifest(Some("."), None, Some("plugin:run"))),
        "Python worker plugins must declare source.artifact"
    );
    assert_eq!(
        declaration_error(&manifest(Some("."), Some("plugin.py"), Some(""))),
        "Python worker plugins must declare load.entrypoint"
    );
}

#[test]
fn python_entrypoints_must_use_the_module_function_form() {
    for entrypoint in ["plugin", "plugin:", ":run", "a:b:c", "a..b:run", ".a:run", "a.:run", "a/b:run", "a\\b:run"] {
        assert_eq!(
            declaration_error(&manifest(Some("."), Some("plugin.py"), Some(entrypoint))),
            format!("Python worker load.entrypoint '{entrypoint}' must use the unambiguous module:function form"),
        );
    }
}

#[test]
fn a_well_formed_declaration_is_trimmed_and_split() {
    let m = manifest(Some(" src "), Some(" src/pkg/mod.py "), Some(" pkg.mod:main "));
    let d = check_entrypoint_declaration(&m).unwrap().unwrap();
    assert_eq!(d.manifest_root, "src");
    assert_eq!(d.artifact, "src/pkg/mod.py");
    assert_eq!(d.entrypoint, "pkg.mod:main");
    assert_eq!(d.module_segments, vec!["pkg".to_string(), "mod".to_string()]);
    assert_eq!(d.callable, "main");
}

#[test]
fn the_entrypoint_module_must_be_the_single_integrity_checked_artifact() {
    let artifact = "/p/pkg/mod.py";
    assert!(select_entrypoint_module(&vec![artifact.to_string()], artifact, "pkg.mod:main", "/p/pkg/mod.py", "/p/pkg/mod/__init__.py").is_ok());
    assert!(select_entrypoint_module(&vec![artifact.to_string(), artifact.to_string()], artifact, "pkg.mod:main", "a", "b").is_ok());
    assert_eq!(
        select_entrypoint_module(&vec![], artifact, "pkg.mod:main", "/p/pkg/mod.py", "/p/pkg/mod/__init__.py").unwrap_err(),
        "Python worker load.entrypoint 'pkg.mod:main' must resolve to exactly one source module under source.manifest_root; expected /p/pkg/mod.py or /p/pkg/mod/__init__.py"
    );
    assert!(select_entrypoint_module(&vec!["/a".to_string(), "/b".to_string()], "/a", "m:f", "x", "y").is_err());
    assert_eq!(
        select_entrypoint_module(&vec!["/p/other.py".to_string()], artifact, "other:main", "x", "y").unwrap_err(),
        "Python worker load.entrypoint 'other:main' resolves to /p/other.py, but integrity-checked source.artifact resolves to /p/pkg/mod.py; the executed entrypoint module must be the integrity-checked artifact"
    );
}

fn record(kind: u8, path: &[u8], payload: &[u8]) -> Vec<u8> {
    let mut out = vec![kind];
    out.extend((path.len() as u64).to_le_bytes());
    out.extend(path);
    out.extend((payload.len() as u64).to_le_bytes());
    out.extend(payload);
    out
}

fn hex(bytes: &[u8]) -> String {
    bytes.iter().map(|b| format!("{b:02x}")).collect()
}

#[test]
fn the_environment_digest_frames_each_entry() {
    let mut digest = EnvironmentDigest::new(10);
    digest.record_directory(b"bin");
    digest.record_file(b"bin/python", b"#!").unwrap();
    let mut expected = record(b'd', b"bin", b"");
    expected.extend(record(b'f', b"bin/python", b"#!"));
    assert_eq!(digest.finish(), hex(&sha2::Sha256::digest(&expected)));
}

#[test]
fn the_environment_digest_enforces_depth_cycle_and_entry_budgets() {
    let mut digest = EnvironmentDigest::new(2);
    digest.enter_directory(b"/env".to_vec(), "/env").unwrap();
    assert_eq!(
        digest.enter_directory(b"/env".to_vec(), "/env/loop").unwrap_err(),
        "managed Python environment contains a directory symlink cycle at /env/loop"
    );
    digest.leave_directory();
    digest.enter_directory(b"/env".to_vec(), "/env").unwrap();
    digest.count_entry("/env").unwrap();
    digest.count_entry("/env").unwrap();
    assert_eq!(
        digest.count_entry("/env").unwrap_err(),
        "managed Python environment exceeds the 2-entry attestation budget at /env"
    );

    let mut deep = EnvironmentDigest::new(1000);
    for depth in 0..128 {
        assert!(deep.check_depth("d").is_ok());
        deep.enter_directory(format!("/d{depth}").into_bytes(), "d").unwrap();
    }
    assert_eq!(
        deep.check_depth("/deeper").unwrap_err(),
        "managed Python environment exceeds the 128-directory traversal depth at /deeper"
    );
    assert_eq!(
        deep.enter_directory(b"/deeper".to_vec(), "/deeper").unwrap_err(),
        "managed Python environment exceeds the 128-directory traversal depth at /deeper"
    );
}

#[test]
fn the_environment_digest_refuses_more_than_the_byte_budget() {
    let mut digest = EnvironmentDigest::new(10);
    let big = vec![0u8; 512 * 1024 * 1024];
    digest.record_file(b"a", &big).unwrap();
    assert_eq!(
        digest.record_file(b"b", b"x").unwrap_err(),
        "managed Python environment exceeds the 536870912-byte attestation budget"
    );
}

#[test]
fn directory_entries_are_digested_in_byte_order() {
    let names: Vec<Vec<u8>> = vec![b"lib".to_vec(), b"Bin".to_vec(), b"bin".to_vec(), b"a".to_vec()];
    assert_eq!(name_order(&names), vec![1, 3, 2, 0]);
    assert_eq!(name_order(&vec![]), Vec::<usize>::new());
}

#[test]
fn attestations_and_bytecode_are_not_digested() {
    assert!(environment_entry_is_ignored(true, Some(".nemo-relay-environment.sha256")));
    assert!(!environment_entry_is_ignored(false, Some(".nemo-relay-environment.sha256")));
    assert!(environment_entry_is_ignored(false, Some("__pycache__")));
    assert!(environment_entry_is_ignored(false, Some("module.pyc")));
    assert!(!environment_entry_is_ignored(false, Some(".pyc")));
    assert!(!environment_entry_is_ignored(false, Some("module.py")));
    assert!(!environment_entry_is_ignored(true, None));
}

#[test]
fn managed_environments_are_named_by_the_plugin_id_digest() {
    assert_eq!(managed_environment_dir_name("  acme.plugin \n"), hex(&sha2::Sha256::digest(b"acme.plugin")));
}

#[test]
fn attestation_fields_must_match_before_authentication() {
    let env = "a".repeat(64);
    assert!(check_attestation_fields(1, "abc", &env, " abc ", "/e/att").is_ok());
    let refused = "managed Python environment attestation /e/att does not match the trusted source artifact";
    assert_eq!(check_attestation_fields(2, "abc", &env, "abc", "/e/att").unwrap_err(), refused);
    assert_eq!(check_attestation_fields(1, "abd", &env, "abc", "/e/att").unwrap_err(), refused);
    assert_eq!(check_attestation_fields(1, "abc", &"a".repeat(63), "abc", "/e/att").unwrap_err(), refused);
    assert_eq!(check_attestation_fields(1, "abc", &format!("{}g", "a".repeat(63)), "abc", "/e/att").unwrap_err(), refused);
    assert!(check_attestation_fields(1, "abc", &"F".repeat(64), "abc", "/e/att").is_ok());
}

#[test]
fn only_directories_are_removed_as_managed_environments() {
    assert_eq!(removal_decision(Ok(EntryKind::Missing), "/e", "reset"), Ok(false));
    assert_eq!(removal_decision(Ok(EntryKind::Directory), "/e", "reset"), Ok(true));
    assert_eq!(
        removal_decision(Ok(EntryKind::Other), "/e", "delete"),
        Err("refusing to delete managed Python environment /e because it is not a directory".to_string())
    );
    assert_eq!(
        removal_decision(Err("denied".to_string()), "/e", "clean up"),
        Err("could not inspect managed Python environment /e before clean up: denied".to_string())
    );
}

fn plan(integrity: Option<&str>) -> ProvisionPlan {
    ProvisionPlan {
        environment: "/state/env".to_string(),
        interpreter: "/state/env/bin/python".to_string(),
        manifest_root: "/src".to_string(),
        integrity_sha256: integrity.map(str::to_string),
    }
}

fn abort(d: ProvisionDecision) -> (bool, String) {
    match d {
        ProvisionDecision::Abort { clean_up, message } => (clean_up, message),
        _ => panic!("expected an abort"),
    }
}

#[test]
fn provisioning_runs_its_steps_in_order() {
    let p = plan(Some(" abc "));
    assert!(matches!(provision_next(ProvisionStep::CheckManifestRoot, Ok(()), &p), ProvisionDecision::Next(ProvisionStep::ResetEnvironment)));
    assert!(matches!(provision_next(ProvisionStep::ResetEnvironment, Ok(()), &p), ProvisionDecision::Next(ProvisionStep::CreateEnvironment)));
    assert!(matches!(provision_next(ProvisionStep::CreateEnvironment, Ok(()), &p), ProvisionDecision::Next(ProvisionStep::CheckInterpreter)));
    assert!(matches!(provision_next(ProvisionStep::CheckInterpreter, Ok(()), &p), ProvisionDecision::Next(ProvisionStep::InstallPlugin)));
    match provision_next(ProvisionStep::InstallPlugin, Ok(()), &p) {
        ProvisionDecision::Attest(digest) => assert_eq!(digest, "abc"),
        _ => panic!("expected an attestation"),
    }
}

#[test]
fn provisioning_failures_clean_up_what_they_created() {
    let p = plan(None);
    assert_eq!(
        abort(provision_next(ProvisionStep::CheckManifestRoot, Err(String::new()), &p)),
        (false, "Python plugin source.manifest_root /src is not a directory".to_string())
    );
    assert_eq!(abort(provision_next(ProvisionStep::ResetEnvironment, Err("busy".to_string()), &p)), (false, "busy".to_string()));
    assert_eq!(
        abort(provision_next(ProvisionStep::CreateEnvironment, Err("exit 1".to_string()), &p)),
        (true, "failed to create managed Python environment /state/env: exit 1".to_string())
    );
    assert_eq!(
        abort(provision_next(ProvisionStep::CheckInterpreter, Err(String::new()), &p)),
        (true, "managed Python environment /state/env did not create interpreter /state/env/bin/python".to_string())
    );
    assert_eq!(
        abort(provision_next(ProvisionStep::InstallPlugin, Err("exit 2".to_string()), &p)),
        (true, "failed to install Python plugin from /src into /state/env: exit 2".to_string())
    );
    assert_eq!(
        abort(provision_next(ProvisionStep::InstallPlugin, Ok(()), &p)),
        (false, "Python worker plugins require integrity.sha256 to bind the installed environment to the trusted source artifact".to_string())
    );
}

#[test]
fn provisioning_commands_and_interpreter() {
    assert_eq!(venv_arguments("/e"), vec!["-m", "venv", "/e"]);
    assert_eq!(pip_install_arguments("/src"), vec!["-m", "pip", "install", "/src"]);
    assert_eq!(python_executable(None, false), "python3");
    assert_eq!(python_executable(None, true), "python");
    assert_eq!(python_executable(Some("/usr/bin/python3.12".to_string()), false), "/usr/bin/python3.12");
}
