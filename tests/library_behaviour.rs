use runtime_broker::checksum::{digest_matches, hex_lower, verify_sha256_checksum};
use runtime_broker::detect::{
    detect_failure, detect_is_finished, detect_start, detect_step, DetectFailure, DetectOutcome,
    DetectStage,
};
use runtime_broker::manifest::{
    bundle_has_checksum, collect_manifest_sources, install_failure_summary, manifest_source_step,
    plan_bundle_download, resolve_bundle_download_urls, runtime_target_key, select_manifest_bundle,
    RuntimeManifest, RuntimeManifestBundle, SourceAttempt,
};
use runtime_broker::runtime::{
    adopt_runtime, adopted_status, choose_worker_launch, first_supported, is_interpreter_file_name,
    resolve_runtime,
    find_project_python, order_interpreter_candidates, project_interpreter_candidates, runtime_status,
    system_interpreter_names, version_line_from_output, InterpreterCandidate, ProbedInterpreter,
    PythonRuntime, RuntimeSource, WorkerLaunch,
};
use runtime_broker::scheme::{is_localhost_http_url, is_remote_url, validate_remote_url_scheme};
use runtime_broker::text::trim_str;
use runtime_broker::version::{is_supported_python_version, parse_python_version};
use runtime_broker::worker::{
    worker_session_step, JobConflict, JobSlot, WorkerAction, WorkerEvent, WorkerMode, WorkerPhase,
};

const ABC_SHA256: &str = "ba7816bf8f01cfea414140de5dae2223b00361a396177a9cb410ff61f20015ad";

fn bundle(target: &str, url: &str, sha256: Option<&str>, mirrors: Option<Vec<&str>>) -> RuntimeManifestBundle {
    RuntimeManifestBundle {
        target: target.to_string(),
        url: url.to_string(),
        sha256: sha256.map(|s| s.to_string()),
        urls: mirrors.map(|v| v.into_iter().map(|s| s.to_string()).collect()),
    }
}

#[test]
fn version_without_patch_reads_zero() {
    assert_eq!(parse_python_version("Python 3.12"), Some((3, 12, 0)));
    assert_eq!(parse_python_version("Python 4.0"), Some((4, 0, 0)));
}

#[test]
fn version_line_is_trimmed_and_patch_takes_first_word() {
    assert_eq!(parse_python_version("  Python 3.10.4 (main)\n"), Some((3, 10, 4)));
    assert_eq!(parse_python_version("Python 3.11.8.1"), Some((3, 11, 8)));
    assert_eq!(parse_python_version("Python 3.11."), Some((3, 11, 0)));
}

#[test]
fn version_numbers_must_parse() {
    assert_eq!(parse_python_version("Python 3"), None);
    assert_eq!(parse_python_version("Python 3.12.0rc1"), None);
    assert_eq!(parse_python_version("Python x.12.0"), None);
    assert_eq!(parse_python_version("Python 3.99999999999.0"), None);
    assert_eq!(parse_python_version("python 3.11.8"), None);
    assert_eq!(parse_python_version(""), None);
    assert_eq!(parse_python_version("Python +3.9.1"), Some((3, 9, 1)));
    assert_eq!(parse_python_version("Python 4294967295.0"), Some((4294967295, 0, 0)));
    assert_eq!(parse_python_version("Python 4294967296.0"), None);
}

#[test]
fn minimum_version_rule() {
    assert!(is_supported_python_version("Python 3.9.0"));
    assert!(is_supported_python_version("Python 3.10"));
    assert!(is_supported_python_version("Python 4.0.0"));
    assert!(is_supported_python_version("Python 4.1"));
    assert!(!is_supported_python_version("Python 3.8.99"));
    assert!(!is_supported_python_version("Python 2.7.18"));
    assert!(!is_supported_python_version("not a version"));
}

#[test]
fn trims_unicode_whitespace() {
    assert_eq!(trim_str("\u{3000} a b \t\n"), "a b");
    assert_eq!(trim_str("   "), "");
}

#[test]
fn target_key_joins_with_dash() {
    assert_eq!(runtime_target_key("linux", "x86_64"), "linux-x86_64");
    assert_eq!(runtime_target_key("", ""), "-");
}

#[test]
fn manifest_sources_split_on_all_separators() {
    let sources = collect_manifest_sources(
        Some(" a \n b;c,,; a ".to_string()),
        Some(vec!["  ".to_string(), "d".to_string(), "b".to_string(), " d ".to_string()]),
    );
    assert_eq!(sources, vec!["a", "b", "c", "d"]);
}

#[test]
fn manifest_sources_absent_or_blank() {
    assert!(collect_manifest_sources(None, None).is_empty());
    assert!(collect_manifest_sources(Some(" , ;\n".to_string()), Some(vec![])).is_empty());
    assert_eq!(
        collect_manifest_sources(None, Some(vec!["x".to_string(), "x".to_string()])),
        vec!["x"]
    );
}

#[test]
fn download_urls_drop_blank_and_repeated_mirrors() {
    let b = bundle(
        "linux-x86_64",
        "  https://p/x.zip ",
        None,
        Some(vec!["https://p/x.zip", " ", "https://m/x.zip", "https://m/x.zip "]),
    );
    assert_eq!(resolve_bundle_download_urls(&b), vec!["https://p/x.zip", "https://m/x.zip"]);
    let blank = bundle("linux-x86_64", " ", None, None);
    assert_eq!(resolve_bundle_download_urls(&blank), vec![""]);
}

#[test]
fn bundle_selection_takes_first_exact_match() {
    let manifest = RuntimeManifest {
        bundles: vec![
            bundle("linux-x86_64", "https://a/1.zip", None, None),
            bundle("linux-x86_64", "https://a/2.zip", None, None),
        ],
    };
    assert_eq!(select_manifest_bundle(&manifest, "linux-x86_64").unwrap().url, "https://a/1.zip");
    assert!(select_manifest_bundle(&manifest, "linux-x86").is_none());
    assert!(select_manifest_bundle(&manifest, "Linux-x86_64").is_none());
    let empty = RuntimeManifest { bundles: vec![] };
    assert!(select_manifest_bundle(&empty, "linux-x86_64").is_none());
}

#[test]
fn checksum_absent_counts_as_missing() {
    assert!(!bundle_has_checksum(&bundle("t", "https://a", None, None)));
    assert!(bundle_has_checksum(&bundle("t", "https://a", Some(" ab "), None)));
}

#[test]
fn localhost_detection_details() {
    assert!(is_localhost_http_url("http://LOCALHOST/x"));
    assert!(is_localhost_http_url("http://user@localhost:80/x"));
    assert!(is_localhost_http_url("http://[::1]/x"));
    assert!(is_localhost_http_url("http://localhost"));
    assert!(!is_localhost_http_url("http://localhost.example.com/x"));
    assert!(!is_localhost_http_url("http://localhost@example.com/x"));
    assert!(!is_localhost_http_url(" http://localhost/x"));
}

#[test]
fn remote_urls_are_http_or_https() {
    assert!(is_remote_url(" https://example.com/x "));
    assert!(is_remote_url("http://localhost/x"));
    assert!(!is_remote_url("file:///tmp/x.zip"));
    assert!(!is_remote_url("/tmp/x.zip"));
}

#[test]
fn scheme_refusal_names_label_and_url() {
    let err = validate_remote_url_scheme("  http://example.com/a.zip ", "manifest").unwrap_err();
    assert!(err.starts_with("manifest "));
    assert!(err.ends_with("http://example.com/a.zip"));
    assert!(validate_remote_url_scheme(" http://[::1]:9/a.zip", "manifest").is_ok());
    assert!(validate_remote_url_scheme("/plain/path.json", "manifest").is_ok());
}

#[test]
fn download_plan_requires_checksum_for_remote_bundles() {
    let remote = bundle("t", "https://cdn/x.zip", None, None);
    assert_eq!(plan_bundle_download(&remote).unwrap_err(), "远程 runtime 包必须提供 sha256 校验值");
    let blank = bundle("t", "https://cdn/x.zip", Some("  "), None);
    assert!(plan_bundle_download(&blank).is_err());
    let local = bundle("t", "file:///tmp/x.zip", None, None);
    assert_eq!(plan_bundle_download(&local).unwrap(), vec!["file:///tmp/x.zip"]);
    let checked = bundle("t", "https://cdn/x.zip", Some("ab"), Some(vec!["file:///m.zip"]));
    assert_eq!(plan_bundle_download(&checked).unwrap(), vec!["https://cdn/x.zip", "file:///m.zip"]);
}

#[test]
fn download_plan_refuses_insecure_mirror() {
    let b = bundle("t", "https://cdn/x.zip", Some("ab"), Some(vec!["http://mirror/x.zip"]));
    let err = plan_bundle_download(&b).unwrap_err();
    assert!(err.starts_with("runtime 包下载地址"));
    assert!(err.ends_with("http://mirror/x.zip"));
}

#[test]
fn hex_encoding_is_lower_case() {
    assert_eq!(hex_lower(&[0x00, 0xff, 0x1a, 0xb0]), "00ff1ab0");
    assert_eq!(hex_lower(&[]), "");
}

#[test]
fn checksum_of_known_content_verifies() {
    assert!(verify_sha256_checksum(b"abc", ABC_SHA256).is_ok());
    assert!(verify_sha256_checksum(b"abc", &format!("  {}\n", ABC_SHA256.to_uppercase())).is_ok());
    assert!(verify_sha256_checksum(
        b"",
        "e3b0c44298fc1c149afbf4c8996fb92427ae41e4649b934ca495991b7852b855"
    )
    .is_ok());
}

#[test]
fn checksum_fails_for_altered_byte() {
    let err = verify_sha256_checksum(b"abd", ABC_SHA256).unwrap_err();
    assert_eq!(err.expected, ABC_SHA256);
    assert_ne!(err.actual, ABC_SHA256);
    assert_eq!(err.actual.len(), 64);
    assert!(verify_sha256_checksum(b"Abc", ABC_SHA256).is_err());
}

#[test]
fn blank_expected_checksum_skips_verification() {
    assert!(verify_sha256_checksum(b"anything", "   ").is_ok());
    assert!(digest_matches(&[1, 2], "").is_ok());
    assert!(digest_matches(&[1, 2], "0102").is_ok());
    let err = digest_matches(&[1, 2], " 0103 ").unwrap_err();
    assert_eq!(err.expected, "0103");
    assert_eq!(err.actual, "0102");
}

#[test]
fn job_slot_refuses_while_previous_runs() {
    let mut slot: JobSlot<u32> = JobSlot::new();
    assert!(!slot.is_occupied());
    assert!(slot.begin_start(true).is_ok());
    slot.install(1);
    assert_eq!(slot.begin_start(true), Err(JobConflict::AnotherJobRunning));
    assert_eq!(slot.current, Some(1));
    assert_eq!(JobConflict::AnotherJobRunning.message(), "another job is running");
}

#[test]
fn job_slot_refuses_second_start_while_spawning() {
    let mut slot: JobSlot<u32> = JobSlot::new();
    assert!(slot.begin_start(false).is_ok());
    assert!(slot.starting);
    assert_eq!(slot.begin_start(false), Err(JobConflict::AnotherJobRunning));
    slot.install(7);
    assert!(!slot.starting);
    assert_eq!(slot.current, Some(7));
    assert!(slot.begin_start(false).is_ok());
    slot.abort_start();
    assert!(!slot.starting);
    assert_eq!(slot.current, None);
    assert!(slot.begin_start(false).is_ok());
}

#[test]
fn job_slot_replaces_exited_job() {
    let mut slot: JobSlot<u32> = JobSlot::new();
    slot.install(1);
    assert!(slot.begin_start(false).is_ok());
    assert_eq!(slot.current, None);
    slot.install(2);
    assert_eq!(slot.current, Some(2));
    assert_eq!(slot.release(), Some(2));
    assert_eq!(slot.release(), None);
    assert!(!slot.is_occupied());
}

#[test]
fn streaming_session_forwards_until_end() {
    let mode = WorkerMode::Streaming;
    let (p, a) = worker_session_step(mode, WorkerPhase::AwaitingInput, WorkerEvent::RequestWritten);
    assert_eq!((p, a), (WorkerPhase::InputClosed, WorkerAction::CloseInput));
    let (p, a) = worker_session_step(mode, p, WorkerEvent::LineParsed);
    assert_eq!((p, a), (WorkerPhase::Streaming, WorkerAction::Forward));
    let (p, a) = worker_session_step(mode, p, WorkerEvent::LineMalformed);
    assert_eq!((p, a), (WorkerPhase::Streaming, WorkerAction::ForwardError));
    let (p, a) = worker_session_step(mode, p, WorkerEvent::ReadFailed);
    assert_eq!((p, a), (WorkerPhase::Terminated, WorkerAction::ForwardError));
    let (p, a) = worker_session_step(mode, p, WorkerEvent::LineParsed);
    assert_eq!((p, a), (WorkerPhase::Terminated, WorkerAction::Ignore));
}

#[test]
fn blocking_session_uses_first_line() {
    let mode = WorkerMode::Blocking;
    let (p, _) = worker_session_step(mode, WorkerPhase::AwaitingInput, WorkerEvent::RequestWritten);
    assert_eq!(
        worker_session_step(mode, p, WorkerEvent::LineParsed),
        (WorkerPhase::Terminated, WorkerAction::Respond)
    );
    assert_eq!(
        worker_session_step(mode, p, WorkerEvent::EndOfOutput),
        (WorkerPhase::Terminated, WorkerAction::Fail)
    );
    assert_eq!(
        worker_session_step(mode, p, WorkerEvent::LineMalformed),
        (WorkerPhase::Terminated, WorkerAction::Fail)
    );
}

#[test]
fn probe_output_prefers_stdout() {
    assert_eq!(
        version_line_from_output(true, " Python 3.11.2\n", "Python 3.8.0"),
        Some("Python 3.11.2".to_string())
    );
    assert_eq!(
        version_line_from_output(true, "  ", "Python 3.8.0\n"),
        Some("Python 3.8.0".to_string())
    );
    assert_eq!(version_line_from_output(false, "Python 3.11.2", ""), None);
    assert_eq!(version_line_from_output(true, "", ""), None);
    assert_eq!(version_line_from_output(true, "garbage", "Python 3.11.2"), None);
}

#[test]
fn adoption_requires_supported_version() {
    let rt = adopt_runtime(RuntimeSource::System, "python3".to_string(), Some("Python 3.12.1".to_string()))
        .unwrap();
    assert_eq!(rt.source, RuntimeSource::System);
    assert_eq!(rt.executable_path, "python3");
    assert_eq!(rt.version, "Python 3.12.1");
    assert!(adopt_runtime(RuntimeSource::System, "python".to_string(), Some("Python 3.8.1".to_string()))
        .is_none());
    assert!(adopt_runtime(RuntimeSource::Configured, "p".to_string(), None).is_none());
}

#[test]
fn system_names_follow_platform() {
    assert_eq!(system_interpreter_names(false), vec!["python3", "python"]);
    assert_eq!(system_interpreter_names(true), vec!["python", "python3"]);
}

#[test]
fn status_reports_source_and_absence() {
    let none = runtime_status(None);
    assert!(!none.ready);
    assert_eq!(none.source, "none");
    assert_eq!(none.executable_path, None);
    let sys = runtime_status(Some(PythonRuntime {
        source: RuntimeSource::System,
        executable_path: "python3".to_string(),
        version: "Python 3.11.0".to_string(),
    }));
    assert!(sys.ready);
    assert_eq!(sys.source, "system");
    assert_eq!(sys.message, "检测到系统 Python，可直接使用");
    let conf = runtime_status(Some(PythonRuntime {
        source: RuntimeSource::Configured,
        executable_path: "/opt/py".to_string(),
        version: "Python 3.11.0".to_string(),
    }));
    assert_eq!(conf.source, "configured");
    assert_eq!(conf.executable_path, Some("/opt/py".to_string()));
    assert_eq!(conf.version, Some("Python 3.11.0".to_string()));
}

#[test]
fn launch_choice_order() {
    let rt = PythonRuntime {
        source: RuntimeSource::Configured,
        executable_path: "/rt/python".to_string(),
        version: "Python 3.11.0".to_string(),
    };
    match choose_worker_launch(true, Some("/p/.venv/bin/python3".to_string()), Some("uv".to_string()), None) {
        Ok(WorkerLaunch::ProjectInterpreter(p)) => assert_eq!(p, "/p/.venv/bin/python3"),
        _ => panic!("expected the project interpreter"),
    }
    match choose_worker_launch(true, None, Some("uv".to_string()), Some(rt.clone())) {
        Ok(WorkerLaunch::ManagerRun(m)) => assert_eq!(m, "uv"),
        _ => panic!("expected the manager"),
    }
    match choose_worker_launch(false, Some("/p/py".to_string()), Some("uv".to_string()), Some(rt)) {
        Ok(WorkerLaunch::Runtime(p)) => assert_eq!(p, "/rt/python"),
        _ => panic!("expected the runtime"),
    }
    assert!(choose_worker_launch(true, None, None, None).is_err());
}

#[test]
fn interpreter_names_ignore_case() {
    assert!(is_interpreter_file_name("python3"));
    assert!(is_interpreter_file_name("Python.EXE"));
    assert!(is_interpreter_file_name("PYTHON"));
    assert!(!is_interpreter_file_name("python3.11"));
    assert!(!is_interpreter_file_name("pythonw.exe"));
}

fn candidate(path: &[&str]) -> InterpreterCandidate {
    InterpreterCandidate {
        file_name: path[path.len() - 1].to_string(),
        components: path.iter().map(|s| s.to_string()).collect(),
    }
}

#[test]
fn interpreter_candidates_ranked() {
    let cands = vec![
        candidate(&["root", "python", "python.exe"]),
        candidate(&["root", "python", "bin", "python"]),
        candidate(&["root", "a", "b", "bin", "python3"]),
        candidate(&["root", "python3"]),
        candidate(&["root", "bin", "python3"]),
        candidate(&["root", "x", "python.exe"]),
    ];
    assert_eq!(order_interpreter_candidates(&cands), vec![4, 2, 3, 1, 0, 5]);
    assert!(order_interpreter_candidates(&vec![]).is_empty());
}

#[test]
fn cascade_exhausts_after_manager_install_retries() {
    let mut s = detect_start();
    assert_eq!(s.stage, DetectStage::LocateManager);
    let (n, sleep) = detect_step(s, DetectOutcome::Failed);
    assert_eq!((n.stage, n.attempt, sleep), (DetectStage::InstallManager, 1, false));
    s = n;
    let (n, sleep) = detect_step(s, DetectOutcome::Failed);
    assert_eq!((n.stage, n.attempt, sleep), (DetectStage::InstallManager, 2, true));
    s = n;
    let (n, sleep) = detect_step(s, DetectOutcome::Failed);
    assert_eq!((n.stage, n.attempt, sleep), (DetectStage::InstallManager, 3, true));
    s = n;
    let (n, _) = detect_step(s, DetectOutcome::Failed);
    assert_eq!((n.stage, n.candidate, n.manager_install_failed), (DetectStage::SystemFallback, 0, true));
    s = n;
    let (n, _) = detect_step(s, DetectOutcome::Failed);
    assert_eq!((n.stage, n.candidate), (DetectStage::SystemFallback, 1));
    s = n;
    let (n, _) = detect_step(s, DetectOutcome::Failed);
    assert_eq!(n.stage, DetectStage::Exhausted);
    assert!(detect_is_finished(n));
    assert_eq!(detect_failure(n), DetectFailure::ManagerInstallFailed);
}

#[test]
fn cascade_adopts_installed_interpreter() {
    let s = detect_start();
    let (s, _) = detect_step(s, DetectOutcome::Succeeded);
    assert_eq!(s.stage, DetectStage::QueryManaged);
    let (s, _) = detect_step(s, DetectOutcome::Failed);
    assert_eq!((s.stage, s.attempt), (DetectStage::InstallInterpreter, 1));
    let (s, sleep) = detect_step(s, DetectOutcome::Failed);
    assert!(sleep);
    let (s, _) = detect_step(s, DetectOutcome::Succeeded);
    assert_eq!(s.stage, DetectStage::QueryInstalled);
    let (s, _) = detect_step(s, DetectOutcome::Succeeded);
    assert_eq!(s.stage, DetectStage::Adopted);
    assert!(detect_is_finished(s));
}

#[test]
fn cascade_manager_installed_but_missing_is_not_retried() {
    let s = detect_start();
    let (s, _) = detect_step(s, DetectOutcome::Failed);
    let (s, sleep) = detect_step(s, DetectOutcome::FailedFinal);
    assert!(!sleep);
    assert_eq!(s.stage, DetectStage::SystemFallback);
    assert!(s.manager_install_failed);
    let (s, _) = detect_step(s, DetectOutcome::Failed);
    let (s, _) = detect_step(s, DetectOutcome::Failed);
    assert_eq!(s.stage, DetectStage::Exhausted);
}

#[test]
fn cascade_without_manager_failure_reports_no_interpreter() {
    let s = detect_start();
    let (s, _) = detect_step(s, DetectOutcome::Succeeded);
    let (s, _) = detect_step(s, DetectOutcome::Failed);
    let (s, _) = detect_step(s, DetectOutcome::Failed);
    let (s, _) = detect_step(s, DetectOutcome::Failed);
    let (s, _) = detect_step(s, DetectOutcome::Failed);
    assert_eq!(s.stage, DetectStage::SystemFallback);
    assert!(!s.manager_install_failed);
    let (s, _) = detect_step(s, DetectOutcome::Failed);
    let (s, _) = detect_step(s, DetectOutcome::Failed);
    assert_eq!(detect_failure(s), DetectFailure::NoUsableInterpreter);
}

#[test]
fn end_to_end_download_scenario() {
    let manifest = RuntimeManifest {
        bundles: vec![bundle("linux-x86_64", "https://cdn/x.zip", Some(ABC_SHA256), None)],
    };
    let target = runtime_target_key("linux", "x86_64");
    let selected = select_manifest_bundle(&manifest, &target).expect("bundle for the host");
    assert_eq!(selected.url, "https://cdn/x.zip");
    let urls = plan_bundle_download(selected).expect("download allowed");
    assert_eq!(urls, vec!["https://cdn/x.zip"]);
    let downloaded = b"abc";
    assert!(verify_sha256_checksum(downloaded, selected.sha256.as_deref().unwrap()).is_ok());
    let version = version_line_from_output(true, "Python 3.11.8\n", "");
    let rt = adopt_runtime(RuntimeSource::Download, "/rt/python/bin/python3".to_string(), version).unwrap();
    let status = adopted_status(rt, "运行时导入成功");
    assert!(status.ready);
    assert_eq!(status.source, "download");
    assert_eq!(status.executable_path, Some("/rt/python/bin/python3".to_string()));
    assert_eq!(status.version, Some("Python 3.11.8".to_string()));
}

fn probed(path: &str, exists: bool, line: Option<&str>) -> ProbedInterpreter {
    ProbedInterpreter { path: path.to_string(), exists, version_line: line.map(|l| l.to_string()) }
}

#[test]
fn project_python_takes_first_usable() {
    let cands = vec![
        probed("/p/.venv/bin/python3", false, Some("Python 3.12.0")),
        probed("/p/.venv/bin/python", true, Some("Python 3.8.10")),
        probed("/p/.venv/bin/python3.11", true, Some("Python 3.11.2")),
        probed("/p/.venv/bin/python3.12", true, Some("Python 3.12.2")),
    ];
    assert_eq!(find_project_python(&cands), Some("/p/.venv/bin/python3.11".to_string()));
    assert_eq!(find_project_python(&vec![probed("/x", true, None)]), None);
    assert_eq!(find_project_python(&vec![]), None);
}

#[test]
fn project_interpreter_paths_by_platform() {
    assert_eq!(
        project_interpreter_candidates(false),
        vec![vec![".venv", "bin", "python3"], vec![".venv", "bin", "python"]]
    );
    assert_eq!(
        project_interpreter_candidates(true),
        vec![vec![".venv", "Scripts", "python.exe"], vec![".venv", "python.exe"]]
    );
}

#[test]
fn query_or_fragment_ends_the_authority() {
    assert!(!is_localhost_http_url("http://evil.com?@localhost/"));
    assert!(!is_localhost_http_url("http://evil.com#@localhost"));
    assert!(!is_localhost_http_url("http://localhost.evil.com/x"));
    assert!(!is_localhost_http_url("http://localhost@evil.com/x"));
    assert!(!is_localhost_http_url("http://127.0.0.1.nip.io/x"));
    assert!(!is_localhost_http_url("http://evil.com/localhost"));
    assert!(is_localhost_http_url("http://localhost?x=1"));
    assert!(is_localhost_http_url("http://127.0.0.1:8000#frag"));
    assert!(validate_remote_url_scheme("http://evil.com?@localhost/", "manifest").is_err());
    assert!(validate_remote_url_scheme("http://evil.com#@localhost", "manifest").is_err());
}

#[test]
fn scheme_is_compared_ignoring_case() {
    assert!(validate_remote_url_scheme("HTTP://evil.com/x", "manifest").is_err());
    assert!(validate_remote_url_scheme("Http://LocalHost:80/x", "manifest").is_ok());
    assert!(is_remote_url("HTTP://evil.com/x"));
    assert!(is_remote_url("HTTPS://cdn/x.zip"));
    let b = bundle("t", "HTTPS://cdn/x.zip", None, None);
    assert!(plan_bundle_download(&b).is_err());
}

#[test]
fn first_supported_follows_ranked_order() {
    let probed = vec![
        Some("Python 3.12.1".to_string()),
        Some("Python 3.8.0".to_string()),
        None,
        Some("Python 3.10.2".to_string()),
    ];
    assert_eq!(first_supported(&vec![1, 2, 3, 0], &probed), Some(3));
    assert_eq!(first_supported(&vec![0, 3], &probed), Some(0));
    assert_eq!(first_supported(&vec![1, 2, 9], &probed), None);
    assert_eq!(first_supported(&vec![], &probed), None);
}

#[test]
fn resolution_prefers_configured_then_system() {
    let system = vec![probed("python3", true, Some("Python 3.8.1")), probed("python", true, Some("Python 3.11.4"))];
    let rt = resolve_runtime(Some(probed("/opt/py", true, Some("Python 3.12.0"))), &system).unwrap();
    assert_eq!((rt.source, rt.executable_path.as_str()), (RuntimeSource::Configured, "/opt/py"));
    let rt = resolve_runtime(Some(probed("/opt/py", true, Some("Python 3.7.0"))), &system).unwrap();
    assert_eq!((rt.source, rt.executable_path.as_str()), (RuntimeSource::System, "python"));
    assert_eq!(rt.version, "Python 3.11.4");
    let rt = resolve_runtime(None, &system).unwrap();
    assert_eq!(rt.executable_path, "python");
    assert!(resolve_runtime(None, &vec![probed("python3", true, None)]).is_none());
}

#[test]
fn manifest_sources_tried_in_turn() {
    let mut errors: Vec<String> = Vec::new();
    let refused = SourceAttempt::Refused("manifest refused".to_string());
    assert_eq!(manifest_source_step(&mut errors, "http://a/m", "linux-x86_64", &refused), None);
    let failed = SourceAttempt::LoadFailed("timeout".to_string());
    assert_eq!(manifest_source_step(&mut errors, "https://b/m", "linux-x86_64", &failed), None);
    let other = SourceAttempt::Loaded(RuntimeManifest {
        bundles: vec![bundle("macos-aarch64", "https://c/mac.zip", None, None)],
    });
    assert_eq!(manifest_source_step(&mut errors, "https://c/m", "linux-x86_64", &other), None);
    assert_eq!(
        errors,
        vec![
            "manifest refused".to_string(),
            "manifest `https://b/m` 加载失败：timeout".to_string(),
            "manifest `https://c/m` 未包含平台 `linux-x86_64`".to_string(),
        ]
    );
    let found = SourceAttempt::Loaded(RuntimeManifest {
        bundles: vec![
            bundle("macos-aarch64", "https://d/mac.zip", None, None),
            bundle("linux-x86_64", "https://d/linux.zip", None, None),
        ],
    });
    assert_eq!(manifest_source_step(&mut errors, "https://d/m", "linux-x86_64", &found), Some(1));
    assert_eq!(errors.len(), 3);
    assert_eq!(
        install_failure_summary(&errors),
        "自动安装失败：manifest refused | manifest `https://b/m` 加载失败：timeout | manifest `https://c/m` 未包含平台 `linux-x86_64`"
    );
    assert_eq!(install_failure_summary(&vec![]), "自动安装失败：");
}
