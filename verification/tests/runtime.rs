use autodirector_fix::config::CameraConfig;
use autodirector_fix::runtime::{
    after_log_attempt, after_module_query, begin_patch, load_config, log_file_name, log_line,
    path_from_buffer, LogStep, WaitStep, LOG_FILE_ATTEMPTS, MODULE_ATTEMPTS,
    MODULE_RETRY_MILLISECONDS,
};

#[test]
fn log_files_are_named_by_time_and_number() {
    assert_eq!(log_file_name(0, 0), "autodirector_fix-0-0.log");
    assert_eq!(
        log_file_name(1_700_000_000_123, 42),
        "autodirector_fix-1700000000123-42.log"
    );
    assert_ne!(log_file_name(1, 11), log_file_name(11, 1));
}

#[test]
fn log_lines_carry_a_prefix() {
    assert_eq!(log_line("injected"), "[autodirector-fix] injected");
}

#[test]
fn log_attempts_count_up_and_end() {
    assert_eq!(after_log_attempt(0, true), LogStep::Opened);
    assert_eq!(after_log_attempt(99, true), LogStep::Opened);
    let mut tried = vec![0];
    loop {
        match after_log_attempt(tried[tried.len() - 1], false) {
            LogStep::Try(suffix) => tried.push(suffix),
            LogStep::GiveUp => break,
            LogStep::Opened => panic!(),
        }
    }
    assert_eq!(tried, (0..100).collect::<Vec<u32>>());
    assert_eq!(LOG_FILE_ATTEMPTS, 100);
    assert_eq!(after_log_attempt(u32::MAX, false), LogStep::GiveUp);
}

#[test]
fn looks_for_the_module_count_up_and_end() {
    assert_eq!(after_module_query(0, true), WaitStep::Initialize);
    let mut looks = 1;
    let mut attempt = 0;
    while let WaitStep::Retry(next) = after_module_query(attempt, false) {
        attempt = next;
        looks += 1;
    }
    assert_eq!(looks, 600);
    assert_eq!(MODULE_ATTEMPTS, 600);
    assert_eq!(MODULE_RETRY_MILLISECONDS, 100);
    assert_eq!(after_module_query(599, false), WaitStep::TimeOut);
    assert_eq!(after_module_query(u32::MAX, false), WaitStep::TimeOut);
}

#[test]
fn path_ends_at_the_first_zero() {
    let mut buffer = [0u8; 16];
    buffer[..7].copy_from_slice("C:\\\u{e9}.x".as_bytes());
    assert_eq!(
        path_from_buffer(&buffer, 7),
        Some("C:\\\u{e9}.x".to_string())
    );
    assert_eq!(path_from_buffer(b"ab\0cd\0", 5), Some("ab".to_string()));
    assert_eq!(path_from_buffer(b"\0a", 1), Some(String::new()));
}

#[test]
fn unusable_paths_are_none() {
    assert_eq!(path_from_buffer(b"abc\0", 0), None);
    assert_eq!(path_from_buffer(b"abc\0", 4), None);
    assert_eq!(path_from_buffer(b"abc", 2), None);
    assert_eq!(path_from_buffer(b"a\xff\0\0", 2), None);
    assert_eq!(path_from_buffer(b"a\xc3\0\0", 2), None);
    assert_eq!(path_from_buffer(b"", 0), None);
}

#[test]
fn config_file_is_loaded() {
    let loaded = load_config(
        Some("C:\\x.toml"),
        Some("[cameras]\nzoom = true\nchase = false\npan = true"),
    );
    assert!(!loaded.config.chase);
    assert_eq!(loaded.config.disabled_mask, 0b1100);
    assert_eq!(
        loaded.log,
        vec![
            "loaded config C:\\x.toml",
            "ignoring unknown cameras key 'zoom'",
            "ignoring unknown cameras key 'pan'",
        ]
    );
}

#[test]
fn defaults_stand_in_for_a_missing_or_wrong_file() {
    let without_path = load_config(None, Some("[cameras]\nchase = false"));
    assert_eq!(without_path.config, CameraConfig::default());
    assert_eq!(
        without_path.log,
        vec!["module path is unavailable; using default config"]
    );
    let missing = load_config(Some("a.toml"), None);
    assert_eq!(missing.config, CameraConfig::default());
    assert_eq!(missing.log, vec!["config missing a.toml; using defaults"]);
    let wrong = load_config(Some("a.toml"), Some("[cameras]\nchase = false\nfixed"));
    assert_eq!(wrong.config, CameraConfig::default());
    assert_eq!(
        wrong.log,
        vec!["invalid config a.toml; using defaults: line 3: expected key = value"]
    );
}

#[test]
fn a_patch_is_needed_for_a_mask() {
    let begun = begin_patch(&CameraConfig::default());
    assert!(begun.needs_patch);
    assert_eq!(
        begun.log,
        vec!["config fixed=true first_person=false chase=true cameraman=true disabled_mask=0x4"]
    );
    let all = load_config(Some("a"), Some("[cameras]\nfirst_person = true")).config;
    let begun = begin_patch(&all);
    assert!(!begun.needs_patch);
    assert_eq!(
        begun.log,
        vec![
            "config fixed=true first_person=true chase=true cameraman=true disabled_mask=0x0",
            "all camera families use the original override; no patch is needed",
        ]
    );
}
