use deepseek_desktop::boot::{BootAction, BootStage, HostBoot};
use deepseek_desktop::command::{host_args, resolve_host_command, split_words};
use deepseek_desktop::readiness::{
    crash_message_text, timeout_message_text,
    readiness_step, reply_is_http, url_wait_step, ChildState, ReadyStep, UrlStep, HOST_ADDR,
    HOST_URL,
};
use deepseek_desktop::shell::{navigation_script, shortcut_action, stays_in_webview, ShortcutAction};
use deepseek_desktop::tail::{authenticated_host_url, host_error_tail, OutputTail, TAIL_LIMIT};
use deepseek_desktop::updater::{
    may_update, may_update_under, AutoBumpPolicy, GatedPolicy, PinnedPolicy, UpdatePolicy, UpdateStrategy,
};
use deepseek_desktop::upgrade::{host_version_from_manifest, needs_purge};

fn strings(v: &[&str]) -> Vec<String> {
    v.iter().map(|s| s.to_string()).collect()
}

#[test]
fn host_args_are_web_no_open() {
    assert_eq!(host_args(), strings(&["web", "--no-open"]));
}

#[test]
fn override_is_split_at_whitespace() {
    let (program, args) = resolve_host_command(Some("  node\t/opt/dsh.js  web \u{3000}--port 1 "), None);
    assert_eq!(program, "node");
    assert_eq!(args, strings(&["/opt/dsh.js", "web", "--port", "1"]));
}

#[test]
fn blank_override_falls_to_launcher_kept_whole() {
    let launcher = "/Applications/My App.app/Contents/Resources/dsh-launcher".to_string();
    let (program, args) = resolve_host_command(Some(" \t "), Some(launcher.clone()));
    assert_eq!(program, launcher);
    assert_eq!(args, strings(&["web", "--no-open"]));
}

#[test]
fn no_override_no_launcher_uses_system_dsh() {
    let (program, args) = resolve_host_command(None, None);
    assert_eq!(program, "dsh");
    assert_eq!(args, strings(&["web", "--no-open"]));
}

#[test]
fn override_wins_over_launcher() {
    let (program, args) = resolve_host_command(Some("custom"), Some("launcher".to_string()));
    assert_eq!(program, "custom");
    assert!(args.is_empty());
}

#[test]
fn split_words_matches_std() {
    let s = " a  b\u{85}c\n\td ";
    let expected: Vec<String> = s.split_whitespace().map(|w| w.to_string()).collect();
    assert_eq!(split_words(s), expected);
    assert!(split_words("   ").is_empty());
}

#[test]
fn boot_primary_success_awaits_url() {
    let (mut boot, first) = HostBoot::start("launcher".to_string(), strings(&["web"]));
    match first {
        BootAction::Spawn { program, args } => {
            assert_eq!(program, "launcher");
            assert_eq!(args, strings(&["web"]));
        }
        _ => panic!("first action must spawn"),
    }
    assert!(matches!(boot.step(Ok(())), BootAction::AwaitUrl));
    assert!(matches!(boot.stage, BootStage::Finished));
}

#[test]
fn boot_falls_back_to_system_dsh_then_reports_primary_error() {
    let (mut boot, _) = HostBoot::start("launcher".to_string(), strings(&["web"]));
    match boot.step(Err("primary broke".to_string())) {
        BootAction::Spawn { program, args } => {
            assert_eq!(program, "dsh");
            assert_eq!(args, strings(&["web", "--no-open"]));
        }
        _ => panic!("a failed preferred host must fall back"),
    }
    match boot.step(Err("fallback broke".to_string())) {
        BootAction::GiveUp { error } => assert_eq!(error, "primary broke"),
        _ => panic!("both failed"),
    }
    assert!(matches!(boot.stage, BootStage::Finished));
}

#[test]
fn boot_fallback_success_awaits_url() {
    let (mut boot, _) = HostBoot::start("launcher".to_string(), vec![]);
    assert!(matches!(boot.step(Err("e".to_string())), BootAction::Spawn { .. }));
    assert!(matches!(boot.step(Ok(())), BootAction::AwaitUrl));
}

#[test]
fn boot_of_system_dsh_does_not_retry_itself() {
    let (mut boot, _) = HostBoot::start("dsh".to_string(), host_args());
    match boot.step(Err("no dsh".to_string())) {
        BootAction::GiveUp { error } => assert_eq!(error, "no dsh"),
        _ => panic!("dsh has nothing to fall back to"),
    }
}

#[test]
fn http_reply_detection() {
    assert!(reply_is_http(b"HTTP/1.1 401 Unauthorized\r\n"));
    assert!(reply_is_http(b"HTTP/"));
    assert!(!reply_is_http(b"HTTP"));
    assert!(!reply_is_http(b""));
    assert!(!reply_is_http(b"SSH-2.0"));
}

fn tail_of(bytes: &[u8]) -> OutputTail {
    let mut t = OutputTail::new();
    t.record(bytes);
    t
}

#[test]
fn ready_when_serving_even_if_exited() {
    let child = ChildState::Exited { status: "exit status: 1".to_string() };
    let step = readiness_step(HOST_ADDR, true, &child, &OutputTail::new(), true, "120s");
    assert!(matches!(step, ReadyStep::Ready));
}

#[test]
fn exited_host_quotes_stderr() {
    let child = ChildState::Exited { status: "exit status: 1".to_string() };
    let stderr = tail_of(b"bad credentials\n");
    match readiness_step("127.0.0.1:3080", false, &child, &stderr, false, "120s") {
        ReadyStep::Failed { error } => assert_eq!(
            error,
            "host at 127.0.0.1:3080 exited during startup with exit status: 1\n--- host stderr (tail) ---\nbad credentials\n"
        ),
        _ => panic!("an exited host has failed"),
    }
}

#[test]
fn exited_host_with_blank_stderr_has_no_quote() {
    let child = ChildState::Exited { status: "signal: 9".to_string() };
    let stderr = tail_of(b" \n\t");
    match readiness_step("a:1", false, &child, &stderr, true, "120s") {
        ReadyStep::Failed { error } => {
            assert_eq!(error, "host at a:1 exited during startup with signal: 9")
        }
        _ => panic!("an exited host has failed"),
    }
}

#[test]
fn timeout_and_waiting() {
    match readiness_step("a:1", false, &ChildState::Running, &OutputTail::new(), true, "120s") {
        ReadyStep::Failed { error } => {
            assert_eq!(error, "host at a:1 did not become ready within 120s")
        }
        _ => panic!("deadline passed"),
    }
    let step = readiness_step("a:1", false, &ChildState::Unknown, &OutputTail::new(), false, "1s");
    assert!(matches!(step, ReadyStep::KeepWaiting));
}

#[test]
fn url_wait_prefers_printed_url_then_falls_back() {
    let out = tail_of(b"dsh web: http://127.0.0.1:3080/?token=z\n");
    match url_wait_step(&out, false) {
        UrlStep::Navigate { url } => assert_eq!(url, "http://127.0.0.1:3080/?token=z"),
        _ => panic!("url was printed"),
    }
    let quiet = tail_of(b"listening\n");
    assert!(matches!(url_wait_step(&quiet, false), UrlStep::KeepWaiting));
    match url_wait_step(&quiet, true) {
        UrlStep::Navigate { url } => assert_eq!(url, HOST_URL),
        _ => panic!("deadline passed"),
    }
}

#[test]
fn tail_keeps_last_bytes() {
    let mut t = OutputTail::new();
    t.record(b"abc");
    t.record(b"def");
    assert_eq!(t.bytes(), b"abcdef");
    let big: Vec<u8> = (0..10000u32).map(|i| (i % 251) as u8).collect();
    t.record(&big);
    assert_eq!(t.bytes().len(), TAIL_LIMIT);
    assert_eq!(t.bytes(), &big[big.len() - TAIL_LIMIT..]);
}

#[test]
fn tail_is_last_bytes_however_chunked() {
    let stream: Vec<u8> = (0..20000u32).map(|i| (i % 97) as u8).collect();
    let mut one = OutputTail::new();
    one.record(&stream);
    let mut many = OutputTail::new();
    for chunk in stream.chunks(4096) {
        many.record(chunk);
    }
    let mut odd = OutputTail::new();
    for chunk in stream.chunks(7) {
        odd.record(chunk);
    }
    assert_eq!(one.bytes(), &stream[stream.len() - TAIL_LIMIT..]);
    assert_eq!(many.bytes(), one.bytes());
    assert_eq!(odd.bytes(), one.bytes());
}

#[test]
fn tail_text_is_lossy() {
    let t = tail_of(b"ok \xff end");
    assert_eq!(host_error_tail(&t), "ok \u{fffd} end");
    assert_eq!(t.text(), "ok \u{fffd} end");
}

#[test]
fn authenticated_url_from_tail() {
    let t = tail_of(b"dsh web: http://127.0.0.1:3080/?token=abc\n");
    assert_eq!(
        authenticated_host_url(&t).as_deref(),
        Some("http://127.0.0.1:3080/?token=abc")
    );
    assert_eq!(authenticated_host_url(&OutputTail::new()), None);
}

#[test]
fn navigation_script_shape() {
    assert_eq!(
        navigation_script("http://127.0.0.1:3080/?token=a"),
        "window.location.replace('http://127.0.0.1:3080/?token=a')"
    );
}

#[test]
fn local_hosts_stay_in_webview() {
    assert!(stays_in_webview(Some("127.0.0.1")));
    assert!(stays_in_webview(Some("localhost")));
    assert!(!stays_in_webview(Some("example.com")));
    assert!(!stays_in_webview(Some("localhost.evil")));
    assert!(!stays_in_webview(None));
}

#[test]
fn shortcut_toggles_window() {
    assert_eq!(shortcut_action(true, true, Some(true)), ShortcutAction::Hide);
    assert_eq!(shortcut_action(true, true, Some(false)), ShortcutAction::ShowAndFocus);
    assert_eq!(shortcut_action(true, true, None), ShortcutAction::ShowAndFocus);
    assert_eq!(shortcut_action(false, true, Some(true)), ShortcutAction::Ignore);
    assert_eq!(shortcut_action(true, false, Some(true)), ShortcutAction::Ignore);
}

#[test]
fn host_version_from_manifest_or_unknown() {
    let manifest = r#"{ "name": "@deepseek-ai/dsh", "version": "0.1.1-rc.2" }"#;
    assert_eq!(host_version_from_manifest(Some(manifest)), "0.1.1-rc.2");
    assert_eq!(host_version_from_manifest(Some("{}")), "unknown");
    assert_eq!(host_version_from_manifest(None), "unknown");
}

#[test]
fn purge_only_on_version_change() {
    assert!(!needs_purge(Some("0.1.1\n"), "0.1.1"));
    assert!(!needs_purge(Some("0.1.1"), "0.1.1"));
    assert!(needs_purge(Some("0.1.0"), "0.1.1"));
    assert!(needs_purge(None, "0.1.1"));
    assert!(needs_purge(Some(""), "0.1.1"));
}

#[test]
fn recorded_version_keeps_store_law() {
    for v in ["0.1.1-rc.2", "unknown", ""] {
        assert!(!needs_purge(Some(v), v));
    }
}

#[test]
fn update_policies() {
    assert_eq!(PinnedPolicy.strategy(), UpdateStrategy::Pin);
    assert_eq!(AutoBumpPolicy.strategy(), UpdateStrategy::AutoBump);
    assert_eq!(GatedPolicy.strategy(), UpdateStrategy::AutoBumpWithGate);
    for verified in [false, true] {
        assert!(!may_update(&PinnedPolicy, verified));
        assert!(may_update(&AutoBumpPolicy, verified));
        assert_eq!(may_update(&GatedPolicy, verified), verified);
        assert!(!may_update_under(&PinnedPolicy, verified));
        assert!(may_update_under(&AutoBumpPolicy, verified));
        assert_eq!(may_update_under(&GatedPolicy, verified), verified);
        let boxed: Box<dyn UpdatePolicy> = Box::new(GatedPolicy);
        assert_eq!(may_update_under(boxed.as_ref(), verified), verified);
    }
}

#[test]
fn message_texts_are_exact() {
    assert_eq!(
        crash_message_text("a:1", "exit status: 2", "boom"),
        "host at a:1 exited during startup with exit status: 2\n--- host stderr (tail) ---\nboom"
    );
    assert_eq!(
        crash_message_text("a:1", "exit status: 2", "\n \t"),
        "host at a:1 exited during startup with exit status: 2"
    );
    assert_eq!(timeout_message_text("a:1", "5s"), "host at a:1 did not become ready within 5s");
}

#[test]
fn tail_text_of_valid_utf8_is_unchanged() {
    let t = tail_of("déjà vu ✓".as_bytes());
    assert_eq!(t.text(), "déjà vu ✓");
}
