use dlrunner::events::channel_for;
use dlrunner::events::window_title_for;
use dlrunner::events::Emission;
use dlrunner::events::EventKind;
use dlrunner::runner::check_sidecar;
use dlrunner::runner::close_emission;
use dlrunner::runner::cookie_file_name;
use dlrunner::runner::decimal_string;
use dlrunner::runner::resolve_exit_code;
use dlrunner::runner::sidecar_relative_path;
use dlrunner::runner::JobError;
use dlrunner::stream::StderrStream;
use dlrunner::stream::StdoutStream;

#[test]
fn silent_run_yields_exactly_one_close_event_with_the_code() {
    // A child that exits with 42 and writes nothing: both streams drain
    // without an event, then one completion event carries 42.
    let mut out = StdoutStream::new("w".to_string());
    let mut err = StderrStream::new("w".to_string());
    let mut evs: Vec<Emission> = Vec::new();
    evs.extend(out.feed(&Vec::new()));
    for e in err.finish() {
        evs.push(e);
    }
    assert!(evs.is_empty());
    let close = close_emission("w", Some(42));
    match close {
        Emission::Close { channel, code } => {
            assert_eq!(channel, "w-close");
            assert_eq!(code, 42);
        }
        _ => panic!("expected a close emission"),
    }
}

#[test]
fn missing_sidecar_fails_before_spawning() {
    let r = check_sidecar("/nope/yt-dlp".to_string(), false);
    match r {
        Err(JobError::SidecarNotFound { path }) => {
            assert_eq!(path, "/nope/yt-dlp");
        }
        _ => panic!("expected a sidecar-not-found error"),
    }
    assert!(check_sidecar("/bin/anything".to_string(), true).is_ok());
}

#[test]
fn error_messages_match_their_causes() {
    let e = JobError::SidecarNotFound { path: "/p/x".to_string() };
    assert_eq!(e.message(), "Sidecar not found: /p/x");
    let e = JobError::SpawnFailed { detail: "denied".to_string() };
    assert_eq!(e.message(), "Failed to spawn process: denied");
    let e = JobError::WaitFailed { detail: "gone".to_string() };
    assert_eq!(e.message(), "Process error: gone");
}

#[test]
fn signal_termination_reports_sentinel() {
    assert_eq!(resolve_exit_code(None), -1);
    assert_eq!(resolve_exit_code(Some(0)), 0);
    assert_eq!(resolve_exit_code(Some(42)), 42);
    let close = close_emission("j", None);
    match close {
        Emission::Close { channel, code } => {
            assert_eq!(channel, "j-close");
            assert_eq!(code, -1);
        }
        _ => panic!("expected a close emission"),
    }
}

#[test]
fn channels_of_distinct_jobs_never_collide() {
    let kinds = [EventKind::Stdout, EventKind::Stderr, EventKind::Title, EventKind::Close];
    let mut names = Vec::new();
    for label in ["main", "second"] {
        for k in kinds {
            names.push(channel_for(label, k));
        }
    }
    for i in 0..names.len() {
        for j in 0..names.len() {
            if i != j {
                assert_ne!(names[i], names[j]);
            }
        }
    }
    assert_eq!(channel_for("main", EventKind::Stdout), "main-stdout");
    assert_eq!(channel_for("main", EventKind::Close), "main-close");
}

#[test]
fn window_title_is_prefixed() {
    assert_eq!(window_title_for("My Video"), "Downloading: My Video");
}

#[test]
fn sidecar_path_is_relative_to_resources() {
    assert_eq!(sidecar_relative_path("yt-dlp"), "binaries/yt-dlp");
}

#[test]
fn decimal_rendering_is_exact() {
    assert_eq!(decimal_string(0), "0");
    assert_eq!(decimal_string(7), "7");
    assert_eq!(decimal_string(10), "10");
    assert_eq!(decimal_string(90210), "90210");
    assert_eq!(decimal_string(u32::MAX), "4294967295");
}

#[test]
fn cookie_file_name_carries_the_pid() {
    assert_eq!(cookie_file_name(1234), "yt-dlp-cookies-1234.txt");
}
