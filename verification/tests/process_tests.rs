use beammp_manager::errors::CoreError;
use beammp_manager::process::executable_name;
use beammp_manager::process::executable_path;
use beammp_manager::process::ServerProcess;
use beammp_manager::process::GRACE_MILLIS;
use beammp_manager::process::MAX_LOG_LINES;

#[test]
fn start_requires_the_executable() {
    let r = ServerProcess::start(false);
    assert!(matches!(r, Err(CoreError::ExecutableNotFound)));
    let p = ServerProcess::start(true).unwrap();
    assert!(p.is_running());
}

#[test]
fn executable_names_per_platform() {
    assert_eq!(executable_name(true), "BeamMP-Server.exe");
    assert_eq!(executable_name(false), "BeamMP-Server");
    assert_eq!(executable_path("srv", false), "srv/BeamMP-Server");
    assert_eq!(executable_path("srv", true), "srv/BeamMP-Server.exe");
}

#[test]
fn send_command_appends_line_terminator() {
    let p = ServerProcess::start(true).unwrap();
    assert_eq!(p.send_command("kick player").unwrap(), "kick player\n");
}

#[test]
fn send_command_after_exit_is_an_io_failure() {
    let mut p = ServerProcess::start(true).unwrap();
    p.observe_exit();
    let r = p.send_command("status");
    assert!(matches!(r, Err(CoreError::IOFailure)));
}

#[test]
fn read_output_drains_and_second_read_is_empty() {
    let mut p = ServerProcess::start(true).unwrap();
    p.record_line("hello".to_string(), false);
    p.record_line("oops".to_string(), true);
    let lines = p.read_output();
    assert_eq!(lines, vec!["hello".to_string(), "[ERROR] oops".to_string()]);
    let again = p.read_output();
    assert!(again.is_empty());
}

#[test]
fn log_is_bounded_to_the_most_recent_lines() {
    let mut p = ServerProcess::start(true).unwrap();
    for i in 0..(MAX_LOG_LINES + 1) {
        p.record_line(format!("line {}", i), false);
    }
    let lines = p.read_output();
    assert_eq!(lines.len(), MAX_LOG_LINES);
    assert_eq!(lines[0], "line 1");
    assert_eq!(lines[MAX_LOG_LINES - 1], format!("line {}", MAX_LOG_LINES));
}

#[test]
fn stop_always_ends_the_session() {
    // Whether or not the child honours the graceful exit command, carrying
    // out the plan terminates it, so the model is no longer running.
    let mut p = ServerProcess::start(true).unwrap();
    let plan = p.stop();
    assert_eq!(plan.exit_command, "exit");
    assert_eq!(plan.grace_millis, GRACE_MILLIS);
    assert_eq!(plan.grace_millis, 500);
    assert!(!p.is_running());
    // A second stop is safe and leaves the process stopped.
    let plan2 = p.stop();
    assert_eq!(plan2.exit_command, "exit");
    assert!(!p.is_running());
}

#[test]
fn exit_is_observed_not_erred() {
    let mut p = ServerProcess::start(true).unwrap();
    p.record_line("bye".to_string(), false);
    p.observe_exit();
    assert!(!p.is_running());
    // Buffered lines survive the exit observation.
    assert_eq!(p.read_output(), vec!["bye".to_string()]);
}
