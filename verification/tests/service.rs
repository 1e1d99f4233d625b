use winfsp_fs_skeleton::service::{
    active_console_session, control, fs_name, key_opened, launchctl_exe_name, launcher_class,
    service_name, size_queried, start_args, stop_args, value_read, Answer, Control, ExitCode,
    RegistryError, Report, Stage, Status,
};

#[test]
fn names_have_defaults() {
    assert_eq!(fs_name(None), "fs");
    assert_eq!(service_name(None), "WinFspFsWatcher");
    assert_eq!(launcher_class(None), "fs-mount");
    assert_eq!(fs_name(Some("ext4")), "ext4");
    assert_eq!(service_name(Some("ExtFsWatcher")), "ExtFsWatcher");
    assert_eq!(launcher_class(Some("ext4-mount")), "ext4-mount");
}

#[test]
fn control_codes_are_answered() {
    assert_eq!(control(Control::Stop), Answer::ShutDown);
    assert_eq!(control(Control::Shutdown), Answer::ShutDown);
    assert_eq!(control(Control::Interrogate), Answer::NoError);
    assert_eq!(control(Control::Other), Answer::NotImplemented);
}

/// The reports of a service in which only `failing` fails.
fn life(failing: Option<Stage>) -> Vec<Report> {
    let mut reports = Vec::new();
    let mut stage = Stage::Register;
    while stage != Stage::Ended {
        reports.extend(stage.report());
        stage = stage.advance(failing != Some(stage));
    }
    reports
}

const STARTING: Report = Report {
    status: Status::StartPending,
    stoppable: false,
    exit: ExitCode::Win32(0),
    checkpoint: 0,
    wait_seconds: 10,
};

const RUNNING: Report = Report {
    status: Status::Running,
    stoppable: true,
    exit: ExitCode::Win32(0),
    checkpoint: 0,
    wait_seconds: 0,
};

const STOPPED: Report = Report {
    status: Status::Stopped,
    stoppable: false,
    exit: ExitCode::Win32(0),
    checkpoint: 0,
    wait_seconds: 0,
};

const FAILED: Report = Report {
    status: Status::Stopped,
    stoppable: false,
    exit: ExitCode::ServiceSpecific(1),
    checkpoint: 0,
    wait_seconds: 0,
};

#[test]
fn a_service_starts_runs_and_stops() {
    assert_eq!(life(None), [STARTING, RUNNING, STOPPED]);
}

#[test]
fn a_service_that_fails_says_so() {
    assert_eq!(life(Some(Stage::Register)), []);
    assert_eq!(life(Some(Stage::ReportStarting)), [STARTING, FAILED]);
    assert_eq!(life(Some(Stage::OpenPump)), [STARTING, FAILED]);
    assert_eq!(life(Some(Stage::ReportRunning)), [STARTING, RUNNING, FAILED]);
    assert_eq!(life(Some(Stage::ReportStopped)), [STARTING, RUNNING, STOPPED, FAILED]);
    assert_eq!(life(Some(Stage::Pump)), [STARTING, RUNNING, STOPPED]);
    assert_eq!(life(Some(Stage::StopMounts)), [STARTING, RUNNING, STOPPED]);
}

#[test]
fn there_may_be_no_console_session() {
    assert_eq!(active_console_session(0xFFFF_FFFF), None);
    assert_eq!(active_console_session(0), Some(0));
    assert_eq!(active_console_session(3), Some(3));
}

#[test]
fn a_mount_is_started_and_stopped_under_its_letter() {
    assert_eq!(
        start_args("ext4-mount", 'F', r"\\?\disk", 3),
        ["start", "ext4-mount", "F", "F:", r"\\?\disk", "3"]
    );
    assert_eq!(start_args("c", 'E', "d", 0), ["start", "c", "E", "E:", "d", "0"]);
    assert_eq!(stop_args("ext4-mount", 'F'), ["stop", "ext4-mount", "F"]);
}

#[test]
fn the_launcher_is_named_after_the_architecture() {
    assert_eq!(launchctl_exe_name("x86_64"), "launchctl-x64.exe");
    assert_eq!(launchctl_exe_name("aarch64"), "launchctl-a64.exe");
    assert_eq!(launchctl_exe_name("x86"), "launchctl-x86.exe");
    assert_eq!(launchctl_exe_name("riscv64"), "launchctl-x64.exe");
}

#[test]
fn registry_errors_say_what_failed() {
    assert_eq!(key_opened(0), Ok(()));
    assert_eq!(key_opened(2), Err(RegistryError::OpenKey(2)));
    assert_eq!(size_queried(0, 1, 7), Ok(4));
    assert_eq!(size_queried(0, 1, 0), Ok(1));
    assert_eq!(size_queried(5, 1, 7), Err(RegistryError::QuerySize(5)));
    assert_eq!(size_queried(0, 4, 7), Err(RegistryError::NotAString(4)));
    assert_eq!(size_queried(5, 4, 7), Err(RegistryError::QuerySize(5)));
    assert_eq!(value_read(234, vec![0x41]), Err(RegistryError::QueryValue(234)));
    assert_eq!(
        RegistryError::OpenKey(2).to_string(),
        "RegOpenKeyExW(HKLM\\SOFTWARE\\WinFsp) failed: code 2"
    );
    assert_eq!(
        RegistryError::QuerySize(5).to_string(),
        "RegQueryValueExW(InstallDir) size query failed: code 5"
    );
    assert_eq!(
        RegistryError::NotAString(4).to_string(),
        "InstallDir is type 4, expected REG_SZ"
    );
    assert_eq!(
        RegistryError::QueryValue(234).to_string(),
        "RegQueryValueExW(InstallDir) failed: code 234"
    );
}

#[test]
fn the_install_directory_ends_before_its_nuls() {
    let dir = "C:\\Program Files (x86)\\WinFsp\\";
    for nuls in 0..3 {
        let mut buf: Vec<u16> = dir.encode_utf16().collect();
        buf.extend(std::iter::repeat(0).take(nuls));
        assert_eq!(value_read(0, buf).as_deref(), Ok(dir));
    }
    assert_eq!(value_read(0, vec![0, 0]).as_deref(), Ok(""));
    assert_eq!(value_read(0, vec![0x41, 0, 0x42, 0]).as_deref(), Ok("A\0B"));
    assert_eq!(value_read(0, vec![0xD800, 0]).as_deref(), Ok("\u{FFFD}"));
}
