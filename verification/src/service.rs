//! The service variant of the watcher: control codes, the service's life and
//! its status reports, and the WinFsp launcher.
//!
//! Mounts are launched through WinFsp.Launcher's `launchctl-<arch>.exe`, so that
//! they run in the active console session. When a recognised partition arrives,
//! it is run with
//!
//! ```text
//! start <CLASS> <letter> <letter:> <disk_path> <part_n>
//! ```
//!
//! and on removal with
//!
//! ```text
//! stop <CLASS> <letter>
//! ```

use vstd::prelude::*;
use vstd::string::*;

use crate::text;
use crate::utf16;
use crate::watch;

verus! {

/// The filesystem name in log lines, until a backend has set its own.
pub fn fs_name(set: Option<&'static str>) -> (name: &'static str)
    ensures
        name@ == match set {
            Some(s) => s@,
            None => "fs"@,
        },
{
    match set {
        Some(s) => s,
        None => "fs",
    }
}

/// The service name, until a backend has set its own.
pub fn service_name(set: Option<&'static str>) -> (name: &'static str)
    ensures
        name@ == match set {
            Some(s) => s@,
            None => "WinFspFsWatcher"@,
        },
{
    match set {
        Some(s) => s,
        None => "WinFspFsWatcher",
    }
}

/// The launcher's service class, until a backend has set its own.
pub fn launcher_class(set: Option<&'static str>) -> (name: &'static str)
    ensures
        name@ == match set {
            Some(s) => s@,
            None => "fs-mount"@,
        },
{
    match set {
        Some(s) => s,
        None => "fs-mount",
    }
}

/// A control code from the service manager.
#[derive(Debug, Clone, Copy, PartialEq, Eq, Structural)]
pub enum Control {
    Stop,
    Shutdown,
    Interrogate,
    Other,
}

/// How a control code is answered.
#[derive(Debug, Clone, Copy, PartialEq, Eq, Structural)]
pub enum Answer {
    /// Begin to shut down and end the message pump; no error.
    ShutDown,
    /// Nothing to do; no error.
    NoError,
    /// The code is not supported.
    NotImplemented,
}

/// Decide on a control code.
pub fn control(code: Control) -> (a: Answer)
    ensures
        a == match code {
            Control::Stop => Answer::ShutDown,
            Control::Shutdown => Answer::ShutDown,
            Control::Interrogate => Answer::NoError,
            Control::Other => Answer::NotImplemented,
        },
{
    match code {
        Control::Stop => Answer::ShutDown,
        Control::Shutdown => Answer::ShutDown,
        Control::Interrogate => Answer::NoError,
        Control::Other => Answer::NotImplemented,
    }
}

/// The state that a status report gives.
#[derive(Debug, Clone, Copy, PartialEq, Eq, Structural)]
pub enum Status {
    StartPending,
    Running,
    Stopped,
}

/// The exit code that a status report gives.
#[derive(Debug, Clone, Copy, PartialEq, Eq, Structural)]
pub enum ExitCode {
    Win32(u32),
    ServiceSpecific(u32),
}

/// A status report of the service, which runs in a process of its own.
#[derive(Debug, Clone, Copy, PartialEq, Eq, Structural)]
pub struct Report {
    pub status: Status,
    /// Whether stop and shutdown codes are accepted.
    pub stoppable: bool,
    pub exit: ExitCode,
    pub checkpoint: u32,
    /// How many seconds the service manager should wait for the next report.
    pub wait_seconds: u64,
}

/// Where the service is in its life.
#[derive(Debug, Clone, Copy, PartialEq, Eq, Structural)]
pub enum Stage {
    /// Register the control handler.
    Register,
    /// Report that the service is starting.
    ReportStarting,
    /// Create the window and subscribe to disk changes.
    OpenPump,
    /// Report that the service is running.
    ReportRunning,
    /// Pump messages until asked to quit. Does not fail.
    Pump,
    /// Stop the mounts that are left. Does not fail.
    StopMounts,
    /// Report that the service has stopped.
    ReportStopped,
    /// Report that the service has stopped on an error. Failing to is ignored.
    ReportFailed,
    /// Nothing is left to do.
    Ended,
}

impl Stage {
    /// What follows, once the stage's work was done or has failed. An error
    /// before there is a handler to report through ends the service silently.
    pub open spec fn next(self, ok: bool) -> Stage {
        match self {
            Stage::Register => if ok {
                Stage::ReportStarting
            } else {
                Stage::Ended
            },
            Stage::ReportStarting => if ok {
                Stage::OpenPump
            } else {
                Stage::ReportFailed
            },
            Stage::OpenPump => if ok {
                Stage::ReportRunning
            } else {
                Stage::ReportFailed
            },
            Stage::ReportRunning => if ok {
                Stage::Pump
            } else {
                Stage::ReportFailed
            },
            Stage::Pump => Stage::StopMounts,
            Stage::StopMounts => Stage::ReportStopped,
            Stage::ReportStopped => if ok {
                Stage::Ended
            } else {
                Stage::ReportFailed
            },
            Stage::ReportFailed => Stage::Ended,
            Stage::Ended => Stage::Ended,
        }
    }

    /// What the stage reports, if it reports anything.
    pub open spec fn says(self) -> Option<Report> {
        let quiet = Report {
            status: Status::Stopped,
            stoppable: false,
            exit: ExitCode::Win32(0),
            checkpoint: 0,
            wait_seconds: 0,
        };
        match self {
            Stage::ReportStarting => Some(
                Report { status: Status::StartPending, wait_seconds: 10, ..quiet },
            ),
            Stage::ReportRunning => Some(
                Report { status: Status::Running, stoppable: true, ..quiet },
            ),
            Stage::ReportStopped => Some(quiet),
            Stage::ReportFailed => Some(
                Report { exit: ExitCode::ServiceSpecific(1), ..quiet },
            ),
            _ => None,
        }
    }

    /// How many stages can still come, at most.
    pub open spec fn remaining(self) -> nat {
        match self {
            Stage::Register => 8,
            Stage::ReportStarting => 7,
            Stage::OpenPump => 6,
            Stage::ReportRunning => 5,
            Stage::Pump => 4,
            Stage::StopMounts => 3,
            Stage::ReportStopped => 2,
            Stage::ReportFailed => 1,
            Stage::Ended => 0,
        }
    }

    /// What follows, once the stage's work was done or has failed.
    pub fn advance(self, ok: bool) -> (s: Stage)
        ensures
            s == self.next(ok),
    {
        match self {
            Stage::Register => if ok {
                Stage::ReportStarting
            } else {
                Stage::Ended
            },
            Stage::ReportStarting => if ok {
                Stage::OpenPump
            } else {
                Stage::ReportFailed
            },
            Stage::OpenPump => if ok {
                Stage::ReportRunning
            } else {
                Stage::ReportFailed
            },
            Stage::ReportRunning => if ok {
                Stage::Pump
            } else {
                Stage::ReportFailed
            },
            Stage::Pump => Stage::StopMounts,
            Stage::StopMounts => Stage::ReportStopped,
            Stage::ReportStopped => if ok {
                Stage::Ended
            } else {
                Stage::ReportFailed
            },
            Stage::ReportFailed => Stage::Ended,
            Stage::Ended => Stage::Ended,
        }
    }

    /// What the stage reports, if it reports anything.
    pub fn report(self) -> (r: Option<Report>)
        ensures
            r == self.says(),
    {
        let quiet: Report = Report {
            status: Status::Stopped,
            stoppable: false,
            exit: ExitCode::Win32(0),
            checkpoint: 0,
            wait_seconds: 0,
        };
        match self {
            Stage::ReportStarting => Some(
                Report { status: Status::StartPending, wait_seconds: 10, ..quiet },
            ),
            Stage::ReportRunning => Some(
                Report { status: Status::Running, stoppable: true, ..quiet },
            ),
            Stage::ReportStopped => Some(quiet),
            Stage::ReportFailed => Some(Report { exit: ExitCode::ServiceSpecific(1), ..quiet }),
            _ => None,
        }
    }
}

/// The reports of a service from `stage` on: `ok` says which stages succeed.
pub open spec fn reports(stage: Stage, ok: spec_fn(Stage) -> bool) -> Seq<Report>
    decreases stage.remaining(),
{
    if stage == Stage::Ended {
        Seq::empty()
    } else {
        let rest = reports(stage.next(ok(stage)), ok);
        match stage.says() {
            Some(r) => seq![r] + rest,
            None => rest,
        }
    }
}

/// A service ends after finitely many stages.
pub proof fn service_ends(stage: Stage, ok: bool)
    ensures
        stage.remaining() == 0 <==> stage == Stage::Ended,
        stage != Stage::Ended ==> stage.next(ok).remaining() < stage.remaining(),
{
}

/// Once it has a control handler, a service's last report is that it has
/// stopped: with exit code 0 if every stage that can fail succeeded, and with
/// the service-specific code 1 otherwise.
pub proof fn service_ends_stopped(ok: spec_fn(Stage) -> bool)
    requires
        ok(Stage::Register),
    ensures
        ({
            let all = reports(Stage::Register, ok);
            let well = ok(Stage::ReportStarting) && ok(Stage::OpenPump) && ok(Stage::ReportRunning)
                && ok(Stage::ReportStopped);
            &&& all.len() > 0
            &&& all.last().status == Status::Stopped
            &&& !all.last().stoppable
            &&& all.last().exit == if well {
                ExitCode::Win32(0)
            } else {
                ExitCode::ServiceSpecific(1)
            }
        }),
{
    reveal_with_fuel(reports, 10);
}

/// The service only says that it runs, and takes stop codes, once it has a
/// control handler and its message pump is open.
pub proof fn running_means_listening(ok: spec_fn(Stage) -> bool, i: int)
    requires
        0 <= i < reports(Stage::Register, ok).len(),
        reports(Stage::Register, ok)[i].status == Status::Running || reports(
            Stage::Register,
            ok,
        )[i].stoppable,
    ensures
        ok(Stage::Register),
        ok(Stage::OpenPump),
{
    reveal_with_fuel(reports, 10);
}

/// The active console session, if there is one: Windows gives `0xFFFF_FFFF` for
/// none.
pub fn active_console_session(id: u32) -> (session: Option<u32>)
    ensures
        session == if id == 0xFFFF_FFFF {
            None
        } else {
            Some(id)
        },
{
    if id == 0xFFFF_FFFF {
        None
    } else {
        Some(id)
    }
}

/// The launcher arguments that start a mount. The drive letter comes twice: as
/// the name of the instance, so that concurrent mounts are distinct services,
/// and as the first template argument. Partition 0 is the whole disk.
pub open spec fn start_command(
    class: Seq<char>,
    letter: char,
    disk: Seq<char>,
    part: nat,
) -> Seq<Seq<char>> {
    seq!["start"@, class, seq![letter], seq![letter, ':'], disk, text::decimal(part)]
}

/// The launcher arguments that stop a mount.
pub open spec fn stop_command(class: Seq<char>, letter: char) -> Seq<Seq<char>> {
    seq!["stop"@, class, seq![letter]]
}

fn instance(letter: char) -> (s: String)
    ensures
        s@ == seq![letter],
{
    let mut s = String::new();
    s.push(letter);
    assert(s@ =~= seq![letter]);
    s
}

/// The launcher arguments that start a mount.
pub fn start_args(class: &str, letter: char, disk: &str, part: usize) -> (args: Vec<String>)
    ensures
        watch::texts(args@) == start_command(class@, letter, disk@, part as nat),
{
    let mut args: Vec<String> = Vec::new();
    args.push("start".to_owned());
    args.push(class.to_owned());
    args.push(instance(letter));
    args.push(watch::drive_arg(letter));
    args.push(disk.to_owned());
    args.push(text::decimal_string(part as u64));
    assert(watch::texts(args@) =~= start_command(class@, letter, disk@, part as nat));
    args
}

/// The launcher arguments that stop a mount.
pub fn stop_args(class: &str, letter: char) -> (args: Vec<String>)
    ensures
        watch::texts(args@) == stop_command(class@, letter),
{
    let mut args: Vec<String> = Vec::new();
    args.push("stop".to_owned());
    args.push(class.to_owned());
    args.push(instance(letter));
    assert(watch::texts(args@) =~= stop_command(class@, letter));
    args
}

/// A stop reaches the mount that was started: it names the same class and
/// instance, and only a stop for the same class and letter does.
pub proof fn stop_names_what_start_named(
    class: Seq<char>,
    letter: char,
    disk: Seq<char>,
    part: nat,
    class2: Seq<char>,
    letter2: char,
)
    ensures
        (stop_command(class2, letter2)[1] == start_command(class, letter, disk, part)[1]
            && stop_command(class2, letter2)[2] == start_command(class, letter, disk, part)[2])
            <==> (class2 == class && letter2 == letter),
{
    if seq![letter2] == seq![letter] {
        assert(seq![letter2][0] == seq![letter][0]);
    }
}

/// The arguments say exactly what is mounted where: no two mounts are started
/// with the same ones.
pub proof fn start_command_identifies_the_mount(
    class: Seq<char>,
    letter: char,
    disk: Seq<char>,
    part: nat,
    class2: Seq<char>,
    letter2: char,
    disk2: Seq<char>,
    part2: nat,
)
    requires
        start_command(class, letter, disk, part) == start_command(class2, letter2, disk2, part2),
    ensures
        class == class2,
        letter == letter2,
        disk == disk2,
        part == part2,
{
    let a = start_command(class, letter, disk, part);
    let b = start_command(class2, letter2, disk2, part2);
    assert(a[1] == b[1]);
    assert(a[2] == b[2]);
    assert(a[2][0] == b[2][0]);
    assert(a[4] == b[4]);
    assert(a[5] == b[5]);
    text::decimal_is_injective(part, part2);
}

/// The name of WinFsp's launcher for a processor architecture.
pub fn launchctl_exe_name(arch: &str) -> (name: &'static str)
    ensures
        name@ == if arch@ == "aarch64"@ {
            "launchctl-a64.exe"@
        } else if arch@ == "x86"@ {
            "launchctl-x86.exe"@
        } else {
            "launchctl-x64.exe"@
        },
{
    let arch: String = arch.to_owned();
    if arch == "aarch64".to_owned() {
        "launchctl-a64.exe"
    } else if arch == "x86".to_owned() {
        "launchctl-x86.exe"
    } else {
        "launchctl-x64.exe"
    }
}

/// `REG_SZ`, the registry's type of a string.
pub const REG_SZ: u32 = 1;

/// Why WinFsp's install directory could not be read from the registry.
#[derive(Debug, Clone, Copy, PartialEq, Eq, Structural)]
pub enum RegistryError {
    /// The key could not be opened; the system's error code.
    OpenKey(u32),
    /// The value's size could not be queried; the system's error code.
    QuerySize(u32),
    /// The value is of this type, which is not a string.
    NotAString(u32),
    /// The value could not be read; the system's error code.
    QueryValue(u32),
}

impl RegistryError {
    /// The message.
    pub open spec fn text(self) -> Seq<char> {
        match self {
            RegistryError::OpenKey(code) => "RegOpenKeyExW(HKLM\\SOFTWARE\\WinFsp) failed: code "@
                + text::decimal(code as nat),
            RegistryError::QuerySize(code) =>
                "RegQueryValueExW(InstallDir) size query failed: code "@ + text::decimal(
                code as nat,
            ),
            RegistryError::NotAString(ty) => "InstallDir is type "@ + text::decimal(ty as nat)
                + ", expected REG_SZ"@,
            RegistryError::QueryValue(code) => "RegQueryValueExW(InstallDir) failed: code "@
                + text::decimal(code as nat),
        }
    }

    /// The message.
    pub fn to_string(&self) -> (s: String)
        ensures
            s@ == self.text(),
    {
        match *self {
            RegistryError::OpenKey(code) => {
                let mut s = "RegOpenKeyExW(HKLM\\SOFTWARE\\WinFsp) failed: code ".to_owned();
                text::push_decimal(&mut s, code as u64);
                s
            },
            RegistryError::QuerySize(code) => {
                let mut s = "RegQueryValueExW(InstallDir) size query failed: code ".to_owned();
                text::push_decimal(&mut s, code as u64);
                s
            },
            RegistryError::NotAString(ty) => {
                let mut s = "InstallDir is type ".to_owned();
                text::push_decimal(&mut s, ty as u64);
                s.append(", expected REG_SZ");
                s
            },
            RegistryError::QueryValue(code) => {
                let mut s = "RegQueryValueExW(InstallDir) failed: code ".to_owned();
                text::push_decimal(&mut s, code as u64);
                s
            },
        }
    }
}

/// After opening the key: whether there is a key to query.
pub fn key_opened(code: u32) -> (r: Result<(), RegistryError>)
    ensures
        r == if code == 0 {
            Ok(())
        } else {
            Err::<(), _>(RegistryError::OpenKey(code))
        },
{
    if code != 0 {
        return Err(RegistryError::OpenKey(code));
    }
    Ok(())
}

/// After querying the type and the size, in bytes, of the value: the length, in
/// units, of the buffer to read it into. One unit more than the value takes.
pub fn size_queried(code: u32, ty: u32, size: u32) -> (r: Result<usize, RegistryError>)
    ensures
        code != 0 ==> r == Err::<usize, _>(RegistryError::QuerySize(code)),
        code == 0 && ty != REG_SZ ==> r == Err::<usize, _>(RegistryError::NotAString(ty)),
        code == 0 && ty == REG_SZ ==> r == Ok::<_, RegistryError>((size / 2 + 1) as usize),
{
    if code != 0 {
        return Err(RegistryError::QuerySize(code));
    }
    if ty != REG_SZ {
        return Err(RegistryError::NotAString(ty));
    }
    Ok(size as usize / 2 + 1)
}

/// The units without the NULs at their end.
pub open spec fn without_trailing_nuls(units: Seq<u16>) -> Seq<u16>
    decreases units.len(),
{
    if units.len() > 0 && units.last() == 0 {
        without_trailing_nuls(units.drop_last())
    } else {
        units
    }
}

/// After reading the value: the install directory. The NULs at the end of the
/// buffer are dropped; what is not well-formed UTF-16 is replaced.
pub fn value_read(code: u32, buf: Vec<u16>) -> (r: Result<String, RegistryError>)
    ensures
        code != 0 ==> r == Err::<String, _>(RegistryError::QueryValue(code)),
        code == 0 ==> r is Ok && r->Ok_0@ == utf16::lossy_text(without_trailing_nuls(buf@)),
{
    if code != 0 {
        return Err(RegistryError::QueryValue(code));
    }
    let mut len: usize = buf.len();
    assert(buf@.take(len as int) =~= buf@);
    while len > 0 && buf[len - 1] == 0
        invariant
            len <= buf.len(),
            without_trailing_nuls(buf@.take(len as int)) == without_trailing_nuls(buf@),
        decreases len,
    {
        assert(buf@.take(len as int).drop_last() =~= buf@.take(len - 1));
        len = len - 1;
    }
    assert(without_trailing_nuls(buf@.take(len as int)) == buf@.take(len as int));
    let units: &[u16] = &buf.as_slice()[0..len];
    assert(units@ =~= buf@.take(len as int));
    Ok(utf16::decode_lossy(units))
}

proof fn lemma_nuls_dropped(text: Seq<u16>, nuls: nat)
    requires
        text.len() == 0 || text.last() != 0,
    ensures
        without_trailing_nuls(text + Seq::new(nuls, |i: int| 0u16)) == text,
    decreases nuls,
{
    let zeros = Seq::new(nuls, |i: int| 0u16);
    if nuls == 0 {
        assert(text + zeros =~= text);
    } else {
        let fewer = Seq::new((nuls - 1) as nat, |i: int| 0u16);
        assert((text + zeros).drop_last() =~= text + fewer);
        lemma_nuls_dropped(text, (nuls - 1) as nat);
    }
}

/// A directory that was stored with any number of NULs behind it is read back,
/// if it does not itself end in a NUL.
pub proof fn stored_directory_is_read_back(dir: Seq<char>, nuls: nat)
    requires
        dir.len() > 0 ==> dir.last() != '\0',
    ensures
        utf16::lossy_text(
            without_trailing_nuls(utf16::encode(dir) + Seq::new(nuls, |i: int| 0u16)),
        ) == dir,
{
    if dir.len() > 0 {
        utf16::last_unit_is_not_nul(dir);
    }
    lemma_nuls_dropped(utf16::encode(dir), nuls);
    utf16::decode_undoes_encode(dir);
}

/// A backend's own names are used where they are set, and the defaults where
/// they are not.
pub proof fn set_names_are_used(
    set: Option<&'static str>,
    fs: &'static str,
    service: &'static str,
    class: &'static str,
)
    requires
        call_ensures(fs_name, (set,), fs),
        call_ensures(service_name, (set,), service),
        call_ensures(launcher_class, (set,), class),
    ensures
        set matches Some(s) ==> fs@ == s@ && service@ == s@ && class@ == s@,
        set is None ==> fs@ == "fs"@ && service@ == "WinFspFsWatcher"@ && class@ == "fs-mount"@,
{
}

/// Stop and shutdown end the service, an interrogation changes nothing, and no
/// other code is supported.
pub proof fn only_stop_codes_end_the_service(code: Control, a: Answer)
    requires
        call_ensures(control, (code,), a),
    ensures
        a == Answer::ShutDown <==> code == Control::Stop || code == Control::Shutdown,
        a == Answer::NoError <==> code == Control::Interrogate,
        a == Answer::NotImplemented <==> code == Control::Other,
{
}

/// What each report says. The service takes stop codes exactly while it runs;
/// only the report that it starts asks for time, ten seconds; only the report of
/// a failure has an exit code of the service's own, 1; there are no checkpoints.
pub proof fn reports_say_where_the_service_is(stage: Stage, r: Option<Report>)
    requires
        call_ensures(Stage::report, (stage,), r),
    ensures
        r is Some <==> stage == Stage::ReportStarting || stage == Stage::ReportRunning || stage
            == Stage::ReportStopped || stage == Stage::ReportFailed,
        r matches Some(r) ==> {
            &&& r.status == Status::StartPending <==> stage == Stage::ReportStarting
            &&& r.status == Status::Running <==> stage == Stage::ReportRunning
            &&& r.stoppable <==> r.status == Status::Running
            &&& r.wait_seconds == if r.status == Status::StartPending {
                10int
            } else {
                0
            }
            &&& stage == Stage::ReportFailed ==> r.exit == ExitCode::ServiceSpecific(1)
            &&& stage != Stage::ReportFailed ==> r.exit == ExitCode::Win32(0)
            &&& r.checkpoint == 0
        },
{
}

/// The stages that a service goes through: `ok` says which of them succeed.
pub open spec fn stages(stage: Stage, ok: spec_fn(Stage) -> bool) -> Seq<Stage>
    decreases stage.remaining(),
{
    if stage == Stage::Ended {
        Seq::empty()
    } else {
        seq![stage] + stages(stage.next(ok(stage)), ok)
    }
}

/// The whole life of a service. It registers, reports that it starts, opens its
/// pump, reports that it runs, pumps, stops its mounts and reports that it has
/// stopped. The first of these to fail, except for pumping and stopping the
/// mounts, which do not, ends it: after registering, with the report of the
/// failure.
pub proof fn service_goes_through_its_stages(ok: spec_fn(Stage) -> bool)
    ensures
        ({
            let all = stages(Stage::Register, ok);
            let started = seq![Stage::Register, Stage::ReportStarting];
            let opened = started.push(Stage::OpenPump);
            let running = opened.push(Stage::ReportRunning);
            let stopped = running.push(Stage::Pump).push(Stage::StopMounts).push(
                Stage::ReportStopped,
            );
            if !ok(Stage::Register) {
                all == seq![Stage::Register]
            } else if !ok(Stage::ReportStarting) {
                all == started.push(Stage::ReportFailed)
            } else if !ok(Stage::OpenPump) {
                all == opened.push(Stage::ReportFailed)
            } else if !ok(Stage::ReportRunning) {
                all == running.push(Stage::ReportFailed)
            } else if !ok(Stage::ReportStopped) {
                all == stopped.push(Stage::ReportFailed)
            } else {
                all == stopped
            }
        }),
{
    reveal_with_fuel(stages, 10);
    let all = stages(Stage::Register, ok);
    let started = seq![Stage::Register, Stage::ReportStarting];
    let opened = started.push(Stage::OpenPump);
    let running = opened.push(Stage::ReportRunning);
    let stopped = running.push(Stage::Pump).push(Stage::StopMounts).push(Stage::ReportStopped);
    if !ok(Stage::Register) {
        assert(all =~= seq![Stage::Register]);
    } else if !ok(Stage::ReportStarting) {
        assert(all =~= started.push(Stage::ReportFailed));
    } else if !ok(Stage::OpenPump) {
        assert(all =~= opened.push(Stage::ReportFailed));
    } else if !ok(Stage::ReportRunning) {
        assert(all =~= running.push(Stage::ReportFailed));
    } else if !ok(Stage::ReportStopped) {
        assert(all =~= stopped.push(Stage::ReportFailed));
    } else {
        assert(all =~= stopped);
    }
}

/// Running the stages goes by the same steps: advancing gives the stage that
/// comes next.
pub proof fn advancing_goes_to_the_next_stage(
    stage: Stage,
    ok: spec_fn(Stage) -> bool,
    next: Stage,
)
    requires
        stage != Stage::Ended,
        call_ensures(Stage::advance, (stage, ok(stage)), next),
    ensures
        stages(stage, ok)[0] == stage,
        stages(stage, ok).skip(1) == stages(next, ok),
{
    assert(stages(stage, ok).skip(1) =~= stages(next, ok));
}

/// There is a session exactly if its number is not the largest.
pub proof fn only_the_largest_number_is_no_session(id: u32, session: Option<u32>)
    requires
        call_ensures(active_console_session, (id,), session),
    ensures
        id < u32::MAX ==> session == Some(id),
        id == u32::MAX ==> session is None,
{
}

/// The launcher's start and stop arguments, word by word. Both name the class and
/// the letter; a start goes on with the drive, the disk as it is, and the
/// partition number in decimal, 0 included.
pub proof fn launcher_words_are_exact(
    class: &str,
    letter: char,
    disk: &str,
    part: usize,
    start: Vec<String>,
    stop: Vec<String>,
)
    requires
        call_ensures(start_args, (class, letter, disk, part), start),
        call_ensures(stop_args, (class, letter), stop),
    ensures
        start@.len() == 6,
        start@[0]@ == "start"@,
        start@[1]@ == class@,
        start@[2]@ == seq![letter],
        start@[3]@ == seq![letter, ':'],
        start@[4]@ == disk@,
        text::decimal_value(start@[5]@) == part,
        start@[5]@.len() > 0,
        start@[5]@[0] == '0' ==> part == 0 && start@[5]@.len() == 1,
        stop@.len() == 3,
        stop@[0]@ == "stop"@,
        stop@[1]@ == class@,
        stop@[2]@ == seq![letter],
{
    assert(watch::texts(start@).len() == start@.len());
    assert(watch::texts(stop@).len() == stop@.len());
    watch::texts_are_the_arguments(start@, 0);
    watch::texts_are_the_arguments(start@, 1);
    watch::texts_are_the_arguments(start@, 2);
    watch::texts_are_the_arguments(start@, 3);
    watch::texts_are_the_arguments(start@, 4);
    watch::texts_are_the_arguments(start@, 5);
    watch::texts_are_the_arguments(stop@, 0);
    watch::texts_are_the_arguments(stop@, 1);
    watch::texts_are_the_arguments(stop@, 2);
    text::decimal_stands_for_the_number(part as nat);
}

/// The launcher is that of the architecture; where there is none, that of
/// 64-bit x86.
pub proof fn launcher_fits_the_architecture(arch: &str, name: &'static str)
    requires
        call_ensures(launchctl_exe_name, (arch,), name),
    ensures
        arch@ == "x86_64"@ ==> name@ == "launchctl-x64.exe"@,
        arch@ == "aarch64"@ ==> name@ == "launchctl-a64.exe"@,
        arch@ == "x86"@ ==> name@ == "launchctl-x86.exe"@,
        arch@ != "aarch64"@ && arch@ != "x86"@ ==> name@ == "launchctl-x64.exe"@,
{
    reveal_strlit("x86_64");
    reveal_strlit("aarch64");
    reveal_strlit("x86");
    assert("x86_64"@.len() == 6 && "aarch64"@.len() == 7 && "x86"@.len() == 3);
}

/// Each registry call's code decides on its own: only code 0 goes on, and every
/// other code is the one that is reported. The value has to be of type 1, a
/// string; its buffer holds two bytes to the unit and one unit more.
pub proof fn registry_codes_are_reported(
    code: u32,
    ty: u32,
    size: u32,
    opened: Result<(), RegistryError>,
    sized: Result<usize, RegistryError>,
)
    requires
        call_ensures(key_opened, (code,), opened),
        call_ensures(size_queried, (code, ty, size), sized),
    ensures
        opened is Ok <==> code == 0,
        opened matches Err(e) ==> e == RegistryError::OpenKey(code),
        sized is Ok <==> code == 0 && ty == 1,
        sized matches Ok(units) ==> size < 2 * units <= size + 2,
        sized matches Err(e) ==> e == if code != 0 {
            RegistryError::QuerySize(code)
        } else {
            RegistryError::NotAString(ty)
        },
{
}

/// What the NULs at the end are stripped from: a beginning of the units that does
/// not end in a NUL, with nothing but NULs behind it.
pub proof fn only_trailing_nuls_are_dropped(units: Seq<u16>)
    ensures
        ({
            let kept = without_trailing_nuls(units);
            &&& kept.len() <= units.len()
            &&& kept == units.take(kept.len() as int)
            &&& kept.len() > 0 ==> kept.last() != 0
            &&& forall|i: int| kept.len() <= i < units.len() ==> #[trigger] units[i] == 0
        }),
    decreases units.len(),
{
    if units.len() > 0 && units.last() == 0 {
        let front = units.drop_last();
        only_trailing_nuls_are_dropped(front);
        let kept = without_trailing_nuls(units);
        assert(kept =~= units.take(kept.len() as int));
        assert forall|i: int| kept.len() <= i < units.len() implies #[trigger] units[i] == 0 by {
            if i < front.len() {
                assert(front[i] == 0);
            }
        }
    } else {
        assert(units =~= units.take(units.len() as int));
    }
}

/// The directory that was read is the one whose UTF-16 units fill the buffer up
/// to its trailing NULs; a failed read is reported with its code.
pub proof fn directory_is_the_text_in_the_buffer(
    code: u32,
    buf: Vec<u16>,
    dir: Seq<char>,
    nuls: nat,
    r: Result<String, RegistryError>,
)
    requires
        call_ensures(value_read, (code, buf), r),
        dir.len() > 0 ==> dir.last() != '\0',
        buf@ == utf16::encode(dir) + Seq::new(nuls, |i: int| 0u16),
    ensures
        code == 0 ==> r is Ok && r->Ok_0@ == dir,
        code != 0 ==> r == Err::<String, RegistryError>(RegistryError::QueryValue(code)),
{
    stored_directory_is_read_back(dir, nuls);
}

/// The words of the registry errors, with the code or type behind what failed.
pub proof fn registry_errors_name_their_code(e: RegistryError, s: String, n: u32)
    requires
        call_ensures(RegistryError::to_string, (&e,), s),
    ensures
        e == RegistryError::OpenKey(n) ==> s@
            == "RegOpenKeyExW(HKLM\\SOFTWARE\\WinFsp) failed: code "@ + text::decimal(n as nat),
        e == RegistryError::QuerySize(n) ==> s@
            == "RegQueryValueExW(InstallDir) size query failed: code "@ + text::decimal(n as nat),
        e == RegistryError::NotAString(n) ==> s@ == "InstallDir is type "@ + text::decimal(
            n as nat,
        ) + ", expected REG_SZ"@,
        e == RegistryError::QueryValue(n) ==> s@ == "RegQueryValueExW(InstallDir) failed: code "@
            + text::decimal(n as nat),
{
}

} // verus!
