//! The watcher: what window messages mean, when the message pump ends, and the
//! command that mounts a partition.

use vstd::prelude::*;
use vstd::string::*;

use crate::probe;
use crate::text;

verus! {

/// `WM_DEVICECHANGE`.
pub const WM_DEVICECHANGE: u32 = 0x0219;

/// `DBT_DEVICEARRIVAL`.
pub const DBT_DEVICEARRIVAL: u32 = 0x8000;

/// `DBT_DEVICEREMOVECOMPLETE`.
pub const DBT_DEVICEREMOVECOMPLETE: u32 = 0x8004;

/// `ERROR_CLASS_ALREADY_EXISTS`.
pub const ERROR_CLASS_ALREADY_EXISTS: i32 = 1410;

/// What a window message is about.
#[derive(Debug, Clone, Copy, PartialEq, Eq, Structural)]
pub enum Message {
    /// A device has arrived; the message carries a broadcast header.
    Arrival,
    /// A device is gone; the message carries a broadcast header.
    Removal,
    /// Another device change: answered, nothing to do.
    OtherChange,
    /// Not about devices: left to the default window procedure.
    Foreign,
}

/// What the message `msg` with the parameter `wparam` is about. The event is in
/// the low 32 bits of the parameter.
pub open spec fn message(msg: u32, wparam: usize) -> Message {
    let event = wparam as int % 0x1_0000_0000;
    if msg != WM_DEVICECHANGE {
        Message::Foreign
    } else if event == DBT_DEVICEARRIVAL {
        Message::Arrival
    } else if event == DBT_DEVICEREMOVECOMPLETE {
        Message::Removal
    } else {
        Message::OtherChange
    }
}

/// Classify a window message.
pub fn classify(msg: u32, wparam: usize) -> (m: Message)
    ensures
        m == message(msg, wparam),
{
    let event: u64 = wparam as u64 % 0x1_0000_0000;
    if msg != WM_DEVICECHANGE {
        Message::Foreign
    } else if event == DBT_DEVICEARRIVAL as u64 {
        Message::Arrival
    } else if event == DBT_DEVICEREMOVECOMPLETE as u64 {
        Message::Removal
    } else {
        Message::OtherChange
    }
}

/// A change that concerns a disk, by its device path.
#[derive(Debug, Clone, PartialEq, Eq)]
pub enum DiskEvent {
    Arrived(String),
    Removed(String),
}

/// The disk that a device change is about: `m` is the classified message,
/// `broadcast` its broadcast structure, where the message carries one. `None`
/// where there is nothing to do: for any other message, and where no device
/// path can be had.
pub fn disk_event(m: Message, broadcast: Option<&[u8]>) -> (e: Option<DiskEvent>)
    ensures
        e matches Some(DiskEvent::Arrived(path)) ==> m == Message::Arrival && broadcast is Some
            && probe::broadcast_name(broadcast->0@) == Some(path@),
        e matches Some(DiskEvent::Removed(path)) ==> m == Message::Removal && broadcast is Some
            && probe::broadcast_name(broadcast->0@) == Some(path@),
        e is Some <==> (m == Message::Arrival || m == Message::Removal) && broadcast is Some
            && probe::broadcast_name(broadcast->0@) is Some,
{
    match (m, broadcast) {
        (Message::Arrival, Some(b)) => match probe::device_interface_name(b) {
            Some(path) => Some(DiskEvent::Arrived(path)),
            None => None,
        },
        (Message::Removal, Some(b)) => match probe::device_interface_name(b) {
            Some(path) => Some(DiskEvent::Removed(path)),
            None => None,
        },
        _ => None,
    }
}

/// Whether a window class can be used after its registration: it was
/// registered (`atom` is not 0), or it had been before, in this process
/// (`os_error`).
pub fn class_is_registered(atom: u16, os_error: Option<i32>) -> (ok: bool)
    ensures
        ok == (atom != 0 || os_error == Some(ERROR_CLASS_ALREADY_EXISTS)),
{
    if atom != 0 {
        return true;
    }
    match os_error {
        Some(code) => code == ERROR_CLASS_ALREADY_EXISTS,
        None => false,
    }
}

/// What to do after waiting for a message.
#[derive(Debug, Clone, Copy, PartialEq, Eq, Structural)]
pub enum Pumped {
    /// A message came: dispatch it and wait for the next.
    Dispatch,
    /// The thread was asked to quit: end the pump.
    Quit,
    /// Waiting failed: report it and end the pump.
    Failed,
}

/// Read the result of `GetMessageW`: 0 for the quit message, -1 for an error,
/// anything else for a message.
pub fn pumped(result: i32) -> (p: Pumped)
    ensures
        p == if result == 0 {
            Pumped::Quit
        } else if result == -1 {
            Pumped::Failed
        } else {
            Pumped::Dispatch
        },
{
    if result == 0 {
        Pumped::Quit
    } else if result == -1 {
        Pumped::Failed
    } else {
        Pumped::Dispatch
    }
}

/// The texts of command-line arguments.
pub open spec fn texts(args: Seq<String>) -> Seq<Seq<char>> {
    Seq::new(args.len(), |i: int| args[i]@)
}

/// The arguments that mount partition `part` of `disk` on a drive letter:
/// `mount <disk> --drive <X:> --part <n>`. The whole disk, number 0, is mounted
/// without `--part`.
pub open spec fn mount_command(disk: Seq<char>, letter: char, part: nat) -> Seq<Seq<char>> {
    let drive = seq!["mount"@, disk, "--drive"@, seq![letter, ':']];
    if part > 0 {
        drive + seq!["--part"@, text::decimal(part)]
    } else {
        drive
    }
}

/// A drive letter as a drive: `X:`.
pub fn drive_arg(letter: char) -> (s: String)
    ensures
        s@ == seq![letter, ':'],
{
    let mut s = String::new();
    s.push(letter);
    s.push(':');
    assert(s@ =~= seq![letter, ':']);
    s
}

/// The arguments that mount partition `part` of `disk` on a drive letter.
pub fn mount_args(disk: &str, letter: char, part: usize) -> (args: Vec<String>)
    ensures
        texts(args@) == mount_command(disk@, letter, part as nat),
{
    let mut args: Vec<String> = Vec::new();
    args.push("mount".to_owned());
    args.push(disk.to_owned());
    args.push("--drive".to_owned());
    args.push(drive_arg(letter));
    if part > 0 {
        args.push("--part".to_owned());
        args.push(text::decimal_string(part as u64));
    }
    assert(texts(args@) =~= mount_command(disk@, letter, part as nat));
    args
}

/// The arguments say exactly what is mounted where: no two mounts have the same
/// arguments.
pub proof fn mount_command_identifies_the_mount(
    disk: Seq<char>,
    letter: char,
    part: nat,
    disk2: Seq<char>,
    letter2: char,
    part2: nat,
)
    requires
        mount_command(disk, letter, part) == mount_command(disk2, letter2, part2),
    ensures
        disk == disk2,
        letter == letter2,
        part == part2,
{
    let a = mount_command(disk, letter, part);
    let b = mount_command(disk2, letter2, part2);
    assert(a[1] == b[1]);
    assert(a[3] == b[3]);
    assert(a[3][0] == b[3][0]);
    if part > 0 && part2 > 0 {
        assert(a[5] == b[5]);
        text::decimal_is_injective(part, part2);
    } else {
        assert(a.len() == b.len());
    }
}

/// A window message is about an arrival exactly if it is message `0x0219` with
/// event `0x8000`, about a removal with event `0x8004`, and about another device
/// change with any other event; the event is the parameter without what lies
/// above its low 32 bits.
pub proof fn messages_are_told_by_their_numbers(msg: u32, wparam: usize, m: Message)
    requires
        call_ensures(classify, (msg, wparam), m),
    ensures
        ({
            let event = wparam as int % 0x1_0000_0000;
            &&& m == Message::Arrival <==> msg == 0x219 && event == 0x8000
            &&& m == Message::Removal <==> msg == 0x219 && event == 0x8004
            &&& m == Message::OtherChange <==> msg == 0x219 && event != 0x8000 && event != 0x8004
            &&& m == Message::Foreign <==> msg != 0x219
        }),
{
}

/// An arrival or removal names exactly the path that its broadcast holds, and is
/// nothing to act on exactly if that holds none.
pub proof fn events_name_the_disk_in_the_broadcast(
    b: &[u8],
    path: Option<String>,
    arrived: Option<DiskEvent>,
    removed: Option<DiskEvent>,
)
    requires
        call_ensures(probe::device_interface_name, (b,), path),
        call_ensures(disk_event, (Message::Arrival, Some(b)), arrived),
        call_ensures(disk_event, (Message::Removal, Some(b)), removed),
    ensures
        path is None ==> arrived is None && removed is None,
        path matches Some(p) ==> {
            &&& arrived is Some && arrived->0 is Arrived && arrived->0->Arrived_0@ == p@
            &&& removed is Some && removed->0 is Removed && removed->0->Removed_0@ == p@
        },
{
}

/// Without a broadcast, and for any other message, there is nothing to act on.
pub proof fn other_messages_concern_no_disk(
    m: Message,
    b: Option<&[u8]>,
    e: Option<DiskEvent>,
)
    requires
        call_ensures(disk_event, (m, b), e),
        b is None || (m != Message::Arrival && m != Message::Removal),
    ensures
        e is None,
{
}

/// A window class can be used exactly if it was registered now or, which Windows
/// says with error 1410, before.
pub proof fn registered_classes_can_be_used(atom: u16, os_error: Option<i32>, ok: bool)
    requires
        call_ensures(class_is_registered, (atom, os_error), ok),
    ensures
        atom != 0 ==> ok,
        atom == 0 && os_error == Some(1410i32) ==> ok,
        ok ==> atom != 0 || os_error == Some(1410i32),
{
}

/// The pump goes on after every message, and ends exactly on the quit message
/// and on an error.
pub proof fn pump_ends_on_quit_and_error(result: i32, p: Pumped)
    requires
        call_ensures(pumped, (result,), p),
    ensures
        p == Pumped::Quit <==> result == 0,
        p == Pumped::Failed <==> result == -1,
        p == Pumped::Dispatch <==> result > 0 || result < -1,
{
}

/// What arguments say is what they hold, one by one.
pub proof fn texts_are_the_arguments(args: Seq<String>, i: int)
    requires
        0 <= i < args.len(),
    ensures
        texts(args).len() == args.len(),
        texts(args)[i] == args[i]@,
{
}

/// The mount command, word by word: `mount`, the disk as it is, `--drive`, the
/// letter and a colon, and for a partition `--part` and its number in decimal;
/// nothing more.
pub proof fn mount_words_are_exact(disk: &str, letter: char, part: usize, args: Vec<String>)
    requires
        call_ensures(mount_args, (disk, letter, part), args),
    ensures
        args@.len() == if part == 0 {
            4int
        } else {
            6
        },
        args@[0]@ == "mount"@,
        args@[1]@ == disk@,
        args@[2]@ == "--drive"@,
        args@[3]@.len() == 2 && args@[3]@[0] == letter && args@[3]@[1] == ':',
        part > 0 ==> args@[4]@ == "--part"@ && text::decimal_value(args@[5]@) == part
            && args@[5]@[0] != '0',
{
    assert(texts(args@).len() == args@.len());
    texts_are_the_arguments(args@, 0);
    texts_are_the_arguments(args@, 1);
    texts_are_the_arguments(args@, 2);
    texts_are_the_arguments(args@, 3);
    if part > 0 {
        texts_are_the_arguments(args@, 4);
        texts_are_the_arguments(args@, 5);
        text::decimal_stands_for_the_number(part as nat);
    }
}

} // verus!
