use winfsp_fs_skeleton::watch::{
    class_is_registered, classify, disk_event, drive_arg, mount_args, pumped, DiskEvent, Message,
    Pumped, DBT_DEVICEARRIVAL, DBT_DEVICEREMOVECOMPLETE, WM_DEVICECHANGE,
};

#[test]
fn device_changes_are_told_apart() {
    let arrival = DBT_DEVICEARRIVAL as usize;
    let removal = DBT_DEVICEREMOVECOMPLETE as usize;
    assert_eq!(classify(WM_DEVICECHANGE, arrival), Message::Arrival);
    assert_eq!(classify(WM_DEVICECHANGE, removal), Message::Removal);
    assert_eq!(classify(WM_DEVICECHANGE, 7), Message::OtherChange);
    assert_eq!(classify(0x0010, arrival), Message::Foreign);
}

#[test]
fn the_event_is_in_the_low_half_of_the_parameter() {
    let high = usize::MAX - u32::MAX as usize;
    assert_eq!(
        classify(WM_DEVICECHANGE, high + DBT_DEVICEARRIVAL as usize),
        Message::Arrival
    );
}

fn named(name: &str) -> Vec<u8> {
    let mut b = vec![0u8; 28];
    for u in name.encode_utf16().chain([0]) {
        b.extend_from_slice(&u.to_le_bytes());
    }
    b
}

#[test]
fn an_event_names_its_disk() {
    let b = named(r"\\?\disk");
    let path = String::from(r"\\?\disk");
    assert_eq!(disk_event(Message::Arrival, Some(&b)), Some(DiskEvent::Arrived(path.clone())));
    assert_eq!(disk_event(Message::Removal, Some(&b)), Some(DiskEvent::Removed(path)));
    assert_eq!(disk_event(Message::OtherChange, Some(&b)), None);
    assert_eq!(disk_event(Message::Foreign, Some(&b)), None);
}

#[test]
fn an_event_without_a_path_is_nothing_to_do() {
    assert_eq!(disk_event(Message::Arrival, None), None);
    assert_eq!(disk_event(Message::Removal, Some(&[0; 28])), None);
}

#[test]
fn a_window_class_may_have_been_registered_before() {
    assert!(class_is_registered(1, None));
    assert!(class_is_registered(0, Some(1410)));
    assert!(!class_is_registered(0, Some(1411)));
    assert!(!class_is_registered(0, None));
}

#[test]
fn the_pump_ends_on_quit_and_on_errors() {
    assert_eq!(pumped(0), Pumped::Quit);
    assert_eq!(pumped(-1), Pumped::Failed);
    assert_eq!(pumped(1), Pumped::Dispatch);
    assert_eq!(pumped(-2), Pumped::Dispatch);
}

#[test]
fn a_partition_is_mounted_by_number() {
    assert_eq!(drive_arg('E'), "E:");
    assert_eq!(
        mount_args(r"\\?\disk", 'E', 12),
        ["mount", r"\\?\disk", "--drive", "E:", "--part", "12"]
    );
}

#[test]
fn a_whole_disk_is_mounted_without_a_number() {
    assert_eq!(mount_args("d", 'Z', 0), ["mount", "d", "--drive", "Z:"]);
}
