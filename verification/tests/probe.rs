use winfsp_fs_skeleton::device::BlockSource;
use winfsp_fs_skeleton::probe::{
    device_interface_name, pick_drive_letter, probe_at_offset, DBCC_NAME_OFFSET, PROBE_LEN,
};
use winfsp_fs_skeleton::FsBackend;

struct Ext4;

impl FsBackend for Ext4 {
    const FS_NAME: &'static str = "ext4";
    const SERVICE_NAME: &'static str = "ExtFsWatcher";
    const LAUNCHER_SERVICE_CLASS: &'static str = "ext4-mount";
    const FILE_EXTENSION: &'static str = "img";

    fn detect(bytes: &[u8]) -> bool {
        bytes.len() >= 0x43A && bytes[0x438] == 0x53 && bytes[0x439] == 0xEF
    }
}

struct Disk(Vec<u8>);

impl BlockSource for Disk {
    fn read_at(&self, offset: u64, buf: &mut [u8]) -> std::io::Result<()> {
        let start = offset as usize;
        match self.0.get(start..start + buf.len()) {
            Some(bytes) => {
                buf.copy_from_slice(bytes);
                Ok(())
            }
            None => Err(std::io::Error::from(std::io::ErrorKind::UnexpectedEof)),
        }
    }

    fn size(&self) -> u64 {
        self.0.len() as u64
    }
}

#[test]
fn the_first_letter_is_e() {
    assert_eq!(pick_drive_letter(0), Some('E'));
    assert_eq!(pick_drive_letter(0b1111), Some('E'));
}

#[test]
fn letters_in_use_are_skipped() {
    assert_eq!(pick_drive_letter(0b1_1100), Some('F'));
    assert_eq!(pick_drive_letter(0b10_1111), Some('E'));
    assert_eq!(pick_drive_letter(0x01FF_FFFF), Some('Z'));
}

#[test]
fn there_is_no_letter_beyond_z() {
    assert_eq!(pick_drive_letter(0x03FF_FFF0), None);
    assert_eq!(pick_drive_letter(u32::MAX), None);
    assert_eq!(pick_drive_letter(0xFDFF_FFFF), Some('Z'));
}

fn broadcast(name: &[u16]) -> Vec<u8> {
    let mut b = vec![0xAAu8; DBCC_NAME_OFFSET];
    for u in name {
        b.extend_from_slice(&u.to_le_bytes());
    }
    b
}

#[test]
fn a_device_path_is_read_from_its_first_character_on() {
    let path = r"\\?\STORAGE#Disk#{53f56307-b6bf-11d0-94f2-00a0c91efb8b}";
    let mut units: Vec<u16> = path.encode_utf16().collect();
    units.push(0);
    units.extend_from_slice(&[0x41, 0x42]);
    assert_eq!(device_interface_name(&broadcast(&units)).as_deref(), Some(path));
}

#[test]
fn a_path_without_a_terminator_ends_with_the_broadcast() {
    assert_eq!(device_interface_name(&broadcast(&[0x41, 0x42])).as_deref(), Some("AB"));
    let mut odd = broadcast(&[0x41]);
    odd.push(0x42);
    assert_eq!(device_interface_name(&odd).as_deref(), Some("A"));
}

#[test]
fn a_broadcast_without_a_name_has_no_path() {
    assert_eq!(device_interface_name(&broadcast(&[])), None);
    assert_eq!(device_interface_name(&[0; 4]), None);
    assert_eq!(device_interface_name(&broadcast(&[0])).as_deref(), Some(""));
}

#[test]
fn a_path_that_is_not_utf16_is_refused() {
    assert_eq!(device_interface_name(&broadcast(&[0x41, 0xD800, 0])), None);
}

#[test]
fn a_probe_looks_at_its_own_offset() {
    let mut image = vec![0u8; 3 * PROBE_LEN];
    image[PROBE_LEN + 0x438] = 0x53;
    image[PROBE_LEN + 0x439] = 0xEF;
    let disk = Disk(image);
    assert!(probe_at_offset::<Ext4, _>(&disk, PROBE_LEN as u64));
    assert!(!probe_at_offset::<Ext4, _>(&disk, 0));
    assert!(!probe_at_offset::<Ext4, _>(&disk, 2 * PROBE_LEN as u64));
}

#[test]
fn what_cannot_be_read_is_not_found() {
    let mut image = vec![0u8; PROBE_LEN - 1];
    image[0x438] = 0x53;
    image[0x439] = 0xEF;
    assert!(!probe_at_offset::<Ext4, _>(&Disk(image.clone()), 0));
    image.push(0);
    let disk: Box<dyn BlockSource> = Box::new(Disk(image));
    assert!(probe_at_offset::<Ext4, dyn BlockSource>(&*disk, 0));
}
