use winfsp_fs_skeleton::arrival::{probe_targets, Arrival, ProbeTarget, Step};
use winfsp_fs_skeleton::mounts::{Admission, State};
use winfsp_fs_skeleton::partition::{Partition, PartitionError};

fn numbers(gone: Vec<winfsp_fs_skeleton::mounts::Mount<char>>) -> Vec<(String, usize, char)> {
    let mut all: Vec<(String, usize, char)> =
        gone.into_iter().map(|m| (m.disk, m.part, m.value)).collect();
    all.sort();
    all
}

#[test]
fn arrivals_are_listed_in_a_session() {
    let s: State<char> = State::new();
    assert_eq!(s.consider(true), Admission::List);
    assert_eq!(s.consider(false), Admission::Defer);
}

#[test]
fn arrivals_are_ignored_during_shutdown() {
    let mut s: State<char> = State::new();
    s.begin_shutdown();
    assert_eq!(s.consider(true), Admission::Ignore);
    assert_eq!(s.consider(false), Admission::Ignore);
}

#[test]
fn a_removal_takes_the_mounts_of_its_disk_only() {
    let mut s: State<char> = State::new();
    assert_eq!(s.record("disk1", 1, 'E'), None);
    assert_eq!(s.record("disk2", 1, 'F'), None);
    assert_eq!(s.record("disk1", 2, 'G'), None);
    assert_eq!(
        numbers(s.take_disk("disk1")),
        [("disk1".to_string(), 1, 'E'), ("disk1".to_string(), 2, 'G')]
    );
    assert!(s.take_disk("disk1").is_empty());
    assert!(s.take_disk("disk3").is_empty());
    assert_eq!(numbers(s.take_disk("disk2")), [("disk2".to_string(), 1, 'F')]);
}

#[test]
fn a_partition_has_one_mount() {
    let mut s: State<char> = State::new();
    assert_eq!(s.record("disk1", 1, 'E'), None);
    assert_eq!(s.record("disk1", 1, 'F'), Some('E'));
    assert_eq!(numbers(s.take_disk("disk1")), [("disk1".to_string(), 1, 'F')]);
}

#[test]
fn a_shutdown_takes_every_mount() {
    let mut s: State<char> = State::new();
    s.record("disk1", 1, 'E');
    s.record("disk2", 0, 'F');
    assert_eq!(
        numbers(s.shut_down()),
        [("disk1".to_string(), 1, 'E'), ("disk2".to_string(), 0, 'F')]
    );
    assert!(s.shut_down().is_empty());
    assert_eq!(s.consider(true), Admission::Ignore);
}

fn part(start_lba: u64) -> Partition {
    Partition { start_lba, num_sectors: 1, kind: String::from("k"), name: None }
}

/// Runs an arrival; `found` and `in_use` answer its questions by partition
/// number.
fn run(mut a: Arrival, found: fn(usize) -> bool, in_use: fn(usize) -> u32) -> Vec<(usize, char)> {
    let mut launched = Vec::new();
    loop {
        match a.step() {
            Step::Probe { part, .. } => a.probed(found(part)),
            Step::QueryDrives { part } => {
                a.drives(in_use(part));
            }
            Step::Launch { part, letter } => {
                launched.push((part, letter));
                a.launched();
            }
            Step::Finished => return launched,
        }
    }
}

#[test]
fn partitions_are_probed_where_they_start() {
    assert_eq!(
        probe_targets(&vec![part(2048), part(0), part(1 << 40)]),
        [
            ProbeTarget { part: 1, offset: 1 << 20 },
            ProbeTarget { part: 2, offset: 0 },
            ProbeTarget { part: 3, offset: 1 << 49 },
        ]
    );
}

#[test]
fn a_partition_beyond_64_bit_addresses_is_not_probed() {
    assert_eq!(
        probe_targets(&vec![part(u64::MAX / 512 + 1), part(u64::MAX / 512)]),
        [ProbeTarget { part: 2, offset: u64::MAX - 511 }]
    );
}

#[test]
fn each_partition_that_is_found_is_launched_once() {
    let a = Arrival::begin(Ok(vec![part(1), part(2), part(3)])).unwrap();
    let launched = run(a, |p| p != 2, |p| if p == 1 { 0b11100 } else { 0b111100 });
    assert_eq!(launched, [(1, 'F'), (3, 'G')]);
}

#[test]
fn without_a_free_letter_the_next_partition_is_tried() {
    let a = Arrival::begin(Ok(vec![part(1), part(2)])).unwrap();
    let launched = run(a, |_| true, |p| if p == 1 { u32::MAX } else { 0 });
    assert_eq!(launched, [(2, 'E')]);
}

#[test]
fn the_chosen_letter_is_handed_back() {
    let mut a = Arrival::begin(Ok(vec![part(1)])).unwrap();
    assert_eq!(a.step(), Step::Probe { part: 1, offset: 512 });
    a.probed(true);
    assert_eq!(a.step(), Step::QueryDrives { part: 1 });
    assert_eq!(a.drives(u32::MAX), None);
    assert_eq!(a.step(), Step::Finished);
    let mut a = Arrival::begin(Ok(vec![part(1)])).unwrap();
    a.probed(true);
    assert_eq!(a.drives(0), Some('E'));
    assert_eq!(a.step(), Step::Launch { part: 1, letter: 'E' });
}

#[test]
fn a_disk_without_a_partition_table_is_probed_as_a_whole() {
    let a = Arrival::begin(Err(PartitionError::NoMbrSignature)).unwrap();
    assert_eq!(a.step(), Step::Probe { part: 0, offset: 0 });
    assert_eq!(run(a, |_| true, |_| 0), [(0, 'E')]);
}

#[test]
fn a_disk_that_cannot_be_listed_is_left_alone() {
    let e = PartitionError::GptSignatureMissing;
    assert!(matches!(Arrival::begin(Err(e)), Err(PartitionError::GptSignatureMissing)));
}

#[test]
fn a_disk_without_partitions_is_finished_at_once() {
    assert_eq!(Arrival::begin(Ok(vec![])).unwrap().step(), Step::Finished);
}
