use std::io::ErrorKind;

use winfsp_fs_skeleton::device::{
    check_writable, copy_window, io_error_text, plan_read, sector_alignment, size_from_metadata,
    BlockSource, Direction, ReadWindow, Transfer,
};

struct ReadOnly;

impl BlockSource for ReadOnly {
    fn read_at(&self, _offset: u64, buf: &mut [u8]) -> std::io::Result<()> {
        buf.fill(7);
        Ok(())
    }

    fn size(&self) -> u64 {
        4096
    }
}

#[test]
fn a_read_only_source_refuses_writes() {
    let e = ReadOnly.write_at(0, b"x").unwrap_err();
    assert_eq!(e.kind(), ErrorKind::NotConnected);
    assert_eq!(e.to_string(), "write_at: BlockSource is read-only");
    assert_eq!(io_error_text(&e), "write_at: BlockSource is read-only");
    assert_eq!(ReadOnly.write_at(u64::MAX, b"").unwrap_err().kind(), ErrorKind::NotConnected);
}

#[test]
fn a_read_only_source_has_nothing_to_flush() {
    assert!(ReadOnly.flush().is_ok());
}

#[test]
fn a_source_can_be_shared_as_a_trait_object() {
    let src: std::sync::Arc<dyn BlockSource> = std::sync::Arc::new(ReadOnly);
    let mut buf = [0u8; 2];
    src.read_at(0, &mut buf).unwrap();
    assert_eq!(buf, [7, 7]);
    assert_eq!(src.size(), 4096);
}

#[test]
fn a_handle_opened_read_only_refuses_writes() {
    assert!(check_writable(true).is_ok());
    let e = check_writable(false).unwrap_err();
    assert_eq!(e.kind(), ErrorKind::PermissionDenied);
    assert_eq!(e.to_string(), "FileSource opened read-only");
}

#[test]
fn a_file_has_no_alignment_constraint() {
    assert_eq!(sector_alignment(None), 1);
}

#[test]
fn sector_sizes_that_are_powers_of_two_are_kept() {
    assert_eq!(sector_alignment(Some(512)), 512);
    assert_eq!(sector_alignment(Some(4096)), 4096);
    assert_eq!(sector_alignment(Some(1)), 1);
    assert_eq!(sector_alignment(Some(0x8000_0000)), 0x8000_0000);
}

#[test]
fn other_sector_sizes_count_as_512() {
    assert_eq!(sector_alignment(Some(0)), 512);
    assert_eq!(sector_alignment(Some(520)), 512);
    assert_eq!(sector_alignment(Some(3)), 512);
    assert_eq!(sector_alignment(Some(u32::MAX)), 512);
}

#[test]
fn an_empty_or_missing_length_says_nothing_about_the_size() {
    assert_eq!(size_from_metadata(Some(10)), Some(10));
    assert_eq!(size_from_metadata(Some(0)), None);
    assert_eq!(size_from_metadata(None), None);
}

#[test]
fn an_unaligned_read_is_widened_to_sectors() {
    assert_eq!(
        plan_read(1000, 100, 512),
        Some(ReadWindow { offset: 512, len: 1024, skip: 488, direct: false })
    );
    assert_eq!(
        plan_read(0x438, 2, 4096),
        Some(ReadWindow { offset: 0, len: 4096, skip: 0x438, direct: false })
    );
}

#[test]
fn an_aligned_read_is_direct() {
    assert_eq!(
        plan_read(1024, 512, 512),
        Some(ReadWindow { offset: 1024, len: 512, skip: 0, direct: true })
    );
    assert_eq!(
        plan_read(1023, 7, 1),
        Some(ReadWindow { offset: 1023, len: 7, skip: 0, direct: true })
    );
}

#[test]
fn an_aligned_offset_with_an_unaligned_length_is_not_direct() {
    assert_eq!(
        plan_read(1024, 511, 512),
        Some(ReadWindow { offset: 1024, len: 512, skip: 0, direct: false })
    );
}

#[test]
fn a_read_beyond_64_bit_addresses_has_no_window() {
    assert_eq!(plan_read(u64::MAX, 1, 1), None);
    assert_eq!(plan_read(u64::MAX, 0, 1).map(|w| w.len), Some(0));
    assert_eq!(plan_read(u64::MAX - 511, 1, 512), None);
    assert_eq!(
        plan_read(u64::MAX - 1023, 1, 512),
        Some(ReadWindow { offset: u64::MAX - 1023, len: 512, skip: 0, direct: false })
    );
}

/// Reading through the window gives what reading the range gives.
#[test]
fn the_window_holds_the_requested_range() {
    let device: Vec<u8> = (0..8192u32).map(|i| (i % 251) as u8).collect();
    for (offset, len) in [(0u64, 1usize), (511, 2), (512, 512), (1000, 3000), (5, 0)] {
        let w = plan_read(offset, len as u64, 512).unwrap();
        assert_eq!(w.offset % 512, 0);
        assert_eq!(w.len % 512, 0);
        let scratch = &device[w.offset as usize..(w.offset + w.len) as usize];
        let mut buf = vec![0u8; len];
        copy_window(scratch, w.skip as usize, &mut buf);
        assert_eq!(buf, device[offset as usize..offset as usize + len]);
    }
}

#[test]
fn a_transfer_goes_on_after_partial_pieces() {
    let mut t = Transfer::new(Direction::Read, 1000, 10);
    assert_eq!(t.next_request(), Some((1000, 0)));
    t.advance(4).unwrap();
    assert_eq!(t.next_request(), Some((1004, 4)));
    t.advance(6).unwrap();
    assert_eq!(t.next_request(), None);
}

/// Whatever the pieces are, together they are the range.
#[test]
fn a_finished_transfer_has_moved_the_whole_range() {
    let device: Vec<u8> = (0..200u8).collect();
    for size in [1usize, 3, 7, 50] {
        let mut buf = vec![0u8; 50];
        let mut t = Transfer::new(Direction::Read, 100, buf.len());
        while let Some((at, done)) = t.next_request() {
            assert_eq!(at, 100 + done as u64);
            let n = size.min(buf.len() - done);
            buf[done..done + n].copy_from_slice(&device[at as usize..at as usize + n]);
            t.advance(n).unwrap();
        }
        assert_eq!(buf, device[100..150]);
    }
}

#[test]
fn an_empty_transfer_is_done_at_once() {
    assert_eq!(Transfer::new(Direction::Write, 5, 0).next_request(), None);
}

#[test]
fn a_read_that_stops_is_an_unexpected_end() {
    let mut t = Transfer::new(Direction::Read, 0, 10);
    t.advance(3).unwrap();
    let e = t.advance(0).unwrap_err();
    assert_eq!(e.kind(), ErrorKind::UnexpectedEof);
    assert_eq!(e.to_string(), "short read");
    assert_eq!(t.next_request(), Some((3, 3)));
}

#[test]
fn a_write_that_stops_wrote_zero() {
    let mut t = Transfer::new(Direction::Write, 0, 10);
    let e = t.advance(0).unwrap_err();
    assert_eq!(e.kind(), ErrorKind::WriteZero);
    assert_eq!(e.to_string(), "short write");
}
