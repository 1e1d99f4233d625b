use std::sync::Arc;

use winfsp_fs_skeleton::device::BlockSource;
use winfsp_fs_skeleton::reader::{
    complete_listing, permitted, writable, DirEntry, FsError, FsReader, FsResult, FsWriter,
};
use winfsp_fs_skeleton::translate::{FileAttr, NodeKind, Timestamp};

/// A reader whose `Node` carries more than an identifier, which is the case the
/// associated type exists for. If this stops compiling, the trait has grown an
/// assumption about what a node is.
struct NodeCarriesBytes {
    content: Vec<u8>,
}

struct BytesNode {
    offset: usize,
    len: usize,
    raw: Vec<u8>,
}

impl FsReader for NodeCarriesBytes {
    type Node = BytesNode;

    fn mount(_device: Arc<dyn BlockSource>, _writable: bool) -> FsResult<Self> {
        Ok(Self {
            content: b"hello world".to_vec(),
        })
    }

    fn lookup(&self, path: &str) -> FsResult<Self::Node> {
        if path != "/hello" {
            return Err(FsError::NotFound);
        }
        Ok(BytesNode {
            offset: 0,
            len: self.content.len(),
            raw: self.content.clone(),
        })
    }

    fn attr(&self, node: &Self::Node) -> FileAttr {
        FileAttr {
            kind: NodeKind::File,
            perms: 0o644,
            size: node.len as u64,
            inode: 1,
            link_count: 1,
            mtime: Timestamp { secs: 0, nsec: 0 },
            atime: None,
            ctime: None,
            crtime: None,
        }
    }

    fn read_file(&self, node: &Self::Node, offset: u64, buf: &mut [u8]) -> FsResult<usize> {
        let start = (node.offset as u64 + offset) as usize;
        if start >= node.raw.len() {
            return Ok(0);
        }
        let n = buf.len().min(node.raw.len() - start);
        buf[..n].copy_from_slice(&node.raw[start..start + n]);
        Ok(n)
    }

    fn read_dir(&self, _node: &Self::Node) -> FsResult<Vec<DirEntry>> {
        Err(FsError::NotExpectedKind)
    }

    fn readlink(&self, _node: &Self::Node) -> FsResult<String> {
        Err(FsError::NotExpectedKind)
    }

    fn volume_size(&self) -> (u64, u64) {
        (self.content.len() as u64, 0)
    }
}

/// Exercise the trait through a generic function: it must not need to know the
/// concrete reader.
fn read_whole<R: FsReader>(fs: &R, path: &str) -> FsResult<Vec<u8>> {
    let node = fs.lookup(path)?;
    let size = fs.attr(&node).size as usize;
    let mut out = vec![0u8; size];
    let mut done = 0;
    while done < size {
        let n = fs.read_file(&node, done as u64, &mut out[done..])?;
        if n == 0 {
            break;
        }
        done += n;
    }
    out.truncate(done);
    Ok(out)
}

#[test]
fn a_node_may_carry_state_the_skeleton_never_sees() {
    let fs = NodeCarriesBytes {
        content: b"hello world".to_vec(),
    };
    assert_eq!(read_whole(&fs, "/hello").unwrap(), b"hello world");
}

#[test]
fn a_missing_path_is_not_found() {
    let fs = NodeCarriesBytes {
        content: b"x".to_vec(),
    };
    assert!(matches!(
        read_whole(&fs, "/nope").unwrap_err(),
        FsError::NotFound
    ));
}

/// A short read means end of file, not failure.
#[test]
fn reading_past_the_end_returns_zero_not_an_error() {
    let fs = NodeCarriesBytes {
        content: b"abc".to_vec(),
    };
    let node = fs.lookup("/hello").unwrap();
    let mut buf = [0u8; 8];
    assert_eq!(fs.read_file(&node, 99, &mut buf).unwrap(), 0);
}

/// The error text reaches a log, so it has to say something.
#[test]
fn errors_render_usefully() {
    assert_eq!(FsError::NotFound.to_string(), "no such file or directory");
    assert_eq!(
        FsError::Corrupt("bad magic".into()).to_string(),
        "corrupt filesystem: bad magic"
    );
    assert_eq!(FsError::Other("boom".into()).to_string(), "boom");
}

#[test]
fn every_error_has_its_text() {
    assert_eq!(FsError::NotExpectedKind.to_string(), "not the expected kind of file");
    assert_eq!(FsError::ReadOnly.to_string(), "read-only");
    let e = FsError::from(std::io::Error::new(std::io::ErrorKind::Other, "disk gone"));
    assert!(matches!(e, FsError::Io(_)));
    assert_eq!(e.to_string(), "io error: disk gone");
}

#[test]
fn a_volume_has_no_label_by_default() {
    let fs = NodeCarriesBytes { content: vec![] };
    assert_eq!(fs.volume_label(), None);
}

/// A reader that can write, mounted for writing or not.
struct Volume {
    writable: bool,
}

impl FsReader for Volume {
    type Node = ();

    fn mount(_device: Arc<dyn BlockSource>, writable: bool) -> FsResult<Self> {
        Ok(Volume { writable })
    }

    fn lookup(&self, _path: &str) -> FsResult<()> {
        Ok(())
    }

    fn attr(&self, _node: &()) -> FileAttr {
        FileAttr {
            kind: NodeKind::File,
            perms: 0o644,
            size: 0,
            inode: 1,
            link_count: 1,
            mtime: Timestamp { secs: 0, nsec: 0 },
            atime: None,
            ctime: None,
            crtime: None,
        }
    }

    fn read_file(&self, _node: &(), _offset: u64, _buf: &mut [u8]) -> FsResult<usize> {
        Ok(0)
    }

    fn read_dir(&self, _node: &()) -> FsResult<Vec<DirEntry>> {
        Ok(vec![])
    }

    fn readlink(&self, _node: &()) -> FsResult<String> {
        Err(FsError::NotExpectedKind)
    }

    fn volume_size(&self) -> (u64, u64) {
        (0, 0)
    }
}

impl FsWriter for Volume {
    fn is_writable(&self) -> bool {
        self.writable
    }

    fn write_file(&self, _node: &(), _offset: u64, data: &[u8]) -> FsResult<usize> {
        Ok(data.len())
    }

    fn set_size(&self, _node: &(), _size: u64) -> FsResult<()> {
        Ok(())
    }

    fn create(&self, _path: &str, _kind: NodeKind, _perms: u16) -> FsResult<()> {
        Ok(())
    }

    fn remove(&self, _path: &str) -> FsResult<()> {
        Ok(())
    }

    fn rename(&self, _from: &str, _to: &str) -> FsResult<()> {
        Ok(())
    }

    fn set_attr(
        &self,
        _node: &(),
        _perms: Option<u16>,
        _mtime: Option<Timestamp>,
        _atime: Option<Timestamp>,
    ) -> FsResult<()> {
        Ok(())
    }

    fn flush(&self) -> FsResult<()> {
        Ok(())
    }
}

struct NoDevice;

impl BlockSource for NoDevice {
    fn read_at(&self, _offset: u64, _buf: &mut [u8]) -> std::io::Result<()> {
        Err(std::io::Error::from(std::io::ErrorKind::NotFound))
    }

    fn size(&self) -> u64 {
        0
    }
}

/// A reader that could write may still be mounted read-only.
#[test]
fn a_read_only_mount_is_not_written_to() {
    let fs = Volume::mount(Arc::new(NoDevice), false).unwrap();
    assert!(matches!(writable(&fs), Err(FsError::ReadOnly)));
    assert!(matches!(permitted(&fs, false), Err(FsError::ReadOnly)));
}

#[test]
fn a_read_write_mount_is_written_to() {
    let fs = Volume::mount(Arc::new(NoDevice), true).unwrap();
    let w = writable(&fs).ok().unwrap();
    assert_eq!(w.write_file(&(), 0, b"abc").unwrap(), 3);
    assert!(permitted(&fs, true).is_ok());
}

fn sized(size: u64) -> FileAttr {
    FileAttr {
        kind: NodeKind::Dir,
        perms: 0o755,
        size,
        inode: 1,
        link_count: 1,
        mtime: Timestamp { secs: 0, nsec: 0 },
        atime: None,
        ctime: None,
        crtime: None,
    }
}

/// Names and sizes of the completed listing of entries whose sizes are 1, 2, ...
/// in a directory of size 100 whose parent has size 200.
fn complete(names: &[&str]) -> Vec<(String, u64)> {
    let entries = names
        .iter()
        .enumerate()
        .map(|(i, name)| DirEntry { name: name.to_string(), attr: sized(i as u64 + 1) })
        .collect();
    complete_listing(entries, sized(100), sized(200))
        .into_iter()
        .map(|e| (e.name, e.attr.size))
        .collect()
}

fn pairs(expected: &[(&str, u64)]) -> Vec<(String, u64)> {
    expected.iter().map(|&(name, size)| (name.to_string(), size)).collect()
}

#[test]
fn missing_dots_are_synthesised_at_the_head() {
    assert_eq!(complete(&[]), pairs(&[(".", 100), ("..", 200)]));
    assert_eq!(complete(&["b", "a"]), pairs(&[(".", 100), ("..", 200), ("b", 1), ("a", 2)]));
}

#[test]
fn dots_that_the_reader_gives_are_kept() {
    assert_eq!(
        complete(&["a", "..", "b", "."]),
        pairs(&[(".", 4), ("..", 2), ("a", 1), ("b", 3)])
    );
    assert_eq!(complete(&["."]), pairs(&[(".", 1), ("..", 200)]));
    assert_eq!(complete(&[".."]), pairs(&[(".", 100), ("..", 1)]));
}

#[test]
fn dots_come_once_each() {
    assert_eq!(
        complete(&[".", ".", "...", "..", ".."]),
        pairs(&[(".", 1), ("..", 4), ("...", 3)])
    );
}

#[test]
fn a_complete_listing_stays_as_it_is() {
    assert_eq!(
        complete(&[".", "..", "z", ".hidden"]),
        pairs(&[(".", 1), ("..", 2), ("z", 3), (".hidden", 4)])
    );
}
