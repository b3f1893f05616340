//! VFS top level: the root mount, path resolution and open files.
//!
//! A path is resolved from the root: one leading `/` is optional, the
//! rest is split at every `/`, empty components are skipped, and each
//! component must name an entry of the directory reached so far.

use vstd::prelude::*;
use vstd::string::StringSliceAdditionalSpecFns;
use crate::fs::inode::{Inode, InodeRef};
use crate::fs::ramfs::{RamFs, RamNodeModel, NodeModel, NodeData, RamNode, ROOT_INODE, find_key, entries_view, node_ok, written, read_count, read_into};
use crate::hal::text::{find_first, find_last, find_byte, rfind_byte, lemma_find_first_bounds, lemma_find_last_bounds};
use vstd::utf8::{valid_utf8, decode_utf8, is_char_boundary, length_of_first_scalar, pop_first_scalar};

verus! {

#[derive(Debug, Clone, Copy, PartialEq, Eq, Structural)]
pub enum FsError {
    NotFound,
    NotADirectory,
    AlreadyExists,
    InvalidPath,
    Io,
    NotEmpty,
}

/// Access flags of an open file, as a bit mask.
#[derive(Clone, Copy, Debug, PartialEq, Eq, Structural)]
pub struct OpenFlags {
    pub bits: u32,
}

impl OpenFlags {
    pub const READ: u32 = 1;

    pub const WRITE: u32 = 2;

    pub const CREATE: u32 = 4;

    pub const APPEND: u32 = 8;

    /// The flags named by `bits`, undefined bits dropped.
    pub fn from_bits_truncate(bits: u32) -> (r: Self)
        ensures
            r.bits == bits & 0xf,
    {
        OpenFlags { bits: bits & 0xf }
    }

    /// Whether every flag of `mask` is set.
    pub fn contains(&self, mask: u32) -> (r: bool)
        ensures
            r == (self.bits & mask == mask),
    {
        self.bits & mask == mask
    }
}

/// An open file handle.
pub struct File {
    pub inode: InodeRef,
    pub offset: usize,
    pub flags: OpenFlags,
}

impl File {
    /// Read from the current offset into `buf` and advance past what was
    /// read. Refused with `Io` without the `READ` flag or on a directory.
    pub fn read(&mut self, fs: &RamFs, buf: &mut [u8]) -> (r: Result<usize, FsError>)
        requires
            fs.wf(),
            old(self).inode < fs@.len(),
        ensures
            final(self).inode == old(self).inode,
            final(self).flags == old(self).flags,
            old(self).flags.bits & OpenFlags::READ != OpenFlags::READ ==> r == Err::<usize, FsError>(
                FsError::Io) && *final(self) == *old(self) && final(buf)@ == old(buf)@,
            old(self).flags.bits & OpenFlags::READ == OpenFlags::READ ==> match fs@[old(self).inode as int].data {
                NodeModel::Dir(_) => r == Err::<usize, FsError>(FsError::Io) && *final(self) == *old(self)
                    && final(buf)@ == old(buf)@,
                NodeModel::File(v) => {
                    let off = old(self).offset as int;
                    let n = read_count(v.len() as int, off, old(buf)@.len() as int);
                    &&& r == Ok::<usize, FsError>(n as usize)
                    &&& final(self).offset == off + n
                    &&& final(buf)@ == read_into(v, off, old(buf)@)
                },
            },
    {
        if !self.flags.contains(OpenFlags::READ) {
            return Err(FsError::Io);
        }
        let node = &fs.nodes[self.inode];
        assert(node@ == fs@[self.inode as int]);
        let res = node.read_at(self.offset, buf);
        proof {
            assert(node_ok(fs@[self.inode as int], fs@.len() as int));
        }
        let n = match res {
            Ok(n) => n,
            Err(e) => {
                return Err(e);
            },
        };
        self.offset = self.offset + n;
        Ok(n)
    }

    /// The offset a write starts at: the end of the file with `APPEND`,
    /// the current offset otherwise.
    pub open spec fn write_offset(&self, fs: Seq<RamNodeModel>) -> int {
        if self.flags.bits & OpenFlags::APPEND == OpenFlags::APPEND {
            match fs[self.inode as int].data {
                NodeModel::File(v) => v.len() as int,
                NodeModel::Dir(es) => es.len() as int,
            }
        } else {
            self.offset as int
        }
    }

    /// Write `buf` at the current offset (at the end with `APPEND`) and
    /// advance past it. Refused with `Io` without the `WRITE` flag or on a
    /// directory.
    pub fn write(&mut self, fs: &mut RamFs, buf: &[u8]) -> (r: Result<usize, FsError>)
        requires
            old(fs).wf(),
            old(self).inode < old(fs)@.len(),
            old(self).flags.bits & OpenFlags::WRITE == OpenFlags::WRITE ==> old(self).write_offset(
                old(fs)@,
            ) + buf@.len() <= usize::MAX,
        ensures
            final(fs).wf(),
            final(self).inode == old(self).inode,
            final(self).flags == old(self).flags,
            old(self).flags.bits & OpenFlags::WRITE != OpenFlags::WRITE ==> r == Err::<usize, FsError>(
                FsError::Io) && *final(self) == *old(self) && final(fs)@ == old(fs)@,
            old(self).flags.bits & OpenFlags::WRITE == OpenFlags::WRITE ==> {
                let off = old(self).write_offset(old(fs)@);
                match old(fs)@[old(self).inode as int].data {
                    NodeModel::Dir(_) => r == Err::<usize, FsError>(FsError::Io) && final(self).offset
                        == off && final(fs)@ == old(fs)@,
                    NodeModel::File(v) => {
                        &&& r == Ok::<usize, FsError>(buf@.len() as usize)
                        &&& final(self).offset == off + buf@.len()
                        &&& final(fs)@ == old(fs)@.update(
                            old(self).inode as int,
                            RamNodeModel {
                                name: old(fs)@[old(self).inode as int].name,
                                data: NodeModel::File(written(v, off, buf@)),
                            },
                        )
                    },
                }
            },
    {
        if !self.flags.contains(OpenFlags::WRITE) {
            return Err(FsError::Io);
        }
        if self.flags.contains(OpenFlags::APPEND) {
            self.offset = fs.nodes[self.inode].size();
        }
        let ghost fs0 = fs@;
        let i = self.inode;
        let res = fs.nodes[i].write_at(self.offset, buf);
        proof {
            assert(node_ok(fs0[i as int], fs0.len() as int));
            if res is Ok {
                assert(fs@ =~= fs0.update(i as int, fs@[i as int]));
            } else {
                assert(fs@ =~= fs0);
            }
            assert forall|j: int| 0 <= j < fs@.len() implies #[trigger] node_ok(fs@[j], fs@.len() as int) by {
                assert(node_ok(fs0[j], fs0.len() as int));
            }
        }
        let n = match res {
            Ok(n) => n,
            Err(e) => {
                return Err(e);
            },
        };
        self.offset = self.offset + n;
        Ok(n)
    }

    /// Move the offset to `off`.
    pub fn seek(&mut self, off: usize)
        ensures
            final(self).offset == off,
            final(self).inode == old(self).inode,
            final(self).flags == old(self).flags,
    {
        self.offset = off;
    }
}

/// The non-empty `/`-separated components of `p` from byte `i` on.
pub open spec fn components_from(p: Seq<u8>, i: int) -> Seq<Seq<u8>>
    decreases p.len() - i,
{
    if i < 0 || i >= p.len() {
        Seq::empty()
    } else {
        let k = find_first(p, 0x2f, i);
        proof {
            lemma_find_first_bounds(p, 0x2f, i);
        }
        let rest = if k < p.len() {
            components_from(p, k + 1)
        } else {
            Seq::empty()
        };
        if k == i {
            rest
        } else {
            seq![p.subrange(i, k)] + rest
        }
    }
}

/// Follow the components `comps` from node `cur`.
pub open spec fn walk(fs: Seq<RamNodeModel>, cur: InodeRef, comps: Seq<Seq<u8>>) -> Result<InodeRef, FsError>
    decreases comps.len(),
{
    if comps.len() == 0 {
        Ok(cur)
    } else {
        match fs[cur as int].data {
            NodeModel::File(_) => Err(FsError::NotADirectory),
            NodeModel::Dir(es) => match find_key(es, comps[0]) {
                None => Err(FsError::NotFound),
                Some(c) => walk(fs, c, comps.drop_first()),
            },
        }
    }
}

/// The inode the path with bytes `p` names, or why there is none.
pub open spec fn resolve_spec(fs: Seq<RamNodeModel>, p: Seq<u8>) -> Result<InodeRef, FsError> {
    if p.len() == 0 {
        Err(FsError::InvalidPath)
    } else {
        walk(fs, ROOT_INODE, components_from(p, if p[0] == 0x2f { 1 } else { 0 }))
    }
}

/// A walk that succeeds ends inside the node table.
pub proof fn lemma_walk_in_table(fs: Seq<RamNodeModel>, cur: InodeRef, comps: Seq<Seq<u8>>)
    requires
        cur < fs.len(),
        forall|i: int| 0 <= i < fs.len() ==> #[trigger] node_ok(fs[i], fs.len() as int),
    ensures
        walk(fs, cur, comps) is Ok ==> walk(fs, cur, comps)->Ok_0 < fs.len(),
    decreases comps.len(),
{
    if comps.len() > 0 {
        assert(node_ok(fs[cur as int], fs.len() as int));
        match fs[cur as int].data {
            NodeModel::Dir(es) => {
                match find_key(es, comps[0]) {
                    Some(c) => {
                        crate::fs::ramfs::lemma_first_key(es, comps[0], 0);
                        lemma_walk_in_table(fs, c, comps.drop_first());
                    },
                    None => {},
                }
            },
            NodeModel::File(_) => {},
        }
    }
}

/// Resolve a path such as `/foo/bar` to an inode.
pub fn resolve(fs: &RamFs, path: &str) -> (r: Result<InodeRef, FsError>)
    requires
        fs.wf(),
    ensures
        r == resolve_spec(fs@, path.spec_bytes()),
        r is Ok ==> r->Ok_0 < fs@.len(),
{
    let b = path.as_bytes();
    if b.len() == 0 {
        return Err(FsError::InvalidPath);
    }
    let ghost start: int = if b@[0] == 0x2f { 1 } else { 0 };
    let mut i: usize = if b[0] == 0x2f { 1 } else { 0 };
    let mut cur: InodeRef = ROOT_INODE;
    while i < b.len()
        invariant
            b@ == path.spec_bytes(),
            fs.wf(),
            i <= b@.len(),
            cur < fs@.len(),
            b@.len() > 0,
            start == (if b@[0] == 0x2f { 1int } else { 0int }),
            walk(fs@, ROOT_INODE, components_from(b@, start)) == walk(fs@, cur, components_from(b@, i as int)),
        decreases b.len() - i,
    {
        let k = find_byte(b, 0x2f, i);
        proof {
            lemma_find_first_bounds(b@, 0x2f, i as int);
        }
        let ghost rest = if k < b@.len() {
            components_from(b@, k + 1)
        } else {
            Seq::empty()
        };
        if k > i {
            let ghost seg = b@.subrange(i as int, k as int);
            assert(components_from(b@, i as int) == seq![seg] + rest);
            assert((seq![seg] + rest).drop_first() =~= rest);
            let comp = &b[i..k];
            assert(comp@ =~= seg);
            assert(node_ok(fs@[cur as int], fs@.len() as int));
            let next = match &fs.nodes[cur].data {
                NodeData::File(_) => {
                    return Err(FsError::NotADirectory);
                },
                NodeData::Dir(es) => {
                    let j = RamNode::entry_pos(es, comp);
                    if j >= es.len() {
                        return Err(FsError::NotFound);
                    }
                    proof {
                        crate::fs::ramfs::lemma_first_key(entries_view(es@), comp@, 0);
                    }
                    es[j].1
                },
            };
            cur = next;
        } else {
            assert(components_from(b@, i as int) == rest);
        }
        i = if k < b.len() {
            k + 1
        } else {
            b.len()
        };
    }
    assert(components_from(b@, i as int) =~= Seq::<Seq<u8>>::empty());
    Ok(cur)
}

/// A byte below 0x80 in valid UTF-8 is a whole character: there is a
/// character boundary on each side of it.
proof fn lemma_ascii_boundaries(bytes: Seq<u8>, i: int)
    requires
        valid_utf8(bytes),
        0 <= i < bytes.len(),
        bytes[i] <= 0x7f,
    ensures
        is_char_boundary(bytes, i),
        is_char_boundary(bytes, i + 1),
    decreases bytes.len(),
{
    reveal_with_fuel(is_char_boundary, 2);
    let l = length_of_first_scalar(bytes);
    let pop = pop_first_scalar(bytes);
    assert(valid_utf8(pop));
    if i < l {
        assert(l == 1 && i == 0);
    } else {
        assert(pop[i - l] == bytes[i]);
        lemma_ascii_boundaries(pop, i - l);
    }
}

/// The bytes of the parent path and of the last component of the path
/// with bytes `b`: split at the last `/`; the parent of a name with no
/// `/`, or directly under the leading `/`, is `/`.
pub open spec fn split_parent_spec(b: Seq<u8>) -> (Seq<u8>, Seq<u8>) {
    let j = find_last(b, 0x2f, b.len() as int);
    if j < 0 {
        (seq![0x2fu8], b)
    } else if j == 0 {
        (seq![0x2fu8], b.subrange(1, b.len() as int))
    } else {
        (b.subrange(0, j), b.subrange(j + 1, b.len() as int))
    }
}

/// Split `path` into its parent path and its last component.
pub fn split_parent(path: &str) -> (r: (&str, &str))
    ensures
        r.0.spec_bytes() == split_parent_spec(path.spec_bytes()).0,
        r.1.spec_bytes() == split_parent_spec(path.spec_bytes()).1,
{
    let b = path.as_bytes();
    let ghost pb = path.spec_bytes();
    assert(b@.len() == b.len());
    proof {
        vstd::utf8::encode_utf8_valid_utf8(path@);
        lemma_find_last_bounds(pb, 0x2f, pb.len() as int);
    }
    let slash = "/";
    proof {
        reveal_strlit("/");
        reveal_with_fuel(vstd::utf8::encode_utf8, 2);
        assert(slash@ =~= seq!['/']);
        assert(('/' as u32) == 0x2f);
        assert((0x2fu32 & 0x7fu32) as u8 == 0x2fu8) by (bit_vector);
        assert(vstd::utf8::encode_scalar(0x2fu32) =~= seq![0x2fu8]);
        assert(slash.spec_bytes() =~= seq![0x2fu8]);
    }
    match rfind_byte(b, 0x2f) {
        None => (slash, path),
        Some(j) => {
            proof {
                lemma_ascii_boundaries(pb, j as int);
            }
            let name = path.split_at(j + 1).1;
            if j == 0 {
                (slash, name)
            } else {
                (path.split_at(j).0, name)
            }
        },
    }
}

/// The root of the unified namespace: the filesystem mounted at "/",
/// once [`init`] has run.
pub struct Root {
    pub mount: Option<RamFs>,
}

/// What `Root::open` leaves: the node table `fs1` and the result `r`
/// after opening the path with bytes `pb` with `flags` on table `fs0`.
pub open spec fn open_spec(
    fs0: Seq<RamNodeModel>,
    fs1: Seq<RamNodeModel>,
    pb: Seq<u8>,
    flags: OpenFlags,
    r: Result<File, FsError>,
) -> bool {
    match resolve_spec(fs0, pb) {
        Ok(i) => r == Ok::<File, FsError>(File { inode: i, offset: 0, flags }) && fs1 == fs0,
        Err(e) => if e == FsError::NotFound && flags.bits & OpenFlags::CREATE == OpenFlags::CREATE {
            let parts = split_parent_spec(pb);
            let name = decode_utf8(parts.1);
            match resolve_spec(fs0, parts.0) {
                Err(e2) => r == Err::<File, FsError>(e2) && fs1 == fs0,
                Ok(parent) => match r {
                    Ok(f) => f.offset == 0 && f.flags == flags && RamFs::create_spec(
                        fs0,
                        fs1,
                        parent,
                        name,
                        RamNodeModel { name, data: NodeModel::File(Seq::empty()) },
                        Ok(f.inode),
                    ),
                    Err(e3) => RamFs::create_spec(
                        fs0,
                        fs1,
                        parent,
                        name,
                        RamNodeModel { name, data: NodeModel::File(Seq::empty()) },
                        Err(e3),
                    ),
                },
            }
        } else {
            r == Err::<File, FsError>(e) && fs1 == fs0
        },
    }
}

impl Root {
    /// A root with nothing mounted yet.
    pub fn new() -> (r: Self)
        ensures
            r.mount is None,
    {
        Root { mount: None }
    }

    /// A well-formed filesystem is mounted.
    pub open spec fn mounted(&self) -> bool {
        self.mount is Some && self.mount->Some_0.wf()
    }

    /// The mounted node table.
    pub open spec fn table(&self) -> Seq<RamNodeModel> {
        self.mount->Some_0@
    }

    /// Resolve a path such as `/foo/bar` to an inode.
    pub fn resolve(&self, path: &str) -> (r: Result<InodeRef, FsError>)
        requires
            self.mounted(),
        ensures
            r == resolve_spec(self.table(), path.spec_bytes()),
            r is Ok ==> r->Ok_0 < self.table().len(),
    {
        match &self.mount {
            Some(fs) => resolve(fs, path),
            None => Err(FsError::InvalidPath),
        }
    }

    /// Names of the entries of "/", in increasing byte order.
    pub fn list_root(&self) -> (r: Vec<String>)
        requires
            self.mounted(),
        ensures
            match self.table()[ROOT_INODE as int].data {
                NodeModel::Dir(es) => r@.len() == es.len() && forall|k: int| 0 <= k < es.len() ==> #[trigger] r@[k]@ == es[k].0,
                NodeModel::File(_) => r@.len() == 0,
            },
    {
        match &self.mount {
            Some(fs) => fs.nodes[ROOT_INODE].list(),
            None => Vec::new(),
        }
    }

    /// Create a file under "/".
    pub fn create_file(&mut self, name: &str, contents: &[u8]) -> (r: Result<InodeRef, FsError>)
        requires
            old(self).mounted(),
        ensures
            final(self).mounted(),
            RamFs::create_spec(
                old(self).table(),
                final(self).table(),
                ROOT_INODE,
                name@,
                RamNodeModel { name: name@, data: NodeModel::File(contents@) },
                r,
            ),
    {
        match &mut self.mount {
            Some(fs) => fs.create_file(ROOT_INODE, name, contents),
            None => Err(FsError::Io),
        }
    }

    /// Create a directory under "/".
    pub fn create_dir(&mut self, name: &str) -> (r: Result<InodeRef, FsError>)
        requires
            old(self).mounted(),
        ensures
            final(self).mounted(),
            RamFs::create_spec(
                old(self).table(),
                final(self).table(),
                ROOT_INODE,
                name@,
                RamNodeModel { name: name@, data: NodeModel::Dir(Seq::empty()) },
                r,
            ),
    {
        match &mut self.mount {
            Some(fs) => fs.create_dir(ROOT_INODE, name),
            None => Err(FsError::Io),
        }
    }

    /// Open a path with `flags`; with `CREATE`, a missing file is created
    /// empty in its parent directory.
    pub fn open(&mut self, path: &str, flags: OpenFlags) -> (r: Result<File, FsError>)
        requires
            old(self).mounted(),
        ensures
            final(self).mounted(),
            open_spec(old(self).table(), final(self).table(), path.spec_bytes(), flags, r),
            r is Ok ==> r->Ok_0.inode < final(self).table().len(),
    {
        let ghost fs0 = self.table();
        let res = self.resolve(path);
        match res {
            Ok(i) => Ok(File { inode: i, offset: 0, flags }),
            Err(FsError::NotFound) => {
                if flags.contains(OpenFlags::CREATE) {
                    let (parent_path, name) = split_parent(path);
                    let parent = match self.resolve(parent_path) {
                        Ok(p) => p,
                        Err(e) => {
                            return Err(e);
                        },
                    };
                    proof {
                        vstd::utf8::encode_utf8_decode_utf8(name@);
                    }
                    let no_bytes: Vec<u8> = Vec::new();
                    let created = match &mut self.mount {
                        Some(fs) => fs.create_file(parent, name, no_bytes.as_slice()),
                        None => Err(FsError::Io),
                    };
                    match created {
                        Ok(i) => Ok(File { inode: i, offset: 0, flags }),
                        Err(e) => Err(e),
                    }
                } else {
                    Err(FsError::NotFound)
                }
            },
            Err(e) => Err(e),
        }
    }

    /// Remove a file or an empty directory.
    pub fn remove(&mut self, path: &str) -> (r: Result<(), FsError>)
        requires
            old(self).mounted(),
        ensures
            final(self).mounted(),
            ({
                let parts = split_parent_spec(path.spec_bytes());
                match resolve_spec(old(self).table(), parts.0) {
                    Err(e) => r == Err::<(), FsError>(e) && final(self).table() == old(self).table(),
                    Ok(parent) => RamFs::remove_spec(
                        old(self).table(),
                        final(self).table(),
                        parent,
                        decode_utf8(parts.1),
                        r,
                    ),
                }
            }),
    {
        match &mut self.mount {
            Some(fs) => {
                let (parent_path, name) = split_parent(path);
                let parent = match resolve(fs, parent_path) {
                    Ok(p) => p,
                    Err(e) => {
                        return Err(e);
                    },
                };
                proof {
                    vstd::utf8::encode_utf8_decode_utf8(name@);
                }
                fs.remove(parent, name)
            },
            None => Err(FsError::Io),
        }
    }
}

/// Mount a fresh ramfs at "/", unless one is mounted already.
pub fn init(root: &mut Root)
    ensures
        old(root).mount is None ==> final(root).mounted() && final(root).table() == seq![
            RamNodeModel { name: Seq::empty(), data: NodeModel::Dir(Seq::empty()) },
        ],
        old(root).mount is Some ==> *final(root) == *old(root),
{
    if root.mount.is_none() {
        root.mount = Some(crate::fs::ramfs::new_root());
    }
}

/// The text `String::from_utf8_lossy` makes of `bytes`: their UTF-8
/// decoding, with every invalid sequence replaced by U+FFFD.
pub uninterp spec fn utf8_lossy(bytes: Seq<u8>) -> Seq<char>;

/// `String::from_utf8_lossy`, owned. Its result depends on the bytes
/// alone; on valid UTF-8 it is their decoding.
#[verifier::external_body]
fn lossy_string(bytes: &[u8]) -> (s: String)
    ensures
        s@ == utf8_lossy(bytes@),
        valid_utf8(bytes@) ==> s@ == decode_utf8(bytes@),
{
    String::from_utf8_lossy(bytes).into_owned()
}

/// Read a whole file as text (invalid UTF-8 replaced), for the shell's
/// `cat`.
pub fn read_to_string(root: &Root, path: &str) -> (r: Result<String, FsError>)
    requires
        root.mounted(),
    ensures
        match resolve_spec(root.table(), path.spec_bytes()) {
            Err(e) => r == Err::<String, FsError>(e),
            Ok(i) => match root.table()[i as int].data {
                NodeModel::Dir(_) => r == Err::<String, FsError>(FsError::Io),
                NodeModel::File(v) => r is Ok && r->Ok_0@ == utf8_lossy(v),
            },
        },
{
    let inode = match root.resolve(path) {
        Ok(i) => i,
        Err(e) => {
            return Err(e);
        },
    };
    let fs = match &root.mount {
        Some(fs) => fs,
        None => {
            return Err(FsError::Io);
        },
    };
    let mut f = File { inode, offset: 0, flags: OpenFlags { bits: OpenFlags::READ } };
    assert(1u32 & 1u32 == 1u32) by (bit_vector);
    proof {
        assert(node_ok(fs@[inode as int], fs@.len() as int));
    }
    let mut out: Vec<u8> = Vec::new();
    let mut chunk = [0u8; 256];
    let mut done = false;
    while !done
        invariant
            fs.wf(),
            fs@ == root.table(),
            resolve_spec(root.table(), path.spec_bytes()) == Ok::<InodeRef, FsError>(inode),
            f.inode == inode,
            inode < fs@.len(),
            f.flags.bits & OpenFlags::READ == OpenFlags::READ,
            chunk@.len() == 256,
            match fs@[inode as int].data {
                NodeModel::Dir(_) => f.offset == 0 && out@.len() == 0 && !done,
                NodeModel::File(v) => {
                    &&& f.offset <= v.len()
                    &&& out@ == v.subrange(0, f.offset as int)
                    &&& done ==> f.offset == v.len()
                },
            },
        decreases (match fs@[inode as int].data {
            NodeModel::Dir(_) => 1int,
            NodeModel::File(v) => v.len() - f.offset + 1,
        }) - (if done { 1int } else { 0int }),
    {
        let ghost off0 = f.offset;
        let n = match f.read(fs, &mut chunk) {
            Ok(n) => n,
            Err(e) => {
                return Err(e);
            },
        };
        if n == 0 {
            done = true;
        } else {
            let mut k: usize = 0;
            let ghost out0 = out@;
            while k < n
                invariant
                    k <= n,
                    n <= chunk@.len(),
                    out@ == out0 + chunk@.subrange(0, k as int),
                decreases n - k,
            {
                out.push(chunk[k]);
                assert(chunk@.subrange(0, k + 1) =~= chunk@.subrange(0, k as int).push(chunk@[k as int]));
                k = k + 1;
            }
            proof {
                match fs@[inode as int].data {
                    NodeModel::File(v) => {
                        assert(chunk@.subrange(0, n as int) =~= v.subrange(off0 as int, off0 + n));
                        assert(out@ =~= v.subrange(0, f.offset as int));
                    },
                    NodeModel::Dir(_) => {},
                }
            }
        }
    }
    proof {
        match fs@[inode as int].data {
            NodeModel::File(v) => {
                assert(out@ =~= v);
            },
            NodeModel::Dir(_) => {},
        }
    }
    Ok(lossy_string(out.as_slice()))
}

} // verus!
