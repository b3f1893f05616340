//! In-memory filesystem.
//!
//! The default mount at "/". Nodes live in a table ([`RamFs`]) and refer
//! to each other by slot ([`InodeRef`]). A node is a file (a byte buffer)
//! or a directory (a list of `(name, inode)` entries kept in increasing
//! byte order of the names, so no name occurs twice).

use vstd::prelude::*;
use vstd::utf8::encode_utf8;
use vstd::string::StringSliceAdditionalSpecFns;
use crate::fs::inode::{FileType, Inode, InodeRef};
use crate::fs::vfs::FsError;
use crate::hal::text::bytes_eq;

verus! {

/// Slot of the root directory.
pub const ROOT_INODE: usize = 0;

/// The bytes a name is stored and compared by: its UTF-8 encoding.
pub open spec fn key(name: Seq<char>) -> Seq<u8> {
    encode_utf8(name)
}

/// Lexicographic byte order: `a` sorts strictly before `b`.
pub open spec fn bytes_lt(a: Seq<u8>, b: Seq<u8>) -> bool
    decreases a.len(),
{
    if a.len() == 0 {
        b.len() > 0
    } else if b.len() == 0 {
        false
    } else if a[0] != b[0] {
        a[0] < b[0]
    } else {
        bytes_lt(a.drop_first(), b.drop_first())
    }
}

/// No byte string sorts before itself.
pub proof fn lemma_bytes_lt_irreflexive(a: Seq<u8>)
    ensures
        !bytes_lt(a, a),
    decreases a.len(),
{
    if a.len() > 0 {
        lemma_bytes_lt_irreflexive(a.drop_first());
    }
}

/// Of two different byte strings, one sorts before the other.
pub proof fn lemma_bytes_lt_total(a: Seq<u8>, b: Seq<u8>)
    requires
        a != b,
    ensures
        bytes_lt(a, b) || bytes_lt(b, a),
    decreases a.len(),
{
    if a.len() == 0 && b.len() == 0 {
        assert(a =~= b);
    }
    if a.len() > 0 && b.len() > 0 && a[0] == b[0] {
        if a.drop_first() == b.drop_first() {
            assert(a =~= seq![a[0]] + a.drop_first());
            assert(b =~= seq![b[0]] + b.drop_first());
        }
        lemma_bytes_lt_total(a.drop_first(), b.drop_first());
    }
}

/// Sorting before is transitive.
pub proof fn lemma_bytes_lt_transitive(a: Seq<u8>, b: Seq<u8>, c: Seq<u8>)
    requires
        bytes_lt(a, b),
        bytes_lt(b, c),
    ensures
        bytes_lt(a, c),
    decreases a.len(),
{
    if a.len() > 0 && b.len() > 0 && c.len() > 0 && a[0] == b[0] && b[0] == c[0] {
        lemma_bytes_lt_transitive(a.drop_first(), b.drop_first(), c.drop_first());
    }
}

/// Whether `a` sorts strictly before `b`, byte by byte.
pub fn bytes_less(a: &[u8], b: &[u8]) -> (r: bool)
    ensures
        r == bytes_lt(a@, b@),
{
    let mut i: usize = 0;
    assert(a@.skip(0) =~= a@);
    assert(b@.skip(0) =~= b@);
    while i < a.len() && i < b.len() && a[i] == b[i]
        invariant
            i <= a@.len(),
            i <= b@.len(),
            bytes_lt(a@, b@) == bytes_lt(a@.skip(i as int), b@.skip(i as int)),
        decreases a.len() - i,
    {
        assert(a@.skip(i as int).drop_first() =~= a@.skip(i + 1));
        assert(b@.skip(i as int).drop_first() =~= b@.skip(i + 1));
        i = i + 1;
    }
    if i == a.len() {
        i < b.len()
    } else if i == b.len() {
        false
    } else {
        a[i] < b[i]
    }
}

/// Contents of a node, as values.
pub enum NodeModel {
    File(Seq<u8>),
    Dir(Seq<(Seq<char>, InodeRef)>),
}

/// A node, as values.
pub struct RamNodeModel {
    pub name: Seq<char>,
    pub data: NodeModel,
}

/// Contents of a node.
pub enum NodeData {
    File(Vec<u8>),
    Dir(Vec<(String, InodeRef)>),
}

/// A file's bytes after writing `buf` at `offset`: `buf` over the
/// range it covers, the old bytes elsewhere, zeros in any gap between
/// the old end and `offset`.
pub open spec fn written(v: Seq<u8>, offset: int, buf: Seq<u8>) -> Seq<u8> {
    let end = offset + buf.len();
    let len = if end > v.len() {
        end
    } else {
        v.len() as int
    };
    Seq::new(
        len as nat,
        |i: int|
            if offset <= i < end {
                buf[i - offset]
            } else if i < v.len() {
                v[i]
            } else {
                0u8
            },
    )
}

/// Bytes a read of a `len`-byte file at `offset` into a buffer of `cap`
/// bytes copies: what is left of the file, at most `cap`.
pub open spec fn read_count(len: int, offset: int, cap: int) -> int {
    if offset >= len {
        0
    } else if len - offset <= cap {
        len - offset
    } else {
        cap
    }
}

/// A buffer after reading file bytes `v` from `offset` into it: the
/// bytes read in front, the old contents after them.
pub open spec fn read_into(v: Seq<u8>, offset: int, buf: Seq<u8>) -> Seq<u8> {
    let n = read_count(v.len() as int, offset, buf.len() as int);
    Seq::new(
        buf.len(),
        |i: int|
            if i < n {
                v[offset + i]
            } else {
                buf[i]
            },
    )
}

/// A file or directory of the in-memory filesystem.
pub struct RamNode {
    pub name: String,
    pub data: NodeData,
}

/// Directory entries as `(name, inode)` values.
pub open spec fn entries_view(es: Seq<(String, InodeRef)>) -> Seq<(Seq<char>, InodeRef)> {
    Seq::new(es.len(), |k: int| (es[k].0@, es[k].1))
}

impl View for RamNode {
    type V = RamNodeModel;

    open spec fn view(&self) -> RamNodeModel {
        RamNodeModel {
            name: self.name@,
            data: match self.data {
                NodeData::File(v) => NodeModel::File(v@),
                NodeData::Dir(es) => NodeModel::Dir(entries_view(es@)),
            },
        }
    }
}

/// Entries in strictly increasing byte order of their names.
pub open spec fn sorted_entries(es: Seq<(Seq<char>, InodeRef)>) -> bool {
    forall|a: int, b: int| 0 <= a < b < es.len() ==> bytes_lt(#[trigger] key(es[a].0), #[trigger] key(es[b].0))
}

/// Position of the first entry at or after `i` whose name has the bytes
/// `k`, or the number of entries if there is none.
pub open spec fn first_key(es: Seq<(Seq<char>, InodeRef)>, k: Seq<u8>, i: int) -> int
    decreases es.len() - i,
{
    if i < 0 || i >= es.len() {
        es.len() as int
    } else if key(es[i].0) == k {
        i
    } else {
        first_key(es, k, i + 1)
    }
}

/// The inode of the entry whose name has the bytes `k`.
pub open spec fn find_key(es: Seq<(Seq<char>, InodeRef)>, k: Seq<u8>) -> Option<InodeRef> {
    let i = first_key(es, k, 0);
    if i < es.len() {
        Some(es[i].1)
    } else {
        None
    }
}

/// `first_key` finds a match, or there is none from `i` on.
pub proof fn lemma_first_key(es: Seq<(Seq<char>, InodeRef)>, k: Seq<u8>, i: int)
    requires
        0 <= i <= es.len(),
    ensures
        i <= first_key(es, k, i) <= es.len(),
        first_key(es, k, i) < es.len() ==> key(es[first_key(es, k, i)].0) == k,
        forall|j: int| i <= j < first_key(es, k, i) ==> #[trigger] key(es[j].0) != k,
    decreases es.len() - i,
{
    if i < es.len() && key(es[i].0) != k {
        lemma_first_key(es, k, i + 1);
    }
}

/// A node's model is sound for a table of `n` nodes: a file's length
/// fits a `usize`, a directory's entries are sorted and point inside the
/// table.
pub open spec fn node_ok(m: RamNodeModel, n: int) -> bool {
    match m.data {
        NodeModel::File(v) => v.len() <= usize::MAX,
        NodeModel::Dir(es) => sorted_entries(es) && forall|k: int| 0 <= k < es.len() ==> #[trigger] es[k].1 < n,
    }
}

impl RamNode {
    /// A file named `name` holding `contents`.
    pub fn new_file(name: &str, contents: &[u8]) -> (n: Self)
        ensures
            n@ == (RamNodeModel { name: name@, data: NodeModel::File(contents@) }),
    {
        let mut v: Vec<u8> = Vec::new();
        let mut i: usize = 0;
        while i < contents.len()
            invariant
                i <= contents@.len(),
                v@ == contents@.take(i as int),
            decreases contents.len() - i,
        {
            v.push(contents[i]);
            assert(contents@.take(i + 1) =~= contents@.take(i as int).push(contents@[i as int]));
            i = i + 1;
        }
        assert(contents@.take(contents@.len() as int) =~= contents@);
        RamNode { name: name.to_owned(), data: NodeData::File(v) }
    }

    /// An empty directory named `name`.
    pub fn new_dir(name: &str) -> (n: Self)
        ensures
            n@ == (RamNodeModel { name: name@, data: NodeModel::Dir(Seq::empty()) }),
    {
        let n = RamNode { name: name.to_owned(), data: NodeData::Dir(Vec::new()) };
        assert(entries_view(Seq::<(String, InodeRef)>::empty()) =~= Seq::empty());
        n
    }

    /// Position of the first entry whose name has the bytes `nb` (the
    /// number of entries if there is none).
    pub fn entry_pos(es: &Vec<(String, InodeRef)>, nb: &[u8]) -> (r: usize)
        ensures
            r == first_key(entries_view(es@), nb@, 0),
    {
        let ghost ev = entries_view(es@);
        let mut i: usize = 0;
        while i < es.len()
            invariant
                i <= es@.len(),
                ev == entries_view(es@),
                first_key(ev, nb@, i as int) == first_key(ev, nb@, 0),
            decreases es.len() - i,
        {
            let eb = es[i].0.as_str().as_bytes();
            if bytes_eq(eb, nb) {
                return i;
            }
            i = i + 1;
        }
        i
    }
}

impl Inode for RamNode {
    fn ftype(&self) -> (t: FileType)
        ensures
            t == (match self@.data {
                NodeModel::File(_) => FileType::Regular,
                NodeModel::Dir(_) => FileType::Directory,
            }),
    {
        match &self.data {
            NodeData::File(_) => FileType::Regular,
            NodeData::Dir(_) => FileType::Directory,
        }
    }

    fn name(&self) -> (s: String)
        ensures
            s@ == self@.name,
    {
        self.name.clone()
    }

    /// Bytes of a file, entries of a directory.
    fn size(&self) -> (n: usize)
        ensures
            n == (match self@.data {
                NodeModel::File(v) => v.len(),
                NodeModel::Dir(es) => es.len(),
            }),
    {
        match &self.data {
            NodeData::File(v) => v.len(),
            NodeData::Dir(m) => m.len(),
        }
    }

    /// Copies `min(len - offset, buf.len())` bytes of a file from `offset`
    /// (none at or past the end); a directory is refused with `Io`.
    fn read_at(&self, offset: usize, buf: &mut [u8]) -> (r: Result<usize, FsError>)
        ensures
            match self@.data {
                NodeModel::Dir(_) => r == Err::<usize, FsError>(FsError::Io) && final(buf)@ == old(buf)@,
                NodeModel::File(v) => {
                    &&& r == Ok::<usize, FsError>(read_count(v.len() as int, offset as int, old(buf)@.len() as int) as usize)
                    &&& final(buf)@ == read_into(v, offset as int, old(buf)@)
                },
            },
    {
        match &self.data {
            NodeData::File(v) => {
                if offset >= v.len() {
                    assert(buf@ =~= Seq::new(old(buf)@.len(), |i: int| old(buf)@[i]));
                    return Ok(0);
                }
                let n = if v.len() - offset <= buf.len() {
                    v.len() - offset
                } else {
                    buf.len()
                };
                let mut i: usize = 0;
                while i < n
                    invariant
                        i <= n,
                        n <= buf@.len(),
                        offset + n <= v.len(),
                        buf@.len() == old(buf)@.len(),
                        forall|j: int| 0 <= j < i ==> buf@[j] == v@[offset + j],
                        forall|j: int| i <= j < buf@.len() ==> buf@[j] == old(buf)@[j],
                    decreases n - i,
                {
                    buf[i] = v[offset + i];
                    i = i + 1;
                }
                assert(buf@ =~= Seq::new(
                    old(buf)@.len(),
                    |i: int|
                        if i < n {
                            v@[offset + i]
                        } else {
                            old(buf)@[i]
                        },
                ));
                Ok(n)
            },
            NodeData::Dir(_) => Err(FsError::Io),
        }
    }

    /// Writes `buf` into a file at `offset`, zero-filling any gap past the
    /// old end; a directory is refused with `Io`.
    fn write_at(&mut self, offset: usize, buf: &[u8]) -> (r: Result<usize, FsError>)
        ensures
            final(self)@.name == old(self)@.name,
            match old(self)@.data {
                NodeModel::Dir(_) => r == Err::<usize, FsError>(FsError::Io) && final(self)@ == old(self)@,
                NodeModel::File(v) => {
                    &&& r == Ok::<usize, FsError>(buf@.len() as usize)
                    &&& final(self)@.data == NodeModel::File(written(v, offset as int, buf@))
                },
            },
    {
        match &mut self.data {
            NodeData::File(v) => {
                let ghost v0 = v@;
                let end = offset + buf.len();
                while v.len() < end
                    invariant
                        v0.len() <= v@.len() <= end || v@.len() == v0.len(),
                        forall|j: int| 0 <= j < v0.len() ==> v@[j] == v0[j],
                        forall|j: int| v0.len() <= j < v@.len() ==> v@[j] == 0u8,
                    decreases end - v.len(),
                {
                    v.push(0u8);
                }
                let mut i: usize = 0;
                while i < buf.len()
                    invariant
                        i <= buf@.len(),
                        end == offset + buf@.len(),
                        v@.len() == (if end > v0.len() {
                            end as int
                        } else {
                            v0.len() as int
                        }),
                        forall|j: int|
                            0 <= j < v@.len() ==> v@[j] == (if offset <= j < offset + i {
                                buf@[j - offset]
                            } else if j < v0.len() {
                                v0[j]
                            } else {
                                0u8
                            }),
                    decreases buf.len() - i,
                {
                    v.set(offset + i, buf[i]);
                    i = i + 1;
                }
                let ghost len = if end > v0.len() {
                    end as int
                } else {
                    v0.len() as int
                };
                assert(v@ =~= Seq::new(
                    len as nat,
                    |i: int|
                        if offset <= i < end {
                            buf@[i - offset]
                        } else if i < v0.len() {
                            v0[i]
                        } else {
                            0u8
                        },
                ));
                Ok(buf.len())
            },
            NodeData::Dir(_) => Err(FsError::Io),
        }
    }

    /// Names of a directory's entries, in order; none for a file.
    fn list(&self) -> (r: Vec<String>)
        ensures
            r@.len() == (match self@.data {
                NodeModel::File(_) => 0,
                NodeModel::Dir(es) => es.len(),
            }),
            forall|k: int|
                0 <= k < r@.len() ==> match self@.data {
                    NodeModel::File(_) => false,
                    NodeModel::Dir(es) => #[trigger] r@[k]@ == es[k].0,
                },
    {
        let mut out: Vec<String> = Vec::new();
        match &self.data {
            NodeData::Dir(m) => {
                let mut i: usize = 0;
                while i < m.len()
                    invariant
                        i <= m@.len(),
                        out@.len() == i,
                        forall|k: int| 0 <= k < i ==> #[trigger] out@[k]@ == m@[k].0@,
                    decreases m.len() - i,
                {
                    out.push(m[i].0.clone());
                    i = i + 1;
                }
            },
            NodeData::File(_) => {},
        }
        out
    }

    /// The inode of the directory entry named `name`; none for a file.
    fn lookup(&self, name: &str) -> (r: Option<InodeRef>)
        ensures
            r == (match self@.data {
                NodeModel::File(_) => None,
                NodeModel::Dir(es) => find_key(es, name.spec_bytes()),
            }),
    {
        match &self.data {
            NodeData::Dir(m) => {
                let i = RamNode::entry_pos(m, name.as_bytes());
                if i < m.len() {
                    Some(m[i].1)
                } else {
                    None
                }
            },
            NodeData::File(_) => None,
        }
    }
}

/// Position of the first entry at or after `i` whose name does not sort
/// before the bytes `k` (where an entry named `k` goes).
pub open spec fn lt_prefix(es: Seq<(Seq<char>, InodeRef)>, k: Seq<u8>, i: int) -> int
    decreases es.len() - i,
{
    if i < 0 || i >= es.len() {
        es.len() as int
    } else if bytes_lt(key(es[i].0), k) {
        lt_prefix(es, k, i + 1)
    } else {
        i
    }
}

/// `lt_prefix` stops at the first entry not sorting before `k`.
pub proof fn lemma_lt_prefix(es: Seq<(Seq<char>, InodeRef)>, k: Seq<u8>, i: int)
    requires
        0 <= i <= es.len(),
    ensures
        i <= lt_prefix(es, k, i) <= es.len(),
        lt_prefix(es, k, i) < es.len() ==> !bytes_lt(key(es[lt_prefix(es, k, i)].0), k),
        forall|j: int| i <= j < lt_prefix(es, k, i) ==> bytes_lt(#[trigger] key(es[j].0), k),
    decreases es.len() - i,
{
    if i < es.len() && bytes_lt(key(es[i].0), k) {
        lemma_lt_prefix(es, k, i + 1);
    }
}

/// The node table of an in-memory filesystem.
pub struct RamFs {
    pub nodes: Vec<RamNode>,
}

impl View for RamFs {
    type V = Seq<RamNodeModel>;

    open spec fn view(&self) -> Seq<RamNodeModel> {
        Seq::new(self.nodes@.len(), |i: int| self.nodes@[i]@)
    }
}

/// A fresh filesystem: an empty root directory with the empty name.
pub fn new_root() -> (fs: RamFs)
    ensures
        fs.wf(),
        fs@ == seq![RamNodeModel { name: Seq::empty(), data: NodeModel::Dir(Seq::empty()) }],
{
    let root = RamNode::new_dir("");
    proof {
        reveal_strlit("");
        assert(""@ =~= Seq::<char>::empty());
        assert(root@.name =~= Seq::<char>::empty());
    }
    let mut nodes: Vec<RamNode> = Vec::new();
    nodes.push(root);
    let fs = RamFs { nodes };
    assert(fs@ =~= seq![RamNodeModel { name: Seq::empty(), data: NodeModel::Dir(Seq::empty()) }]);
    fs
}

impl RamFs {
    /// Slot 0 is a directory; every directory is sorted and points inside
    /// the table.
    pub open spec fn wf(&self) -> bool {
        &&& self@.len() > 0
        &&& self@[0].data is Dir
        &&& forall|i: int| 0 <= i < self@.len() ==> #[trigger] node_ok(self@[i], self@.len() as int)
    }

    /// The node table after creating `node` under the name `name` in
    /// directory `dir`, or the refusal.
    pub open spec fn create_spec(
        old_fs: Seq<RamNodeModel>,
        new_fs: Seq<RamNodeModel>,
        dir: InodeRef,
        name: Seq<char>,
        node: RamNodeModel,
        r: Result<InodeRef, FsError>,
    ) -> bool {
        match old_fs[dir as int].data {
            NodeModel::File(_) => r == Err::<InodeRef, FsError>(FsError::NotADirectory) && new_fs == old_fs,
            NodeModel::Dir(es) => if find_key(es, key(name)) is Some {
                r == Err::<InodeRef, FsError>(FsError::AlreadyExists) && new_fs == old_fs
            } else {
                &&& r == Ok::<InodeRef, FsError>(old_fs.len() as InodeRef)
                &&& new_fs == old_fs.update(
                    dir as int,
                    RamNodeModel {
                        name: old_fs[dir as int].name,
                        data: NodeModel::Dir(
                            es.insert(lt_prefix(es, key(name), 0), (name, old_fs.len() as InodeRef)),
                        ),
                    },
                ).push(node)
            },
        }
    }

    /// Add `node`, named `name`, to directory `dir`.
    fn create_node(&mut self, dir: InodeRef, name: &str, node: RamNode) -> (r: Result<InodeRef, FsError>)
        requires
            old(self).wf(),
            dir < old(self)@.len(),
            node@.name == name@,
            node_ok(node@, old(self)@.len() + 1int),
        ensures
            final(self).wf(),
            RamFs::create_spec(old(self)@, final(self)@, dir, name@, node@, r),
    {
        let ghost nb = name.spec_bytes();
        let p = match &self.nodes[dir].data {
            NodeData::File(_) => {
                return Err(FsError::NotADirectory);
            },
            NodeData::Dir(es) => {
                let ghost ev = entries_view(es@);
                let i = RamNode::entry_pos(es, name.as_bytes());
                if i < es.len() {
                    return Err(FsError::AlreadyExists);
                }
                proof {
                    lemma_first_key(ev, nb, 0);
                }
                let nbytes = name.as_bytes();
                let mut p: usize = 0;
                while p < es.len() && bytes_less(es[p].0.as_str().as_bytes(), nbytes)
                    invariant
                        p <= es@.len(),
                        ev == entries_view(es@),
                        nbytes@ == nb,
                        lt_prefix(ev, nb, p as int) == lt_prefix(ev, nb, 0),
                    decreases es.len() - p,
                {
                    p = p + 1;
                }
                p
            },
        };
        let ghost fs0 = self@;
        let new_idx = self.nodes.len();
        self.nodes.push(node);
        let ghost fs1 = self@;
        assert(fs1 =~= fs0.push(node@));
        let entry = (name.to_owned(), new_idx);
        match &mut self.nodes[dir].data {
            NodeData::Dir(es) => {
                let ghost ev0 = entries_view(es@);
                es.insert(p, entry);
                proof {
                    let ev1 = entries_view(es@);
                    assert(ev1 =~= ev0.insert(p as int, (name@, new_idx)));
                }
            },
            NodeData::File(_) => {},
        }
        proof {
            let es = match fs0[dir as int].data {
                NodeModel::Dir(es) => es,
                NodeModel::File(_) => Seq::empty(),
            };
            let ins = es.insert(p as int, (name@, new_idx));
            assert(node_ok(fs0[dir as int], fs0.len() as int));
            assert(sorted_entries(es));
            lemma_lt_prefix(es, nb, 0);
            lemma_first_key(es, nb, 0);
            assert(self@ =~= fs0.update(
                dir as int,
                RamNodeModel { name: fs0[dir as int].name, data: NodeModel::Dir(ins) },
            ).push(node@));
            assert forall|a: int, b: int| 0 <= a < b < ins.len() implies bytes_lt(#[trigger] key(ins[a].0), #[trigger] key(ins[b].0)) by {
                if b < p {
                } else if b == p {
                } else if a < p {
                    lemma_key_ne(es, nb, p as int);
                    if b - 1 > p {
                        lemma_bytes_lt_transitive(key(ins[a].0), nb, key(es[p as int].0));
                        lemma_bytes_lt_transitive(key(ins[a].0), key(es[p as int].0), key(ins[b].0));
                    } else {
                        lemma_bytes_lt_transitive(key(ins[a].0), nb, key(ins[b].0));
                    }
                } else if a == p {
                    lemma_key_ne(es, nb, p as int);
                    if b - 1 > p {
                        lemma_bytes_lt_transitive(nb, key(es[p as int].0), key(ins[b].0));
                    }
                } else {
                }
            }
            assert forall|i: int| 0 <= i < self@.len() implies #[trigger] node_ok(self@[i], self@.len() as int) by {
                if i != dir && i < fs0.len() {
                    assert(node_ok(fs0[i], fs0.len() as int));
                    match fs0[i].data {
                        NodeModel::Dir(es2) => {
                            assert forall|k: int| 0 <= k < es2.len() implies #[trigger] es2[k].1 < self@.len() by {
                            }
                        },
                        NodeModel::File(_) => {},
                    }
                } else if i == dir {
                    assert(node_ok(fs0[dir as int], fs0.len() as int));
                    assert forall|k: int| 0 <= k < ins.len() implies #[trigger] ins[k].1 < self@.len() by {
                        if k < p {
                        } else if k > p {
                            assert(ins[k] == es[k - 1]);
                        }
                    }
                }
            }
        }
        Ok(new_idx)
    }

    /// Create the file `name` holding `contents` in directory `dir`.
    pub fn create_file(&mut self, dir: InodeRef, name: &str, contents: &[u8]) -> (r: Result<InodeRef, FsError>)
        requires
            old(self).wf(),
            dir < old(self)@.len(),
        ensures
            final(self).wf(),
            RamFs::create_spec(
                old(self)@,
                final(self)@,
                dir,
                name@,
                RamNodeModel { name: name@, data: NodeModel::File(contents@) },
                r,
            ),
    {
        let node = RamNode::new_file(name, contents);
        assert(contents@.len() == contents.len());
        self.create_node(dir, name, node)
    }

    /// Create the empty directory `name` in directory `dir`.
    pub fn create_dir(&mut self, dir: InodeRef, name: &str) -> (r: Result<InodeRef, FsError>)
        requires
            old(self).wf(),
            dir < old(self)@.len(),
        ensures
            final(self).wf(),
            RamFs::create_spec(
                old(self)@,
                final(self)@,
                dir,
                name@,
                RamNodeModel { name: name@, data: NodeModel::Dir(Seq::empty()) },
                r,
            ),
    {
        let node = RamNode::new_dir(name);
        self.create_node(dir, name, node)
    }
}

impl RamFs {
    /// Whether node `t` is a directory with at least one entry.
    pub open spec fn nonempty_dir(fs: Seq<RamNodeModel>, t: int) -> bool {
        match fs[t].data {
            NodeModel::Dir(tes) => tes.len() > 0,
            NodeModel::File(_) => false,
        }
    }

    /// The node table after removing the entry `name` from directory
    /// `dir`, or the refusal.
    pub open spec fn remove_spec(
        old_fs: Seq<RamNodeModel>,
        new_fs: Seq<RamNodeModel>,
        dir: InodeRef,
        name: Seq<char>,
        r: Result<(), FsError>,
    ) -> bool {
        match old_fs[dir as int].data {
            NodeModel::File(_) => r == Err::<(), FsError>(FsError::NotADirectory) && new_fs == old_fs,
            NodeModel::Dir(es) => {
                let i = first_key(es, key(name), 0);
                if i >= es.len() {
                    r == Err::<(), FsError>(FsError::NotFound) && new_fs == old_fs
                } else if RamFs::nonempty_dir(old_fs, es[i].1 as int) {
                    r == Err::<(), FsError>(FsError::NotEmpty) && new_fs == old_fs
                } else {
                    &&& r == Ok::<(), FsError>(())
                    &&& new_fs == old_fs.update(
                        dir as int,
                        RamNodeModel { name: old_fs[dir as int].name, data: NodeModel::Dir(es.remove(i)) },
                    )
                }
            },
        }
    }

    /// Remove the entry `name` (a file or an empty directory) from
    /// directory `dir`. The node itself stays in the table, so handles
    /// already open on it keep working.
    pub fn remove(&mut self, dir: InodeRef, name: &str) -> (r: Result<(), FsError>)
        requires
            old(self).wf(),
            dir < old(self)@.len(),
        ensures
            final(self).wf(),
            RamFs::remove_spec(old(self)@, final(self)@, dir, name@, r),
    {
        let ghost fs0 = self@;
        let (k, target) = match &self.nodes[dir].data {
            NodeData::File(_) => {
                return Err(FsError::NotADirectory);
            },
            NodeData::Dir(es) => {
                let k = RamNode::entry_pos(es, name.as_bytes());
                if k >= es.len() {
                    return Err(FsError::NotFound);
                }
                (k, es[k].1)
            },
        };
        proof {
            assert(node_ok(fs0[dir as int], fs0.len() as int));
            let es_m = match fs0[dir as int].data {
                NodeModel::Dir(es) => es,
                NodeModel::File(_) => Seq::empty(),
            };
            assert(es_m[k as int].1 == target);
        }
        let nonempty = match &self.nodes[target].data {
            NodeData::Dir(tes) => tes.len() > 0,
            NodeData::File(_) => false,
        };
        if nonempty {
            return Err(FsError::NotEmpty);
        }
        match &mut self.nodes[dir].data {
            NodeData::Dir(es) => {
                let ghost ev0 = entries_view(es@);
                es.remove(k);
                proof {
                    assert(entries_view(es@) =~= ev0.remove(k as int));
                }
            },
            NodeData::File(_) => {},
        }
        proof {
            let es = match fs0[dir as int].data {
                NodeModel::Dir(es) => es,
                NodeModel::File(_) => Seq::empty(),
            };
            let rem = es.remove(k as int);
            assert(self@ =~= fs0.update(
                dir as int,
                RamNodeModel { name: fs0[dir as int].name, data: NodeModel::Dir(rem) },
            ));
            assert forall|a: int, b: int| 0 <= a < b < rem.len() implies bytes_lt(#[trigger] key(rem[a].0), #[trigger] key(rem[b].0)) by {
                let a0 = if a < k { a } else { a + 1 };
                let b0 = if b < k { b } else { b + 1 };
                assert(rem[a] == es[a0]);
                assert(rem[b] == es[b0]);
            }
            assert forall|i: int| 0 <= i < self@.len() implies #[trigger] node_ok(self@[i], self@.len() as int) by {
                assert(node_ok(fs0[i], fs0.len() as int));
                if i == dir {
                    assert forall|j: int| 0 <= j < rem.len() implies #[trigger] rem[j].1 < self@.len() by {
                        let j0 = if j < k { j } else { j + 1 };
                        assert(rem[j] == es[j0]);
                    }
                }
            }
        }
        Ok(())
    }
}

/// An entry that is absent sorts strictly after `k` at its insertion
/// point.
proof fn lemma_key_ne(es: Seq<(Seq<char>, InodeRef)>, k: Seq<u8>, p: int)
    requires
        p == lt_prefix(es, k, 0),
        p < es.len(),
        first_key(es, k, 0) == es.len(),
    ensures
        bytes_lt(k, key(es[p].0)),
{
    lemma_lt_prefix(es, k, 0);
    lemma_first_key(es, k, 0);
    assert(key(es[p].0) != k);
    lemma_bytes_lt_total(k, key(es[p].0));
}

/// `first_key` stops at `p` when the entry there is the first one with
/// the key `k`.
proof fn lemma_first_key_at(es: Seq<(Seq<char>, InodeRef)>, k: Seq<u8>, p: int)
    requires
        0 <= p < es.len(),
        key(es[p].0) == k,
        forall|j: int| 0 <= j < p ==> #[trigger] key(es[j].0) != k,
    ensures
        first_key(es, k, 0) == p,
{
    lemma_first_key(es, k, 0);
}

/// `first_key` runs off the end when no entry has the key `k`.
proof fn lemma_first_key_absent(es: Seq<(Seq<char>, InodeRef)>, k: Seq<u8>)
    requires
        forall|j: int| 0 <= j < es.len() ==> #[trigger] key(es[j].0) != k,
    ensures
        first_key(es, k, 0) == es.len(),
{
    lemma_first_key(es, k, 0);
}

/// The directory a successful create inserted into: `es` with the new
/// entry at its sorted place.
proof fn lemma_created_entry(es: Seq<(Seq<char>, InodeRef)>, name: Seq<char>, i: InodeRef)
    requires
        sorted_entries(es),
        find_key(es, key(name)) is None,
    ensures
        ({
            let p = lt_prefix(es, key(name), 0);
            let ins = es.insert(p, (name, i));
            &&& 0 <= p <= es.len()
            &&& first_key(ins, key(name), 0) == p
            &&& find_key(ins, key(name)) == Some(i)
            &&& ins.remove(p) == es
        }),
{
    let k = key(name);
    lemma_lt_prefix(es, k, 0);
    let p = lt_prefix(es, k, 0);
    let ins = es.insert(p, (name, i));
    lemma_bytes_lt_irreflexive(k);
    assert forall|j: int| 0 <= j < p implies #[trigger] key(ins[j].0) != k by {
        assert(ins[j] == es[j]);
        assert(bytes_lt(key(es[j].0), k));
    }
    assert(ins[p] == (name, i));
    lemma_first_key_at(ins, k, p);
    assert(ins.remove(p) =~= es);
}

/// A name just created in a directory is found there, and it names the
/// new node, which sits at the end of the table.
pub proof fn law_create_then_find(
    t0: Seq<RamNodeModel>,
    t1: Seq<RamNodeModel>,
    dir: InodeRef,
    name: Seq<char>,
    node: RamNodeModel,
    i: InodeRef,
)
    requires
        dir < t0.len() < usize::MAX,
        node_ok(t0[dir as int], t0.len() as int),
        RamFs::create_spec(t0, t1, dir, name, node, Ok(i)),
    ensures
        i == t0.len(),
        t1.len() == t0.len() + 1,
        t1[i as int] == node,
        (t1[dir as int].data matches NodeModel::Dir(es) && find_key(es, key(name)) == Some(i)),
{
    match t0[dir as int].data {
        NodeModel::Dir(es) => {
            lemma_created_entry(es, name, i);
        },
        NodeModel::File(_) => {},
    }
}

/// Inserting an absent name at its sorted place keeps a directory sorted.
proof fn lemma_insert_sorted(es: Seq<(Seq<char>, InodeRef)>, name: Seq<char>, i: InodeRef)
    requires
        sorted_entries(es),
        find_key(es, key(name)) is None,
    ensures
        sorted_entries(es.insert(lt_prefix(es, key(name), 0), (name, i))),
{
    let nb = key(name);
    lemma_lt_prefix(es, nb, 0);
    lemma_first_key(es, nb, 0);
    let p = lt_prefix(es, nb, 0);
    let ins = es.insert(p, (name, i));
    assert forall|a: int, b: int| 0 <= a < b < ins.len() implies bytes_lt(#[trigger] key(ins[a].0), #[trigger] key(ins[b].0)) by {
        if b < p {
        } else if b == p {
        } else if a < p {
            lemma_key_ne(es, nb, p);
            if b - 1 > p {
                lemma_bytes_lt_transitive(key(ins[a].0), nb, key(es[p].0));
                lemma_bytes_lt_transitive(key(ins[a].0), key(es[p].0), key(ins[b].0));
            } else {
                lemma_bytes_lt_transitive(key(ins[a].0), nb, key(ins[b].0));
            }
        } else if a == p {
            lemma_key_ne(es, nb, p);
            if b - 1 > p {
                lemma_bytes_lt_transitive(nb, key(es[p].0), key(ins[b].0));
            }
        } else {
        }
    }
}

/// Listing a directory after creating a name in it gives the names it
/// held and the new one, each once, in increasing byte order.
pub proof fn law_create_then_list(
    t0: Seq<RamNodeModel>,
    t1: Seq<RamNodeModel>,
    dir: InodeRef,
    name: Seq<char>,
    node: RamNodeModel,
    i: InodeRef,
)
    requires
        dir < t0.len() < usize::MAX,
        node_ok(t0[dir as int], t0.len() as int),
        RamFs::create_spec(t0, t1, dir, name, node, Ok(i)),
    ensures
        t0[dir as int].data matches NodeModel::Dir(es0) && t1[dir as int].data matches NodeModel::Dir(es1) && {
            &&& es1.len() == es0.len() + 1
            &&& sorted_entries(es1)
            &&& es1.contains((name, i))
            &&& forall|k: int| 0 <= k < es0.len() ==> es1.contains(#[trigger] es0[k])
        },
{
    match t0[dir as int].data {
        NodeModel::Dir(es0) => {
            lemma_insert_sorted(es0, name, i);
            lemma_lt_prefix(es0, key(name), 0);
            let p = lt_prefix(es0, key(name), 0);
            let es1 = es0.insert(p, (name, i));
            assert(es1[p] == (name, i));
            assert forall|k: int| 0 <= k < es0.len() implies es1.contains(#[trigger] es0[k]) by {
                if k < p {
                    assert(es1[k] == es0[k]);
                } else {
                    assert(es1[k + 1] == es0[k]);
                }
            }
        },
        NodeModel::File(_) => {},
    }
}

/// Creating a file, as a whole: in a file it is refused with
/// `NotADirectory`, under a name the directory holds with
/// `AlreadyExists`, both changing nothing; otherwise the new node, at the
/// end of the table, is a file with that name and those contents, the
/// name looks it up, and the directory lists its old names and the new
/// one, each once, in increasing byte order.
pub proof fn law_create_file(
    t0: Seq<RamNodeModel>,
    t1: Seq<RamNodeModel>,
    dir: InodeRef,
    name: Seq<char>,
    contents: Seq<u8>,
    r: Result<InodeRef, FsError>,
)
    requires
        dir < t0.len() < usize::MAX,
        node_ok(t0[dir as int], t0.len() as int),
        RamFs::create_spec(t0, t1, dir, name, RamNodeModel { name, data: NodeModel::File(contents) }, r),
    ensures
        t0[dir as int].data is File ==> r == Err::<InodeRef, FsError>(FsError::NotADirectory) && t1 == t0,
        (t0[dir as int].data matches NodeModel::Dir(es) && find_key(es, key(name)) is Some) ==> r == Err::<
            InodeRef,
            FsError,
        >(FsError::AlreadyExists) && t1 == t0,
        match t0[dir as int].data {
            NodeModel::Dir(es) => find_key(es, key(name)) is None ==> {
                &&& r == Ok::<InodeRef, FsError>(t0.len() as InodeRef)
                &&& t1.len() == t0.len() + 1
                &&& t1[t0.len() as int] == (RamNodeModel { name, data: NodeModel::File(contents) })
                &&& match t1[dir as int].data {
                    NodeModel::Dir(es1) => {
                        &&& find_key(es1, key(name)) == Some(t0.len() as InodeRef)
                        &&& es1.len() == es.len() + 1
                        &&& sorted_entries(es1)
                        &&& es1.contains((name, t0.len() as InodeRef))
                        &&& forall|k: int| 0 <= k < es.len() ==> es1.contains(#[trigger] es[k])
                    },
                    NodeModel::File(_) => false,
                }
            },
            NodeModel::File(_) => true,
        },
{
    let node = RamNodeModel { name, data: NodeModel::File(contents) };
    match t0[dir as int].data {
        NodeModel::Dir(es) => {
            if find_key(es, key(name)) is None {
                let i = t0.len() as InodeRef;
                law_create_then_find(t0, t1, dir, name, node, i);
                law_create_then_list(t0, t1, dir, name, node, i);
            }
        },
        NodeModel::File(_) => {},
    }
}

/// Creating a name that a directory already holds is refused with
/// `AlreadyExists` and changes nothing: a second create of the same
/// name fails.
pub proof fn law_create_twice(
    t0: Seq<RamNodeModel>,
    t1: Seq<RamNodeModel>,
    t2: Seq<RamNodeModel>,
    dir: InodeRef,
    name: Seq<char>,
    n1: RamNodeModel,
    n2: RamNodeModel,
    i: InodeRef,
    r: Result<InodeRef, FsError>,
)
    requires
        dir < t0.len() < usize::MAX,
        node_ok(t0[dir as int], t0.len() as int),
        RamFs::create_spec(t0, t1, dir, name, n1, Ok(i)),
        RamFs::create_spec(t1, t2, dir, name, n2, r),
    ensures
        r == Err::<InodeRef, FsError>(FsError::AlreadyExists),
        t2 == t1,
{
    law_create_then_find(t0, t1, dir, name, n1, i);
}

/// A name removed from a directory is no longer found there.
pub proof fn law_remove_then_not_found(t0: Seq<RamNodeModel>, t1: Seq<RamNodeModel>, dir: InodeRef, name: Seq<char>)
    requires
        dir < t0.len(),
        node_ok(t0[dir as int], t0.len() as int),
        RamFs::remove_spec(t0, t1, dir, name, Ok(())),
    ensures
        (t1[dir as int].data matches NodeModel::Dir(es) && find_key(es, key(name)) is None),
{
    match t0[dir as int].data {
        NodeModel::Dir(es) => {
            let k = key(name);
            lemma_first_key(es, k, 0);
            let i = first_key(es, k, 0);
            let rem = es.remove(i);
            lemma_bytes_lt_irreflexive(k);
            assert forall|j: int| 0 <= j < rem.len() implies #[trigger] key(rem[j].0) != k by {
                if j < i {
                    assert(rem[j] == es[j]);
                } else {
                    assert(rem[j] == es[j + 1]);
                    assert(bytes_lt(key(es[i].0), key(es[j + 1].0)));
                }
            }
            lemma_first_key_absent(rem, k);
        },
        NodeModel::File(_) => {},
    }
}

/// Removing a name right after creating it (a file or an empty
/// directory) succeeds and gives the directory back as it was; the new
/// node stays at the end of the table.
pub proof fn law_create_then_remove(
    t0: Seq<RamNodeModel>,
    t1: Seq<RamNodeModel>,
    t2: Seq<RamNodeModel>,
    dir: InodeRef,
    name: Seq<char>,
    node: RamNodeModel,
    i: InodeRef,
    r: Result<(), FsError>,
)
    requires
        dir < t0.len() < usize::MAX,
        node_ok(t0[dir as int], t0.len() as int),
        match node.data {
            NodeModel::File(_) => true,
            NodeModel::Dir(es) => es.len() == 0,
        },
        RamFs::create_spec(t0, t1, dir, name, node, Ok(i)),
        RamFs::remove_spec(t1, t2, dir, name, r),
    ensures
        r == Ok::<(), FsError>(()),
        t2 == t0.push(node),
{
    match t0[dir as int].data {
        NodeModel::Dir(es) => {
            lemma_created_entry(es, name, i);
            assert(t2 =~= t0.push(node));
        },
        NodeModel::File(_) => {},
    }
}

/// A read of the range just written gives back exactly what was
/// written; bytes outside that range keep their old values.
pub proof fn law_read_after_write(v: Seq<u8>, offset: int, data: Seq<u8>, buf: Seq<u8>)
    requires
        0 <= offset,
        buf.len() == data.len(),
    ensures
        read_count(written(v, offset, data).len() as int, offset, buf.len() as int) == data.len(),
        read_into(written(v, offset, data), offset, buf) == data,
        forall|i: int|
            0 <= i < v.len() && !(offset <= i < offset + data.len()) ==> #[trigger] written(v, offset, data)[i]
                == v[i],
{
    assert(read_into(written(v, offset, data), offset, buf) =~= data);
}

} // verus!
