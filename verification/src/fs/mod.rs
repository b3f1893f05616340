//! Virtual filesystem layer.
//!
//! A unified namespace: a tree of inodes rooted at "/", mounted from an
//! in-memory [`ramfs`]. The API is small and synchronous.

pub mod inode;
pub mod ramfs;
pub mod vfs;

use vstd::prelude::*;
use vstd::string::StringSliceAdditionalSpecFns;
use crate::fs::ramfs::{RamFs, RamNodeModel, NodeModel, ROOT_INODE, new_root};
use crate::fs::vfs::{Root, FsError};
use crate::fs::inode::InodeRef;

verus! {

/// Text of `/welcome`.
pub open spec fn welcome_text() -> Seq<u8> {
    seq![87u8, 101, 108, 99, 111, 109, 101, 32, 116, 111, 32, 72, 121, 112, 101, 114, 105, 111, 110, 32, 79, 83, 33, 13, 10, 84, 114, 121, 58, 32, 104, 101, 108, 112, 13, 10]
}

/// The first bytes of `/version`.
pub open spec fn version_prefix() -> Seq<u8> {
    seq![104u8, 121, 112, 101, 114, 105, 111, 110, 45, 111, 115, 32]
}

/// Text of `/version`: `hyperion-os <version> <arch>` and a CR LF.
pub open spec fn version_text(version: Seq<u8>, arch: Seq<u8>) -> Seq<u8> {
    version_prefix() + version + seq![0x20u8] + arch + seq![0x0du8, 0x0au8]
}

fn welcome_bytes() -> (r: Vec<u8>)
    ensures
        r@ == welcome_text(),
{
    let a: [u8; 36] = [87u8, 101, 108, 99, 111, 109, 101, 32, 116, 111, 32, 72, 121, 112, 101, 114, 105, 111, 110, 32, 79, 83, 33, 13, 10, 84, 114, 121, 58, 32, 104, 101, 108, 112, 13, 10];
    let mut v: Vec<u8> = Vec::new();
    let mut i: usize = 0;
    while i < a.len()
        invariant
            i <= a@.len(),
            v@ == a@.take(i as int),
        decreases a.len() - i,
    {
        v.push(a[i]);
        assert(a@.take(i + 1) =~= a@.take(i as int).push(a@[i as int]));
        i = i + 1;
    }
    assert(v@ =~= welcome_text());
    v
}

/// Append `s` to `v`.
fn push_all(v: &mut Vec<u8>, s: &[u8])
    ensures
        final(v)@ == old(v)@ + s@,
{
    let mut i: usize = 0;
    while i < s.len()
        invariant
            i <= s@.len(),
            v@ == old(v)@ + s@.take(i as int),
        decreases s.len() - i,
    {
        v.push(s[i]);
        assert(s@.take(i + 1) =~= s@.take(i as int).push(s@[i as int]));
        i = i + 1;
    }
    assert(s@.take(s@.len() as int) =~= s@);
}

fn format_version(version: &str, arch: &str) -> (r: Vec<u8>)
    ensures
        r@ == version_text(version.spec_bytes(), arch.spec_bytes()),
{
    let p: [u8; 12] = [104u8, 121, 112, 101, 114, 105, 111, 110, 45, 111, 115, 32];
    let mut v: Vec<u8> = Vec::new();
    push_all(&mut v, &p);
    assert(v@ =~= version_prefix());
    push_all(&mut v, version.as_bytes());
    v.push(0x20);
    push_all(&mut v, arch.as_bytes());
    v.push(0x0d);
    v.push(0x0a);
    assert(v@ =~= version_text(version.spec_bytes(), arch.spec_bytes()));
    v
}

/// The table after the seeding done by [`init`], starting from `t0`:
/// `/welcome`, `/version` (with text `version`), `/dev` and `/tmp` are
/// created in this order, each refusal left as it is.
pub open spec fn seeded(t0: Seq<RamNodeModel>, t4: Seq<RamNodeModel>, version: Seq<u8>) -> bool {
    exists|t1: Seq<RamNodeModel>, t2: Seq<RamNodeModel>, t3: Seq<RamNodeModel>, r1: Result<InodeRef, FsError>, r2: Result<InodeRef, FsError>, r3: Result<InodeRef, FsError>, r4: Result<InodeRef, FsError>|
        {
            &&& RamFs::create_spec(t0, t1, ROOT_INODE, "welcome"@, RamNodeModel { name: "welcome"@, data: NodeModel::File(welcome_text()) }, r1)
            &&& RamFs::create_spec(t1, t2, ROOT_INODE, "version"@, RamNodeModel { name: "version"@, data: NodeModel::File(version) }, r2)
            &&& RamFs::create_spec(t2, t3, ROOT_INODE, "dev"@, RamNodeModel { name: "dev"@, data: NodeModel::Dir(Seq::empty()) }, r3)
            &&& RamFs::create_spec(t3, t4, ROOT_INODE, "tmp"@, RamNodeModel { name: "tmp"@, data: NodeModel::Dir(Seq::empty()) }, r4)
        }
}

/// One-time filesystem set-up: mount a ramfs at "/" (unless mounted) and
/// seed it with `/welcome`, `/version`, `/dev` and `/tmp`. `version` and
/// `arch` go into `/version`.
pub fn init(root: &mut Root, version: &str, arch: &str)
    requires
        old(root).mount is Some ==> old(root).mounted(),
    ensures
        final(root).mounted(),
        seeded(
            if old(root).mount is None {
                seq![RamNodeModel { name: Seq::empty(), data: NodeModel::Dir(Seq::empty()) }]
            } else {
                old(root).table()
            },
            final(root).table(),
            version_text(version.spec_bytes(), arch.spec_bytes()),
        ),
{
    crate::fs::vfs::init(root);
    let ghost t0 = root.table();
    let w = welcome_bytes();
    let r1 = root.create_file("welcome", w.as_slice());
    let ghost t1 = root.table();
    let v = format_version(version, arch);
    let r2 = root.create_file("version", v.as_slice());
    let ghost t2 = root.table();
    let r3 = root.create_dir("dev");
    let ghost t3 = root.table();
    let r4 = root.create_dir("tmp");
    assert(seeded(t0, root.table(), version_text(version.spec_bytes(), arch.spec_bytes())));
}

} // verus!
