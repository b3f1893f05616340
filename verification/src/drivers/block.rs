//! Block-device subsystem.
//!
//! Block devices sit behind a small trait so the filesystem can treat
//! virtio-blk, ramdisks and later classes the same way. The first device
//! registered is also shown in the filesystem under `/blk`: an `info`
//! file with its size and a `sector0` file with its first sector.

use vstd::prelude::*;
use crate::fs::vfs::{Root, FsError, resolve_spec};
use crate::fs::ramfs::{RamFs, RamNodeModel, NodeModel};
use crate::fs::inode::InodeRef;
use vstd::string::StringSliceAdditionalSpecFns;

verus! {

/// Sector size in bytes; virtio-blk and most consumer media use it.
pub const SECTOR_SIZE: usize = 512;

/// Anything that exposes a flat array of 512-byte sectors.
pub trait BlockDevice {
    fn capacity_sectors(&self) -> u64;

    fn read_sectors(&mut self, sector: u64, n: usize, buf: &mut [u8]) -> Result<(), &'static str>;

    fn write_sectors(&mut self, sector: u64, n: usize, buf: &[u8]) -> Result<(), &'static str>;
}

/// Add `dev` to the registry; returns its index. The first device also
/// gets the `/blk` view (see [`seed_blkfs`]), which needs its first
/// sector and so is set up by the caller once it has read it.
pub fn register<D: BlockDevice>(devices: &mut Vec<D>, dev: D) -> (idx: usize)
    ensures
        idx == old(devices)@.len(),
        final(devices)@ == old(devices)@.push(dev),
{
    devices.push(dev);
    devices.len() - 1
}

/// The first registered device, if any.
pub fn primary<D: BlockDevice>(devices: &Vec<D>) -> (r: Option<&D>)
    ensures
        r == (if devices@.len() > 0 {
            Some(&devices@[0])
        } else {
            None
        }),
{
    if devices.len() > 0 {
        Some(&devices[0])
    } else {
        None
    }
}

/// `(index, capacity in sectors)` of every registered device, for the
/// shell's `blk` command.
pub fn snapshot<D: BlockDevice>(devices: &Vec<D>) -> (r: Vec<(usize, u64)>)
    ensures
        r@.len() == devices@.len(),
        forall|k: int| 0 <= k < r@.len() ==> #[trigger] r@[k].0 == k,
{
    let mut out: Vec<(usize, u64)> = Vec::new();
    let mut i: usize = 0;
    while i < devices.len()
        invariant
            i <= devices@.len(),
            out@.len() == i,
            forall|k: int| 0 <= k < i ==> #[trigger] out@[k].0 == k,
        decreases devices.len() - i,
    {
        out.push((i, devices[i].capacity_sectors()));
        i = i + 1;
    }
    out
}

/// Decimal digits of `n`, most significant first, as ASCII.
pub open spec fn dec_digits(n: nat) -> Seq<u8>
    decreases n,
{
    if n < 10 {
        seq![(48 + n) as u8]
    } else {
        dec_digits(n / 10).push((48 + n % 10) as u8)
    }
}

/// Append the decimal digits of `n` to `out`.
pub fn push_decimal(out: &mut Vec<u8>, n: u64)
    ensures
        final(out)@ == old(out)@ + dec_digits(n as nat),
    decreases n,
{
    if n >= 10 {
        push_decimal(out, n / 10);
    }
    out.push((48 + n % 10) as u8);
    proof {
        if n >= 10 {
            assert(final(out)@ =~= old(out)@ + dec_digits(n as nat));
        } else {
            assert(final(out)@ =~= old(out)@ + dec_digits(n as nat));
        }
    }
}

/// Append `s` to `v`.
fn push_all(v: &mut Vec<u8>, s: &[u8])
    ensures
        final(v)@ == old(v)@ + s@,
{
    let mut i: usize = 0;
    while i < s.len()
        invariant
            i <= s@.len(),
            v@ == old(v)@ + s@.take(i as int),
        decreases s.len() - i,
    {
        v.push(s[i]);
        assert(s@.take(i + 1) =~= s@.take(i as int).push(s@[i as int]));
        i = i + 1;
    }
    assert(s@.take(s@.len() as int) =~= s@);
}

/// `block device 0` and a newline.
pub open spec fn info_head() -> Seq<u8> {
    seq![98u8, 108, 111, 99, 107, 32, 100, 101, 118, 105, 99, 101, 32, 48, 10]
}

/// `sectors: `.
pub open spec fn info_sectors() -> Seq<u8> {
    seq![115u8, 101, 99, 116, 111, 114, 115, 58, 32]
}

/// `size: `.
pub open spec fn info_size() -> Seq<u8> {
    seq![115u8, 105, 122, 101, 58, 32]
}

/// ` bytes` and a newline.
pub open spec fn info_tail() -> Seq<u8> {
    seq![32u8, 98, 121, 116, 101, 115, 10]
}

/// Text of `/blk/info` for a device of `cap` sectors.
pub open spec fn info_text(cap: nat) -> Seq<u8> {
    info_head() + info_sectors() + dec_digits(cap) + seq![10u8] + info_size() + dec_digits(cap * 512)
        + info_tail()
}

/// The text of `/blk/info` for a device of `cap` sectors.
pub fn format_info(cap: u64) -> (r: Vec<u8>)
    requires
        cap * 512 <= u64::MAX,
    ensures
        r@ == info_text(cap as nat),
{
    let head: [u8; 15] = [98u8, 108, 111, 99, 107, 32, 100, 101, 118, 105, 99, 101, 32, 48, 10];
    let sectors: [u8; 9] = [115u8, 101, 99, 116, 111, 114, 115, 58, 32];
    let size: [u8; 6] = [115u8, 105, 122, 101, 58, 32];
    let tail: [u8; 7] = [32u8, 98, 121, 116, 101, 115, 10];
    let mut v: Vec<u8> = Vec::new();
    push_all(&mut v, &head);
    push_all(&mut v, &sectors);
    push_decimal(&mut v, cap);
    v.push(10);
    push_all(&mut v, &size);
    push_decimal(&mut v, cap * 512);
    push_all(&mut v, &tail);
    assert(head@ =~= info_head());
    assert(sectors@ =~= info_sectors());
    assert(size@ =~= info_size());
    assert(tail@ =~= info_tail());
    assert(v@ =~= info_text(cap as nat));
    v
}

/// The node table after [`seed_blkfs`] on table `t0`: `/blk` is created
/// (a refusal is ignored); if `/blk` then resolves, `info` (with text
/// `info`) and `sector0` (with bytes `head`) are created in it.
pub open spec fn blk_seeded(t0: Seq<RamNodeModel>, t3: Seq<RamNodeModel>, info: Seq<u8>, head: Seq<u8>) -> bool {
    exists|t1: Seq<RamNodeModel>, r1: Result<InodeRef, FsError>|
        {
            &&& RamFs::create_spec(t0, t1, 0, "blk"@, RamNodeModel { name: "blk"@, data: NodeModel::Dir(Seq::empty()) }, r1)
            &&& match resolve_spec(t1, "/blk".spec_bytes()) {
                Err(_) => t3 == t1,
                Ok(blk) => exists|t2: Seq<RamNodeModel>, r2: Result<InodeRef, FsError>, r3: Result<InodeRef, FsError>|
                    {
                        &&& RamFs::create_spec(t1, t2, blk, "info"@, RamNodeModel { name: "info"@, data: NodeModel::File(info) }, r2)
                        &&& RamFs::create_spec(t2, t3, blk, "sector0"@, RamNodeModel { name: "sector0"@, data: NodeModel::File(head) }, r3)
                    },
            }
        }
}

/// Show the first block device in the filesystem: create `/blk`, then in
/// it `info` (size in sectors and bytes) and `sector0` (`head`, the
/// device's first sector, or nothing if it could not be read).
pub fn seed_blkfs(root: &mut Root, cap: u64, head: &[u8])
    requires
        old(root).mounted(),
        cap * 512 <= u64::MAX,
    ensures
        final(root).mounted(),
        blk_seeded(old(root).table(), final(root).table(), info_text(cap as nat), head@),
{
    let info = format_info(cap);
    let ghost t0 = root.table();
    let r1 = root.create_dir("blk");
    let ghost t1 = root.table();
    match root.resolve("/blk") {
        Ok(blk) => {
            let ghost (r2, r3, t2): (Result<InodeRef, FsError>, Result<InodeRef, FsError>, Seq<RamNodeModel>);
            match &mut root.mount {
                Some(fs) => {
                    let a = fs.create_file(blk, "info", info.as_slice());
                    proof {
                        r2 = a;
                        t2 = fs@;
                    }
                    let b = fs.create_file(blk, "sector0", head);
                    proof {
                        r3 = b;
                    }
                },
                None => {},
            }
            assert(blk_seeded(t0, root.table(), info_text(cap as nat), head@));
        },
        Err(_) => {
            assert(blk_seeded(t0, root.table(), info_text(cap as nat), head@));
        },
    }
}

} // verus!
