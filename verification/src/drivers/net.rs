//! Network subsystem.
//!
//! A thin layer over Ethernet devices: a device registry and an in-kernel
//! UDP echo responder (port 7) used as a smoke test. There is no TCP/IP
//! stack; the echo path rewrites a received frame into its reply.

use vstd::prelude::*;
use vstd::arithmetic::div_mod::lemma_mod_multiples_vanish;

verus! {

/// Anything that can send and receive raw Ethernet frames.
pub trait NetDevice {
    fn mac_address(&self) -> [u8; 6];

    /// Hand a complete Ethernet frame to the device; returns the number
    /// of bytes accepted.
    fn send(&mut self, frame: &[u8]) -> Result<usize, &'static str>;

    /// Pull one received frame, if any, into `buf`; returns its length.
    fn recv(&mut self, buf: &mut [u8]) -> Option<usize>;
}

/// Add `dev` to the registry; its index is its position.
pub fn register<D: NetDevice>(devices: &mut Vec<D>, dev: D) -> (idx: usize)
    ensures
        idx == old(devices)@.len(),
        final(devices)@ == old(devices)@.push(dev),
{
    devices.push(dev);
    devices.len() - 1
}

/// The first registered device, if any.
pub fn primary<D: NetDevice>(devices: &Vec<D>) -> (r: Option<&D>)
    ensures
        r == (if devices@.len() > 0 {
            Some(&devices@[0])
        } else {
            None
        }),
{
    if devices.len() > 0 {
        Some(&devices[0])
    } else {
        None
    }
}

/// `(index, MAC address)` of every registered device, for the shell's
/// `net` command.
pub fn snapshot<D: NetDevice>(devices: &Vec<D>) -> (r: Vec<(usize, [u8; 6])>)
    ensures
        r@.len() == devices@.len(),
        forall|k: int| 0 <= k < r@.len() ==> #[trigger] r@[k].0 == k,
{
    let mut out: Vec<(usize, [u8; 6])> = Vec::new();
    let mut i: usize = 0;
    while i < devices.len()
        invariant
            i <= devices@.len(),
            out@.len() == i,
            forall|k: int| 0 <= k < i ==> #[trigger] out@[k].0 == k,
        decreases devices.len() - i,
    {
        out.push((i, devices[i].mac_address()));
        i = i + 1;
    }
    out
}

/// Sum of the big-endian 16-bit words of `b` from byte `i` on; an odd
/// final byte counts as the high byte of a word.
pub open spec fn word_sum(b: Seq<u8>, i: int) -> nat
    decreases b.len() - i,
{
    if i < 0 || i >= b.len() {
        0
    } else if i + 1 == b.len() {
        (b[i] * 256) as nat
    } else {
        (b[i] * 256 + b[i + 1]) as nat + word_sum(b, i + 2)
    }
}

/// End-around-carry reduction of `s` to 16 bits: 0 stays 0, any other
/// value becomes the number in `1 ..= 0xffff` congruent to it modulo
/// `0xffff`.
pub open spec fn fold16(s: int) -> int {
    if s <= 0 {
        0
    } else {
        (s - 1) % 0xffff + 1
    }
}

/// The Internet checksum (RFC 1071) of `b`: the ones' complement of the
/// ones'-complement sum of its 16-bit words.
pub open spec fn csum16_spec(b: Seq<u8>) -> u16 {
    (0xffff - fold16(word_sum(b, 0) as int)) as u16
}

/// Internet checksum of `bytes`.
pub fn csum16(bytes: &[u8]) -> (r: u16)
    requires
        word_sum(bytes@, 0) <= u32::MAX,
    ensures
        r == csum16_spec(bytes@),
{
    let mut sum: u32 = 0;
    let mut i: usize = 0;
    while bytes.len() - i > 1
        invariant
            i <= bytes@.len(),
            word_sum(bytes@, 0) <= u32::MAX,
            sum + word_sum(bytes@, i as int) == word_sum(bytes@, 0),
        decreases bytes.len() - i,
    {
        let w = (bytes[i] as u32) * 256 + bytes[i + 1] as u32;
        sum = sum + w;
        i = i + 2;
    }
    if i < bytes.len() {
        sum = sum + (bytes[i] as u32) * 256;
    }
    assert(sum == word_sum(bytes@, 0));
    let ghost s0 = sum as int;
    while sum >> 16 != 0
        invariant
            fold16(sum as int) == fold16(s0),
        decreases sum,
    {
        let lo = sum & 0xffff;
        let hi = sum >> 16;
        assert(lo == sum % 65536 && hi == sum / 65536) by (bit_vector)
            requires
                lo == sum & 0xffff,
                hi == sum >> 16,
        ;
        proof {
            let n = lo + hi;
            assert(sum == 65536 * hi + lo);
            assert(n - 1 == 65535 * (-(hi as int)) + (sum - 1));
            lemma_mod_multiples_vanish(-(hi as int), sum - 1, 65535);
        }
        sum = lo + hi;
    }
    assert(sum < 65536) by (bit_vector)
        requires
            sum >> 16 == 0,
    ;
    let r = !(sum as u16);
    assert(r == 0xffff - sum) by (bit_vector)
        requires
            r == !(sum as u16),
            sum < 65536,
    ;
    r
}

/// Big-endian 16-bit value at byte `i` of `s`.
pub open spec fn be16_at(s: Seq<u8>, i: int) -> int {
    s[i] * 256 + s[i + 1]
}

/// Length of the IPv4 header of the frame `f`, from its IHL field.
pub open spec fn ihl_of(f: Seq<u8>) -> int {
    (f[14] % 16) * 4
}

/// Whether `f` is an IPv4 UDP frame with room for both headers by the
/// length checks the responder makes (14 + 20 + 8 bytes).
pub open spec fn is_udp4(f: Seq<u8>) -> bool {
    &&& f.len() >= 14 + 20 + 8
    &&& be16_at(f, 12) == 0x0800
    &&& ihl_of(f) >= 20
    &&& f[23] == 17
}

/// The frame `f` rewritten into the echo reply sent from `mac`: Ethernet
/// addresses swapped (source becomes `mac`), IPv4 addresses swapped with
/// the header checksum recomputed, UDP ports swapped and the UDP checksum
/// cleared.
pub open spec fn echo_reply_spec(f: Seq<u8>, mac: Seq<u8>) -> Seq<u8> {
    let ihl = ihl_of(f);
    let u = 14 + ihl;
    let swapped = Seq::new(
        f.len(),
        |i: int|
            if 0 <= i < 6 {
                f[i + 6]
            } else if 6 <= i < 12 {
                mac[i - 6]
            } else if 26 <= i < 30 {
                f[i + 4]
            } else if 30 <= i < 34 {
                f[i - 4]
            } else if 24 <= i < 26 {
                0u8
            } else {
                f[i]
            },
    );
    let c = csum16_spec(swapped.subrange(14, u));
    Seq::new(
        f.len(),
        |i: int|
            if i == 24 {
                (c / 256) as u8
            } else if i == 25 {
                (c % 256) as u8
            } else if i == u {
                f[u + 2]
            } else if i == u + 1 {
                f[u + 3]
            } else if i == u + 2 {
                f[u]
            } else if i == u + 3 {
                f[u + 1]
            } else if i == u + 6 || i == u + 7 {
                0u8
            } else {
                swapped[i]
            },
    )
}

/// Whether `f` is an echo request: an IPv4 UDP frame that holds the
/// whole UDP header its IHL points at, addressed to port 7.
pub open spec fn is_echo_request(f: Seq<u8>) -> bool {
    &&& is_udp4(f)
    &&& 14 + ihl_of(f) + 8 <= f.len()
    &&& be16_at(f, 14 + ihl_of(f) + 2) == 7
}

/// The reply to `frame` if it is a UDP datagram to port 7 over IPv4, with
/// our MAC address `mac`; `None` for any other frame, a frame too short
/// for the UDP header its IPv4 header announces included.
pub fn try_reply_echo(frame: &[u8], mac: [u8; 6]) -> (r: Option<Vec<u8>>)
    ensures
        match r {
            None => !is_echo_request(frame@),
            Some(reply) => is_echo_request(frame@) && reply@ == echo_reply_spec(frame@, mac@),
        },
{
    let f = frame;
    if f.len() < 14 + 20 + 8 {
        return None;
    }
    let ethertype = (f[12] as u16) * 256 + f[13] as u16;
    if ethertype != 0x0800 {
        return None;
    }
    let v = f[14];
    let ihl = ((v & 0x0f) as usize) * 4;
    assert(v & 0x0f == v % 16) by (bit_vector);
    if ihl < 20 || f[14 + 9] != 17 {
        return None;
    }
    let u = 14 + ihl;
    if f.len() < u + 8 {
        return None;
    }
    let dst_port = (f[u + 2] as u16) * 256 + f[u + 3] as u16;
    if dst_port != 7 {
        return None;
    }
    let mut out: Vec<u8> = Vec::new();
    let mut i: usize = 0;
    while i < f.len()
        invariant
            i <= f@.len(),
            f@.len() >= 42,
            out@.len() == i,
            forall|j: int| 0 <= j < i ==> #[trigger] out@[j] == (if 0 <= j < 6 {
                f@[j + 6]
            } else if 6 <= j < 12 {
                mac@[j - 6]
            } else if 26 <= j < 30 {
                f@[j + 4]
            } else if 30 <= j < 34 {
                f@[j - 4]
            } else if 24 <= j < 26 {
                0u8
            } else {
                f@[j]
            }),
        decreases f.len() - i,
    {
        let b = if i < 6 {
            f[i + 6]
        } else if i < 12 {
            mac[i - 6]
        } else if 26 <= i && i < 30 {
            f[i + 4]
        } else if 30 <= i && i < 34 {
            f[i - 4]
        } else if 24 <= i && i < 26 {
            0u8
        } else {
            f[i]
        };
        out.push(b);
        i = i + 1;
    }
    let ghost swapped = out@;
    assert(ihl == ihl_of(f@));
    assert(swapped =~= Seq::new(
        f@.len(),
        |j: int|
            if 0 <= j < 6 {
                f@[j + 6]
            } else if 6 <= j < 12 {
                mac@[j - 6]
            } else if 26 <= j < 30 {
                f@[j + 4]
            } else if 30 <= j < 34 {
                f@[j - 4]
            } else if 24 <= j < 26 {
                0u8
            } else {
                f@[j]
            },
    ));
    let c = {
        let hdr = out.as_slice();
        let sub = slice_range(hdr, 14, u);
        proof {
            lemma_word_sum_bound(sub@, 0);
        }
        csum16(sub)
    };
    assert(c == csum16_spec(swapped.subrange(14, u as int)));
    out.set(24, (c / 256) as u8);
    out.set(25, (c % 256) as u8);
    let sp0 = f[u];
    let sp1 = f[u + 1];
    out.set(u, f[u + 2]);
    out.set(u + 1, f[u + 3]);
    out.set(u + 2, sp0);
    out.set(u + 3, sp1);
    out.set(u + 6, 0);
    out.set(u + 7, 0);
    assert(out@ =~= echo_reply_spec(f@, mac@));
    Some(out)
}

/// The bytes `s[lo..hi]`.
fn slice_range(s: &[u8], lo: usize, hi: usize) -> (r: &[u8])
    requires
        lo <= hi <= s@.len(),
    ensures
        r@ == s@.subrange(lo as int, hi as int),
{
    &s[lo..hi]
}

/// A word sum is at most `0xffff` per started word.
proof fn lemma_word_sum_bound(b: Seq<u8>, i: int)
    requires
        0 <= i <= b.len(),
    ensures
        word_sum(b, i) <= 0xffff * (b.len() - i + 1),
    decreases b.len() - i,
{
    if i + 1 < b.len() {
        lemma_word_sum_bound(b, i + 2);
    }
}

} // verus!
