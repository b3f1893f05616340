//! Byte-string helpers used by the boot-protocol parsers.
//!
//! Device-tree strings are NUL-terminated runs of bytes that the kernel
//! only accepts when they are valid UTF-8. The parsers keep them as byte
//! slices; comparing, prefix tests and substring search happen on bytes,
//! which for valid UTF-8 agrees with the same operations on `str`.

use vstd::prelude::*;
use vstd::utf8::valid_utf8;

verus! {

/// Whether `p` is a prefix of `s`.
pub open spec fn is_prefix(p: Seq<u8>, s: Seq<u8>) -> bool {
    p.len() <= s.len() && s.subrange(0, p.len() as int) == p
}

/// Whether `needle` occurs somewhere in `hay` (the empty needle always does).
pub open spec fn contains_seq(hay: Seq<u8>, needle: Seq<u8>) -> bool {
    exists|k: int|
        0 <= k && k + needle.len() <= hay.len() && #[trigger] hay.subrange(k, k + needle.len())
            == needle
}

/// Index of the first `c` in `s` at or after `i`, or `s.len()` if none.
pub open spec fn find_first(s: Seq<u8>, c: u8, i: int) -> int
    decreases s.len() - i,
{
    if i < 0 || i >= s.len() {
        s.len() as int
    } else if s[i] == c {
        i
    } else {
        find_first(s, c, i + 1)
    }
}

/// Index of the last `c` in `s` strictly before `i`, or `-1` if none.
pub open spec fn find_last(s: Seq<u8>, c: u8, i: int) -> int
    decreases i,
{
    if i <= 0 || i > s.len() {
        -1
    } else if s[i - 1] == c {
        i - 1
    } else {
        find_last(s, c, i - 1)
    }
}

/// The bytes of `s` from `start` up to (not including) the next NUL.
pub open spec fn until_nul(s: Seq<u8>, start: int) -> Seq<u8> {
    s.subrange(start, find_first(s, 0, start))
}

/// `find_first` never moves backwards and stays inside the sequence.
pub proof fn lemma_find_first_bounds(s: Seq<u8>, c: u8, i: int)
    requires
        0 <= i <= s.len(),
    ensures
        i <= find_first(s, c, i) <= s.len(),
        find_first(s, c, i) < s.len() ==> s[find_first(s, c, i)] == c,
    decreases s.len() - i,
{
    if i < s.len() && s[i] != c {
        lemma_find_first_bounds(s, c, i + 1);
    }
}

/// `find_last` stays inside the sequence.
pub proof fn lemma_find_last_bounds(s: Seq<u8>, c: u8, i: int)
    requires
        0 <= i <= s.len(),
    ensures
        -1 <= find_last(s, c, i) < i,
        find_last(s, c, i) >= 0 ==> s[find_last(s, c, i)] == c,
    decreases i,
{
    if i > 0 && s[i - 1] != c {
        lemma_find_last_bounds(s, c, i - 1);
    }
}

/// Whether two byte strings are equal.
pub fn bytes_eq(a: &[u8], b: &[u8]) -> (r: bool)
    ensures
        r == (a@ == b@),
{
    if a.len() != b.len() {
        return false;
    }
    let mut i: usize = 0;
    while i < a.len()
        invariant
            a@.len() == b@.len(),
            i <= a@.len(),
            forall|j: int| 0 <= j < i ==> a@[j] == b@[j],
        decreases a.len() - i,
    {
        if a[i] != b[i] {
            return false;
        }
        i = i + 1;
    }
    assert(a@ =~= b@);
    true
}

/// Whether `p` is a prefix of `s`.
pub fn has_prefix(s: &[u8], p: &[u8]) -> (r: bool)
    ensures
        r == is_prefix(p@, s@),
{
    if p.len() > s.len() {
        return false;
    }
    let mut i: usize = 0;
    while i < p.len()
        invariant
            p@.len() <= s@.len(),
            i <= p@.len(),
            forall|j: int| 0 <= j < i ==> s@[j] == p@[j],
        decreases p.len() - i,
    {
        if s[i] != p[i] {
            assert(s@.subrange(0, p@.len() as int)[i as int] != p@[i as int]);
            return false;
        }
        i = i + 1;
    }
    assert(s@.subrange(0, p@.len() as int) =~= p@);
    true
}

/// Whether `needle` occurs at position `k` of `hay`.
fn matches_at(hay: &[u8], needle: &[u8], k: usize) -> (r: bool)
    requires
        k + needle@.len() <= hay@.len(),
    ensures
        r == (hay@.subrange(k as int, k + needle@.len()) == needle@),
{
    let mut i: usize = 0;
    while i < needle.len()
        invariant
            k + needle@.len() <= hay@.len(),
            i <= needle@.len(),
            forall|j: int| 0 <= j < i ==> hay@[k + j] == needle@[j],
        decreases needle.len() - i,
    {
        assert(k + i < hay.len());
        if hay[k + i] != needle[i] {
            assert(hay@.subrange(k as int, k + needle@.len())[i as int] != needle@[i as int]);
            return false;
        }
        i = i + 1;
    }
    assert(hay@.subrange(k as int, k + needle@.len()) =~= needle@);
    true
}

/// Whether `needle` occurs in `hay`.
pub fn contains_bytes(hay: &[u8], needle: &[u8]) -> (r: bool)
    ensures
        r == contains_seq(hay@, needle@),
{
    if needle.len() > hay.len() {
        return false;
    }
    let last = hay.len() - needle.len();
    let mut k: usize = 0;
    loop
        invariant
            last == hay@.len() - needle@.len(),
            k <= last,
            forall|j: int|
                0 <= j < k ==> #[trigger] hay@.subrange(j, j + needle@.len()) != needle@,
        decreases last - k,
    {
        if matches_at(hay, needle, k) {
            return true;
        }
        if k == last {
            assert forall|j: int|
                0 <= j && j + needle@.len() <= hay@.len() implies #[trigger] hay@.subrange(
                j,
                j + needle@.len(),
            ) != needle@ by {}
            return false;
        }
        k = k + 1;
    }
}

/// Index of the first `c` in `s` at or after `start` (or `s.len()`).
pub fn find_byte(s: &[u8], c: u8, start: usize) -> (r: usize)
    requires
        start <= s@.len(),
    ensures
        r == find_first(s@, c, start as int),
        start <= r <= s@.len(),
{
    let mut i = start;
    while i < s.len()
        invariant
            start <= i <= s@.len(),
            find_first(s@, c, i as int) == find_first(s@, c, start as int),
        decreases s.len() - i,
    {
        if s[i] == c {
            return i;
        }
        i = i + 1;
    }
    i
}

/// Index of the last `c` in `s` (or `-1` as `None`).
pub fn rfind_byte(s: &[u8], c: u8) -> (r: Option<usize>)
    ensures
        match r {
            Some(i) => i == find_last(s@, c, s@.len() as int) && i < s@.len(),
            None => find_last(s@, c, s@.len() as int) == -1,
        },
{
    let mut i = s.len();
    while i > 0
        invariant
            i <= s@.len(),
            find_last(s@, c, i as int) == find_last(s@, c, s@.len() as int),
        decreases i,
    {
        if s[i - 1] == c {
            return Some(i - 1);
        }
        i = i - 1;
    }
    None
}

/// Whether `bytes` are valid UTF-8, as `core::str::from_utf8` decides.
#[verifier::external_body]
fn utf8_ok(bytes: &[u8]) -> (r: bool)
    ensures
        r == valid_utf8(bytes@),
{
    core::str::from_utf8(bytes).is_ok()
}

/// Whether `bytes` are valid UTF-8.
pub fn is_utf8(bytes: &[u8]) -> (r: bool)
    ensures
        r == valid_utf8(bytes@),
{
    utf8_ok(bytes)
}

/// The bytes of `"chosen"`.
pub open spec fn lit_chosen() -> Seq<u8> {
    seq![99u8, 104, 111, 115, 101, 110]
}

/// Whether `s` is exactly `"chosen"`.
pub(crate) fn is_chosen(s: &[u8]) -> (r: bool)
    ensures
        r == (s@ == lit_chosen()),
{
    let lit: [u8; 6] = [99u8, 104, 111, 115, 101, 110];
    assert(lit@ =~= lit_chosen());
    bytes_eq(s, &lit)
}

/// The bytes of `"memory"`.
pub open spec fn lit_memory() -> Seq<u8> {
    seq![109u8, 101, 109, 111, 114, 121]
}

/// Whether `s` starts with `"memory"`.
pub(crate) fn starts_with_memory(s: &[u8]) -> (r: bool)
    ensures
        r == is_prefix(lit_memory(), s@),
{
    let lit: [u8; 6] = [109u8, 101, 109, 111, 114, 121];
    assert(lit@ =~= lit_memory());
    has_prefix(s, &lit)
}

/// The bytes of `"framebuffer"`.
pub open spec fn lit_framebuffer() -> Seq<u8> {
    seq![102u8, 114, 97, 109, 101, 98, 117, 102, 102, 101, 114]
}

/// Whether `s` starts with `"framebuffer"`.
pub(crate) fn starts_with_framebuffer(s: &[u8]) -> (r: bool)
    ensures
        r == is_prefix(lit_framebuffer(), s@),
{
    let lit: [u8; 11] = [102u8, 114, 97, 109, 101, 98, 117, 102, 102, 101, 114];
    assert(lit@ =~= lit_framebuffer());
    has_prefix(s, &lit)
}

/// The bytes of `"simple-framebuffer"`.
pub open spec fn lit_simple_framebuffer() -> Seq<u8> {
    seq![115u8, 105, 109, 112, 108, 101, 45, 102, 114, 97, 109, 101, 98, 117, 102, 102, 101, 114]
}

/// Whether `s` is exactly `"simple-framebuffer"`.
pub(crate) fn is_simple_framebuffer(s: &[u8]) -> (r: bool)
    ensures
        r == (s@ == lit_simple_framebuffer()),
{
    let lit: [u8; 18] = [115u8, 105, 109, 112, 108, 101, 45, 102, 114, 97, 109, 101, 98, 117, 102, 102, 101, 114];
    assert(lit@ =~= lit_simple_framebuffer());
    bytes_eq(s, &lit)
}

/// The bytes of `"#address-cells"`.
pub open spec fn lit_address_cells() -> Seq<u8> {
    seq![35u8, 97, 100, 100, 114, 101, 115, 115, 45, 99, 101, 108, 108, 115]
}

/// Whether `s` is exactly `"#address-cells"`.
pub(crate) fn is_address_cells(s: &[u8]) -> (r: bool)
    ensures
        r == (s@ == lit_address_cells()),
{
    let lit: [u8; 14] = [35u8, 97, 100, 100, 114, 101, 115, 115, 45, 99, 101, 108, 108, 115];
    assert(lit@ =~= lit_address_cells());
    bytes_eq(s, &lit)
}

/// The bytes of `"#size-cells"`.
pub open spec fn lit_size_cells() -> Seq<u8> {
    seq![35u8, 115, 105, 122, 101, 45, 99, 101, 108, 108, 115]
}

/// Whether `s` is exactly `"#size-cells"`.
pub(crate) fn is_size_cells(s: &[u8]) -> (r: bool)
    ensures
        r == (s@ == lit_size_cells()),
{
    let lit: [u8; 11] = [35u8, 115, 105, 122, 101, 45, 99, 101, 108, 108, 115];
    assert(lit@ =~= lit_size_cells());
    bytes_eq(s, &lit)
}

/// The bytes of `"compatible"`.
pub open spec fn lit_compatible() -> Seq<u8> {
    seq![99u8, 111, 109, 112, 97, 116, 105, 98, 108, 101]
}

/// Whether `s` is exactly `"compatible"`.
pub(crate) fn is_compatible(s: &[u8]) -> (r: bool)
    ensures
        r == (s@ == lit_compatible()),
{
    let lit: [u8; 10] = [99u8, 111, 109, 112, 97, 116, 105, 98, 108, 101];
    assert(lit@ =~= lit_compatible());
    bytes_eq(s, &lit)
}

/// The bytes of `"reg"`.
pub open spec fn lit_reg() -> Seq<u8> {
    seq![114u8, 101, 103]
}

/// Whether `s` is exactly `"reg"`.
pub(crate) fn is_reg(s: &[u8]) -> (r: bool)
    ensures
        r == (s@ == lit_reg()),
{
    let lit: [u8; 3] = [114u8, 101, 103];
    assert(lit@ =~= lit_reg());
    bytes_eq(s, &lit)
}

/// The bytes of `"clock-frequency"`.
pub open spec fn lit_clock_frequency() -> Seq<u8> {
    seq![99u8, 108, 111, 99, 107, 45, 102, 114, 101, 113, 117, 101, 110, 99, 121]
}

/// Whether `s` is exactly `"clock-frequency"`.
pub(crate) fn is_clock_frequency(s: &[u8]) -> (r: bool)
    ensures
        r == (s@ == lit_clock_frequency()),
{
    let lit: [u8; 15] = [99u8, 108, 111, 99, 107, 45, 102, 114, 101, 113, 117, 101, 110, 99, 121];
    assert(lit@ =~= lit_clock_frequency());
    bytes_eq(s, &lit)
}

/// The bytes of `"stdout-path"`.
pub open spec fn lit_stdout_path() -> Seq<u8> {
    seq![115u8, 116, 100, 111, 117, 116, 45, 112, 97, 116, 104]
}

/// Whether `s` is exactly `"stdout-path"`.
pub(crate) fn is_stdout_path(s: &[u8]) -> (r: bool)
    ensures
        r == (s@ == lit_stdout_path()),
{
    let lit: [u8; 11] = [115u8, 116, 100, 111, 117, 116, 45, 112, 97, 116, 104];
    assert(lit@ =~= lit_stdout_path());
    bytes_eq(s, &lit)
}

/// The bytes of `"width"`.
pub open spec fn lit_width() -> Seq<u8> {
    seq![119u8, 105, 100, 116, 104]
}

/// Whether `s` is exactly `"width"`.
pub(crate) fn is_width(s: &[u8]) -> (r: bool)
    ensures
        r == (s@ == lit_width()),
{
    let lit: [u8; 5] = [119u8, 105, 100, 116, 104];
    assert(lit@ =~= lit_width());
    bytes_eq(s, &lit)
}

/// The bytes of `"height"`.
pub open spec fn lit_height() -> Seq<u8> {
    seq![104u8, 101, 105, 103, 104, 116]
}

/// Whether `s` is exactly `"height"`.
pub(crate) fn is_height(s: &[u8]) -> (r: bool)
    ensures
        r == (s@ == lit_height()),
{
    let lit: [u8; 6] = [104u8, 101, 105, 103, 104, 116];
    assert(lit@ =~= lit_height());
    bytes_eq(s, &lit)
}

/// The bytes of `"stride"`.
pub open spec fn lit_stride() -> Seq<u8> {
    seq![115u8, 116, 114, 105, 100, 101]
}

/// Whether `s` is exactly `"stride"`.
pub(crate) fn is_stride(s: &[u8]) -> (r: bool)
    ensures
        r == (s@ == lit_stride()),
{
    let lit: [u8; 6] = [115u8, 116, 114, 105, 100, 101];
    assert(lit@ =~= lit_stride());
    bytes_eq(s, &lit)
}

/// The bytes of `"format"`.
pub open spec fn lit_format() -> Seq<u8> {
    seq![102u8, 111, 114, 109, 97, 116]
}

/// Whether `s` is exactly `"format"`.
pub(crate) fn is_format(s: &[u8]) -> (r: bool)
    ensures
        r == (s@ == lit_format()),
{
    let lit: [u8; 6] = [102u8, 111, 114, 109, 97, 116];
    assert(lit@ =~= lit_format());
    bytes_eq(s, &lit)
}

/// The bytes of `"arm,gic-v3"`.
pub open spec fn lit_gic_v3() -> Seq<u8> {
    seq![97u8, 114, 109, 44, 103, 105, 99, 45, 118, 51]
}

/// Whether `s` is exactly `"arm,gic-v3"`.
pub(crate) fn is_gic_v3(s: &[u8]) -> (r: bool)
    ensures
        r == (s@ == lit_gic_v3()),
{
    let lit: [u8; 10] = [97u8, 114, 109, 44, 103, 105, 99, 45, 118, 51];
    assert(lit@ =~= lit_gic_v3());
    bytes_eq(s, &lit)
}

/// The bytes of `"arm,gic-400"`.
pub open spec fn lit_gic_400() -> Seq<u8> {
    seq![97u8, 114, 109, 44, 103, 105, 99, 45, 52, 48, 48]
}

/// Whether `s` is exactly `"arm,gic-400"`.
pub(crate) fn is_gic_400(s: &[u8]) -> (r: bool)
    ensures
        r == (s@ == lit_gic_400()),
{
    let lit: [u8; 11] = [97u8, 114, 109, 44, 103, 105, 99, 45, 52, 48, 48];
    assert(lit@ =~= lit_gic_400());
    bytes_eq(s, &lit)
}

/// The bytes of `"arm,cortex-a15-gic"`.
pub open spec fn lit_cortex_a15_gic() -> Seq<u8> {
    seq![97u8, 114, 109, 44, 99, 111, 114, 116, 101, 120, 45, 97, 49, 53, 45, 103, 105, 99]
}

/// Whether `s` is exactly `"arm,cortex-a15-gic"`.
pub(crate) fn is_cortex_a15_gic(s: &[u8]) -> (r: bool)
    ensures
        r == (s@ == lit_cortex_a15_gic()),
{
    let lit: [u8; 18] = [97u8, 114, 109, 44, 99, 111, 114, 116, 101, 120, 45, 97, 49, 53, 45, 103, 105, 99];
    assert(lit@ =~= lit_cortex_a15_gic());
    bytes_eq(s, &lit)
}

/// The bytes of `"arm,cortex-a9-gic"`.
pub open spec fn lit_cortex_a9_gic() -> Seq<u8> {
    seq![97u8, 114, 109, 44, 99, 111, 114, 116, 101, 120, 45, 97, 57, 45, 103, 105, 99]
}

/// Whether `s` is exactly `"arm,cortex-a9-gic"`.
pub(crate) fn is_cortex_a9_gic(s: &[u8]) -> (r: bool)
    ensures
        r == (s@ == lit_cortex_a9_gic()),
{
    let lit: [u8; 17] = [97u8, 114, 109, 44, 99, 111, 114, 116, 101, 120, 45, 97, 57, 45, 103, 105, 99];
    assert(lit@ =~= lit_cortex_a9_gic());
    bytes_eq(s, &lit)
}

/// The bytes of `"arm,gic"`.
pub open spec fn lit_arm_gic() -> Seq<u8> {
    seq![97u8, 114, 109, 44, 103, 105, 99]
}

/// Whether `s` is exactly `"arm,gic"`.
pub(crate) fn is_arm_gic(s: &[u8]) -> (r: bool)
    ensures
        r == (s@ == lit_arm_gic()),
{
    let lit: [u8; 7] = [97u8, 114, 109, 44, 103, 105, 99];
    assert(lit@ =~= lit_arm_gic());
    bytes_eq(s, &lit)
}

/// The bytes of `"arm,armv8-timer"`.
pub open spec fn lit_armv8_timer() -> Seq<u8> {
    seq![97u8, 114, 109, 44, 97, 114, 109, 118, 56, 45, 116, 105, 109, 101, 114]
}

/// Whether `s` is exactly `"arm,armv8-timer"`.
pub(crate) fn is_armv8_timer(s: &[u8]) -> (r: bool)
    ensures
        r == (s@ == lit_armv8_timer()),
{
    let lit: [u8; 15] = [97u8, 114, 109, 44, 97, 114, 109, 118, 56, 45, 116, 105, 109, 101, 114];
    assert(lit@ =~= lit_armv8_timer());
    bytes_eq(s, &lit)
}

/// The bytes of `"arm,armv7-timer"`.
pub open spec fn lit_armv7_timer() -> Seq<u8> {
    seq![97u8, 114, 109, 44, 97, 114, 109, 118, 55, 45, 116, 105, 109, 101, 114]
}

/// Whether `s` is exactly `"arm,armv7-timer"`.
pub(crate) fn is_armv7_timer(s: &[u8]) -> (r: bool)
    ensures
        r == (s@ == lit_armv7_timer()),
{
    let lit: [u8; 15] = [97u8, 114, 109, 44, 97, 114, 109, 118, 55, 45, 116, 105, 109, 101, 114];
    assert(lit@ =~= lit_armv7_timer());
    bytes_eq(s, &lit)
}

/// The bytes of `"arm,pl011"`.
pub open spec fn lit_pl011() -> Seq<u8> {
    seq![97u8, 114, 109, 44, 112, 108, 48, 49, 49]
}

/// Whether `s` is exactly `"arm,pl011"`.
pub(crate) fn is_pl011(s: &[u8]) -> (r: bool)
    ensures
        r == (s@ == lit_pl011()),
{
    let lit: [u8; 9] = [97u8, 114, 109, 44, 112, 108, 48, 49, 49];
    assert(lit@ =~= lit_pl011());
    bytes_eq(s, &lit)
}

/// The bytes of `"arm,primecell"`.
pub open spec fn lit_primecell() -> Seq<u8> {
    seq![97u8, 114, 109, 44, 112, 114, 105, 109, 101, 99, 101, 108, 108]
}

/// Whether `s` is exactly `"arm,primecell"`.
pub(crate) fn is_primecell(s: &[u8]) -> (r: bool)
    ensures
        r == (s@ == lit_primecell()),
{
    let lit: [u8; 13] = [97u8, 114, 109, 44, 112, 114, 105, 109, 101, 99, 101, 108, 108];
    assert(lit@ =~= lit_primecell());
    bytes_eq(s, &lit)
}

/// The bytes of `"ns16550"`.
pub open spec fn lit_ns16550() -> Seq<u8> {
    seq![110u8, 115, 49, 54, 53, 53, 48]
}

/// Whether `s` is exactly `"ns16550"`.
pub(crate) fn is_ns16550(s: &[u8]) -> (r: bool)
    ensures
        r == (s@ == lit_ns16550()),
{
    let lit: [u8; 7] = [110u8, 115, 49, 54, 53, 53, 48];
    assert(lit@ =~= lit_ns16550());
    bytes_eq(s, &lit)
}

/// The bytes of `"ns16550a"`.
pub open spec fn lit_ns16550a() -> Seq<u8> {
    seq![110u8, 115, 49, 54, 53, 53, 48, 97]
}

/// Whether `s` is exactly `"ns16550a"`.
pub(crate) fn is_ns16550a(s: &[u8]) -> (r: bool)
    ensures
        r == (s@ == lit_ns16550a()),
{
    let lit: [u8; 8] = [110u8, 115, 49, 54, 53, 53, 48, 97];
    assert(lit@ =~= lit_ns16550a());
    bytes_eq(s, &lit)
}

/// The bytes of `"snps,dw-apb-uart"`.
pub open spec fn lit_dw_apb_uart() -> Seq<u8> {
    seq![115u8, 110, 112, 115, 44, 100, 119, 45, 97, 112, 98, 45, 117, 97, 114, 116]
}

/// Whether `s` is exactly `"snps,dw-apb-uart"`.
pub(crate) fn is_dw_apb_uart(s: &[u8]) -> (r: bool)
    ensures
        r == (s@ == lit_dw_apb_uart()),
{
    let lit: [u8; 16] = [115u8, 110, 112, 115, 44, 100, 119, 45, 97, 112, 98, 45, 117, 97, 114, 116];
    assert(lit@ =~= lit_dw_apb_uart());
    bytes_eq(s, &lit)
}

/// The bytes of `"fsl,16550"`.
pub open spec fn lit_fsl_16550() -> Seq<u8> {
    seq![102u8, 115, 108, 44, 49, 54, 53, 53, 48]
}

/// Whether `s` is exactly `"fsl,16550"`.
pub(crate) fn is_fsl_16550(s: &[u8]) -> (r: bool)
    ensures
        r == (s@ == lit_fsl_16550()),
{
    let lit: [u8; 9] = [102u8, 115, 108, 44, 49, 54, 53, 53, 48];
    assert(lit@ =~= lit_fsl_16550());
    bytes_eq(s, &lit)
}

/// The bytes of `"nvidia,tegra20-uart"`.
pub open spec fn lit_tegra20_uart() -> Seq<u8> {
    seq![110u8, 118, 105, 100, 105, 97, 44, 116, 101, 103, 114, 97, 50, 48, 45, 117, 97, 114, 116]
}

/// Whether `s` is exactly `"nvidia,tegra20-uart"`.
pub(crate) fn is_tegra20_uart(s: &[u8]) -> (r: bool)
    ensures
        r == (s@ == lit_tegra20_uart()),
{
    let lit: [u8; 19] = [110u8, 118, 105, 100, 105, 97, 44, 116, 101, 103, 114, 97, 50, 48, 45, 117, 97, 114, 116];
    assert(lit@ =~= lit_tegra20_uart());
    bytes_eq(s, &lit)
}

/// The bytes of `"brcm,bcm2835-aux-uart"`.
pub open spec fn lit_bcm2835_aux() -> Seq<u8> {
    seq![98u8, 114, 99, 109, 44, 98, 99, 109, 50, 56, 51, 53, 45, 97, 117, 120, 45, 117, 97, 114, 116]
}

/// Whether `s` is exactly `"brcm,bcm2835-aux-uart"`.
pub(crate) fn is_bcm2835_aux(s: &[u8]) -> (r: bool)
    ensures
        r == (s@ == lit_bcm2835_aux()),
{
    let lit: [u8; 21] = [98u8, 114, 99, 109, 44, 98, 99, 109, 50, 56, 51, 53, 45, 97, 117, 120, 45, 117, 97, 114, 116];
    assert(lit@ =~= lit_bcm2835_aux());
    bytes_eq(s, &lit)
}

/// The bytes of `"brcm,bcm2837-aux-uart"`.
pub open spec fn lit_bcm2837_aux() -> Seq<u8> {
    seq![98u8, 114, 99, 109, 44, 98, 99, 109, 50, 56, 51, 55, 45, 97, 117, 120, 45, 117, 97, 114, 116]
}

/// Whether `s` is exactly `"brcm,bcm2837-aux-uart"`.
pub(crate) fn is_bcm2837_aux(s: &[u8]) -> (r: bool)
    ensures
        r == (s@ == lit_bcm2837_aux()),
{
    let lit: [u8; 21] = [98u8, 114, 99, 109, 44, 98, 99, 109, 50, 56, 51, 55, 45, 97, 117, 120, 45, 117, 97, 114, 116];
    assert(lit@ =~= lit_bcm2837_aux());
    bytes_eq(s, &lit)
}

/// The bytes of `"a8b8g8r8"`.
pub open spec fn lit_a8b8g8r8() -> Seq<u8> {
    seq![97u8, 56, 98, 56, 103, 56, 114, 56]
}

/// Whether `s` is exactly `"a8b8g8r8"`.
pub(crate) fn is_a8b8g8r8(s: &[u8]) -> (r: bool)
    ensures
        r == (s@ == lit_a8b8g8r8()),
{
    let lit: [u8; 8] = [97u8, 56, 98, 56, 103, 56, 114, 56];
    assert(lit@ =~= lit_a8b8g8r8());
    bytes_eq(s, &lit)
}

/// The bytes of `"x8b8g8r8"`.
pub open spec fn lit_x8b8g8r8() -> Seq<u8> {
    seq![120u8, 56, 98, 56, 103, 56, 114, 56]
}

/// Whether `s` is exactly `"x8b8g8r8"`.
pub(crate) fn is_x8b8g8r8(s: &[u8]) -> (r: bool)
    ensures
        r == (s@ == lit_x8b8g8r8()),
{
    let lit: [u8; 8] = [120u8, 56, 98, 56, 103, 56, 114, 56];
    assert(lit@ =~= lit_x8b8g8r8());
    bytes_eq(s, &lit)
}

/// The bytes of `"r8g8b8a8"`.
pub open spec fn lit_r8g8b8a8() -> Seq<u8> {
    seq![114u8, 56, 103, 56, 98, 56, 97, 56]
}

/// Whether `s` is exactly `"r8g8b8a8"`.
pub(crate) fn is_r8g8b8a8(s: &[u8]) -> (r: bool)
    ensures
        r == (s@ == lit_r8g8b8a8()),
{
    let lit: [u8; 8] = [114u8, 56, 103, 56, 98, 56, 97, 56];
    assert(lit@ =~= lit_r8g8b8a8());
    bytes_eq(s, &lit)
}

/// The bytes of `"r8g8b8x8"`.
pub open spec fn lit_r8g8b8x8() -> Seq<u8> {
    seq![114u8, 56, 103, 56, 98, 56, 120, 56]
}

/// Whether `s` is exactly `"r8g8b8x8"`.
pub(crate) fn is_r8g8b8x8(s: &[u8]) -> (r: bool)
    ensures
        r == (s@ == lit_r8g8b8x8()),
{
    let lit: [u8; 8] = [114u8, 56, 103, 56, 98, 56, 120, 56];
    assert(lit@ =~= lit_r8g8b8x8());
    bytes_eq(s, &lit)
}

/// The bytes of `"serial0"`.
pub open spec fn lit_serial0() -> Seq<u8> {
    seq![115u8, 101, 114, 105, 97, 108, 48]
}

/// Whether `s` is exactly `"serial0"`.
pub(crate) fn is_serial0(s: &[u8]) -> (r: bool)
    ensures
        r == (s@ == lit_serial0()),
{
    let lit: [u8; 7] = [115u8, 101, 114, 105, 97, 108, 48];
    assert(lit@ =~= lit_serial0());
    bytes_eq(s, &lit)
}

/// The bytes of `"serial1"`.
pub open spec fn lit_serial1() -> Seq<u8> {
    seq![115u8, 101, 114, 105, 97, 108, 49]
}

/// Whether `s` is exactly `"serial1"`.
pub(crate) fn is_serial1(s: &[u8]) -> (r: bool)
    ensures
        r == (s@ == lit_serial1()),
{
    let lit: [u8; 7] = [115u8, 101, 114, 105, 97, 108, 49];
    assert(lit@ =~= lit_serial1());
    bytes_eq(s, &lit)
}

/// The bytes of `"serial2"`.
pub open spec fn lit_serial2() -> Seq<u8> {
    seq![115u8, 101, 114, 105, 97, 108, 50]
}

/// Whether `s` is exactly `"serial2"`.
pub(crate) fn is_serial2(s: &[u8]) -> (r: bool)
    ensures
        r == (s@ == lit_serial2()),
{
    let lit: [u8; 7] = [115u8, 101, 114, 105, 97, 108, 50];
    assert(lit@ =~= lit_serial2());
    bytes_eq(s, &lit)
}

/// The bytes of `"serial"`.
pub open spec fn lit_serial() -> Seq<u8> {
    seq![115u8, 101, 114, 105, 97, 108]
}

/// Whether `s` contains `"serial"`.
pub(crate) fn contains_serial(s: &[u8]) -> (r: bool)
    ensures
        r == contains_seq(s@, lit_serial()),
{
    let lit: [u8; 6] = [115u8, 101, 114, 105, 97, 108];
    assert(lit@ =~= lit_serial());
    contains_bytes(s, &lit)
}

} // verus!
