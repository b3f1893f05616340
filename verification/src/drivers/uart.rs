//! UART register programming and the `Console` interface.
//!
//! The drivers decide the register values; the platform layer performs
//! the MMIO stores, in the order given, at the driver's base address.

use vstd::prelude::*;

verus! {

/// Minimum UART operations the kernel core relies on.
pub trait Console {
    /// Send one byte, waiting while the transmit FIFO is full.
    fn putb(&mut self, b: u8);

    /// Read one byte without waiting; `None` when the receive FIFO is
    /// empty.
    fn getb(&mut self) -> Option<u8>;
}

/// `s` with a carriage return put before every line feed, so that serial
/// terminals start each line at column 0.
pub open spec fn crlf_spec(s: Seq<u8>) -> Seq<u8>
    decreases s.len(),
{
    if s.len() == 0 {
        Seq::empty()
    } else {
        let head = if s[0] == 10 { seq![13u8, 10u8] } else { seq![s[0]] };
        head + crlf_spec(s.drop_first())
    }
}

/// `crlf_spec` of a sequence extended by one byte.
proof fn lemma_crlf_push(s: Seq<u8>, b: u8)
    ensures
        crlf_spec(s.push(b)) == crlf_spec(s) + (if b == 10 { seq![13u8, 10u8] } else { seq![b] }),
    decreases s.len(),
{
    if s.len() == 0 {
        assert(s.push(b).drop_first() =~= Seq::<u8>::empty());
        assert(crlf_spec(s.push(b)) =~= (if b == 10 { seq![13u8, 10u8] } else { seq![b] }) + crlf_spec(Seq::<u8>::empty()));
        assert(crlf_spec(s) + (if b == 10 { seq![13u8, 10u8] } else { seq![b] }) =~= (if b == 10 { seq![13u8, 10u8] } else { seq![b] }));
    } else {
        assert(s.push(b).drop_first() =~= s.drop_first().push(b));
        lemma_crlf_push(s.drop_first(), b);
        let head = if s[0] == 10 { seq![13u8, 10u8] } else { seq![s[0]] };
        assert(crlf_spec(s.push(b)) == head + crlf_spec(s.drop_first().push(b)));
        assert(head + (crlf_spec(s.drop_first()) + (if b == 10 { seq![13u8, 10u8] } else { seq![b] })) =~= (head + crlf_spec(s.drop_first())) + (if b == 10 { seq![13u8, 10u8] } else { seq![b] }));
    }
}

/// No bare line feed reaches the terminal: in the bytes sent for any
/// text, every line feed comes right after a carriage return, and the
/// line feeds are exactly those of the text.
pub proof fn law_crlf_no_bare_lf(s: Seq<u8>)
    ensures
        forall|i: int| 0 <= i < crlf_spec(s).len() && #[trigger] crlf_spec(s)[i] == 10 ==> i > 0 && crlf_spec(s)[i - 1] == 13,
        crlf_spec(s).filter(|b: u8| b == 10u8).len() == s.filter(|b: u8| b == 10u8).len(),
    decreases s.len(),
{
    if s.len() > 0 {
        let rest = s.drop_first();
        law_crlf_no_bare_lf(rest);
        let head = if s[0] == 10 { seq![13u8, 10u8] } else { seq![s[0]] };
        let out = crlf_spec(s);
        let r = crlf_spec(rest);
        assert(out == head + r);
        assert forall|i: int| 0 <= i < out.len() && #[trigger] out[i] == 10 implies i > 0 && out[i - 1] == 13 by {
            if i >= head.len() {
                assert(out[i] == r[i - head.len()]);
                if i - head.len() > 0 {
                    assert(out[i - 1] == r[i - head.len() - 1]);
                }
            }
        }
        let f = |b: u8| b == 10u8;
        Seq::filter_distributes_over_add(head, r, f);
        assert(s =~= seq![s[0]] + rest);
        Seq::filter_distributes_over_add(seq![s[0]], rest, f);
        reveal_with_fuel(Seq::filter, 3);
        assert(seq![13u8, 10u8].drop_last() =~= seq![13u8]);
        assert(seq![13u8].drop_last() =~= Seq::<u8>::empty());
        assert(seq![s[0]].drop_last() =~= Seq::<u8>::empty());
    }
}

/// The bytes a console writer sends for `s`: each line feed preceded by
/// a carriage return.
pub fn crlf(s: &[u8]) -> (r: Vec<u8>)
    ensures
        r@ == crlf_spec(s@),
{
    let mut out: Vec<u8> = Vec::new();
    let mut i: usize = 0;
    while i < s.len()
        invariant
            i <= s@.len(),
            out@ == crlf_spec(s@.take(i as int)),
        decreases s.len() - i,
    {
        let b = s[i];
        proof {
            assert(s@.take(i + 1) =~= s@.take(i as int).push(b));
            lemma_crlf_push(s@.take(i as int), b);
        }
        if b == 10 {
            out.push(13);
        }
        out.push(b);
        i = i + 1;
    }
    assert(s@.take(s@.len() as int) =~= s@);
    out
}

/// Baud rate every driver programs.
pub const BAUD: u32 = 115_200;

pub const UARTDR: usize = 0x000;
pub const UARTFR: usize = 0x018;
pub const UARTIBRD: usize = 0x024;
pub const UARTFBRD: usize = 0x028;
pub const UARTLCR_H: usize = 0x02c;
pub const UARTCR: usize = 0x030;
pub const UARTIMSC: usize = 0x038;
pub const UARTICR: usize = 0x044;

/// Flag register: transmit FIFO full.
pub const FR_TXFF: u32 = 0x20;
/// Flag register: receive FIFO empty.
pub const FR_RXFE: u32 = 0x10;

/// ARM PL011 UART.
#[derive(Debug, Clone, Copy, PartialEq, Eq, Structural)]
pub struct Pl011 {
    pub base: usize,
}

/// PL011 baud divisor times 64 for reference clock `clk`:
/// `64 * clk / (16 * BAUD)`.
pub open spec fn pl011_div_x64(clk: u32) -> int {
    clk * 4 / 115_200
}

impl Pl011 {
    pub fn new(base: usize) -> (u: Self)
        ensures
            u.base == base,
    {
        Pl011 { base }
    }

    /// Register writes that set the UART up for 115200 8N1 with FIFOs
    /// on a reference clock of `clock_hz` (24 MHz when unknown, 0):
    /// disable, clear interrupts, mask them, integer and fractional baud
    /// divisor, line control, enable UART, TX and RX.
    pub fn init(&self, clock_hz: u32) -> (w: Vec<(usize, u32)>)
        ensures
            ({
                let clk = if clock_hz == 0 { 24_000_000u32 } else { clock_hz };
                let d = pl011_div_x64(clk);
                w@ == seq![
                    (UARTCR, 0u32),
                    (UARTICR, 0x7ffu32),
                    (UARTIMSC, 0u32),
                    (UARTIBRD, (d / 64) as u32),
                    (UARTFBRD, (d % 64) as u32),
                    (UARTLCR_H, 0x70u32),
                    (UARTCR, 0x301u32),
                ]
            }),
    {
        let clk = if clock_hz == 0 {
            24_000_000
        } else {
            clock_hz
        };
        let div_x64 = ((clk as u64) * 4) / (BAUD as u64);
        let ibrd = (div_x64 >> 6) as u32;
        let fbrd = (div_x64 & 0x3f) as u32;
        assert(ibrd == (div_x64 / 64) as u32 && fbrd == (div_x64 % 64) as u32) by (bit_vector)
            requires
                ibrd == (div_x64 >> 6) as u32,
                fbrd == (div_x64 & 0x3f) as u32,
        ;
        let mut w: Vec<(usize, u32)> = Vec::new();
        w.push((UARTCR, 0));
        w.push((UARTICR, 0x7ff));
        w.push((UARTIMSC, 0));
        w.push((UARTIBRD, ibrd));
        w.push((UARTFBRD, fbrd));
        w.push((UARTLCR_H, 0x70));
        w.push((UARTCR, 0x301));
        proof {
            let d = pl011_div_x64(clk);
            assert(div_x64 == d);
            assert(w@ =~= seq![
                (UARTCR, 0u32),
                (UARTICR, 0x7ffu32),
                (UARTIMSC, 0u32),
                (UARTIBRD, (d / 64) as u32),
                (UARTFBRD, (d % 64) as u32),
                (UARTLCR_H, 0x70u32),
                (UARTCR, 0x301u32),
            ]);
        }
        w
    }

    /// Whether a byte can be sent, from the flag register `fr`.
    pub fn can_send(fr: u32) -> (r: bool)
        ensures
            r == (fr & FR_TXFF == 0),
    {
        fr & FR_TXFF == 0
    }

    /// Whether a byte is waiting, from the flag register `fr`.
    pub fn can_recv(fr: u32) -> (r: bool)
        ensures
            r == (fr & FR_RXFE == 0),
    {
        fr & FR_RXFE == 0
    }
}

/// 16550 register indices (scaled by the stride to get byte offsets).
pub const NS_RHR: usize = 0;
pub const NS_THR: usize = 0;
pub const NS_IER: usize = 1;
pub const NS_FCR: usize = 2;
pub const NS_LCR: usize = 3;
pub const NS_MCR: usize = 4;
pub const NS_LSR: usize = 5;
pub const NS_DLL: usize = 0;
pub const NS_DLH: usize = 1;

/// Line status: transmit holding register empty.
pub const LSR_THRE: u8 = 0x20;
/// Line status: data ready.
pub const LSR_DR: u8 = 0x01;

/// 8250 / 16550-compatible UART with registers `stride` bytes apart.
#[derive(Debug, Clone, Copy, PartialEq, Eq, Structural)]
pub struct Ns16550 {
    pub base: usize,
    pub stride: usize,
}

/// 16550 baud divisor for input clock `clock_hz` (at least 1), as the
/// 16-bit value programmed.
pub open spec fn ns16550_div(clock_hz: u32) -> u16 {
    let d = clock_hz / 1_843_200u32;
    (if d < 1 { 1 } else { d }) as u16
}

impl Ns16550 {
    /// The UART at `base` with registers `stride` bytes apart (1 for 0).
    pub fn new(base: usize, stride: usize) -> (u: Self)
        ensures
            u.base == base,
            u.stride == (if stride == 0 { 1 } else { stride }),
    {
        Ns16550 { base, stride: if stride == 0 { 1 } else { stride } }
    }

    /// Register writes (register index, byte) for 115200 8N1 with FIFOs:
    /// interrupts off; with a known clock, the divisor latch set; then
    /// line control, FIFO control and modem control.
    pub fn init(&self, clock_hz: u32) -> (w: Vec<(usize, u8)>)
        ensures
            clock_hz == 0 ==> w@ == seq![(NS_IER, 0u8), (NS_LCR, 0x03u8), (NS_FCR, 0xc7u8), (NS_MCR, 0x0bu8)],
            clock_hz != 0 ==> w@ == seq![
                (NS_IER, 0u8),
                (NS_LCR, 0x80u8),
                (NS_DLL, (ns16550_div(clock_hz) % 256) as u8),
                (NS_DLH, (ns16550_div(clock_hz) / 256) as u8),
                (NS_LCR, 0x03u8),
                (NS_FCR, 0xc7u8),
                (NS_MCR, 0x0bu8),
            ],
    {
        let mut w: Vec<(usize, u8)> = Vec::new();
        w.push((NS_IER, 0));
        if clock_hz != 0 {
            let q = clock_hz / (16 * BAUD);
            let div = (if q < 1 {
                1
            } else {
                q
            }) as u16;
            let lo = (div & 0xff) as u8;
            let hi = ((div >> 8) & 0xff) as u8;
            assert(lo == (div % 256) as u8 && hi == (div / 256) as u8) by (bit_vector)
                requires
                    lo == (div & 0xff) as u8,
                    hi == ((div >> 8) & 0xff) as u8,
            ;
            w.push((NS_LCR, 0x80));
            w.push((NS_DLL, lo));
            w.push((NS_DLH, hi));
        }
        w.push((NS_LCR, 0x03));
        w.push((NS_FCR, 0xc7));
        w.push((NS_MCR, 0x0b));
        proof {
            if clock_hz == 0 {
                assert(w@ =~= seq![(NS_IER, 0u8), (NS_LCR, 0x03u8), (NS_FCR, 0xc7u8), (NS_MCR, 0x0bu8)]);
            } else {
                assert(w@ =~= seq![
                    (NS_IER, 0u8),
                    (NS_LCR, 0x80u8),
                    (NS_DLL, (ns16550_div(clock_hz) % 256) as u8),
                    (NS_DLH, (ns16550_div(clock_hz) / 256) as u8),
                    (NS_LCR, 0x03u8),
                    (NS_FCR, 0xc7u8),
                    (NS_MCR, 0x0bu8),
                ]);
            }
        }
        w
    }

    /// Whether a byte can be sent, from the line status `lsr`.
    pub fn can_send(lsr: u8) -> (r: bool)
        ensures
            r == (lsr & LSR_THRE != 0),
    {
        lsr & LSR_THRE != 0
    }

    /// Whether a byte is waiting, from the line status `lsr`.
    pub fn can_recv(lsr: u8) -> (r: bool)
        ensures
            r == (lsr & LSR_DR != 0),
    {
        lsr & LSR_DR != 0
    }
}

pub const AUX_MU_IO: usize = 0x40;
pub const AUX_MU_IER: usize = 0x44;
pub const AUX_MU_IIR: usize = 0x48;
pub const AUX_MU_LCR: usize = 0x4c;
pub const AUX_MU_MCR: usize = 0x50;
pub const AUX_MU_LSR: usize = 0x54;
pub const AUX_MU_CNTL: usize = 0x60;
pub const AUX_MU_BAUD: usize = 0x68;

/// Broadcom 2835 auxiliary mini-UART.
#[derive(Debug, Clone, Copy, PartialEq, Eq, Structural)]
pub struct BcmMiniUart {
    pub base: usize,
}

impl BcmMiniUart {
    pub fn new(base: usize) -> (u: Self)
        ensures
            u.base == base,
    {
        BcmMiniUart { base }
    }

    /// Register writes for 115200 8N1: receiver and transmitter off,
    /// interrupts masked, FIFOs cleared, 8-bit mode, modem control
    /// cleared; with a known clock, the baud register
    /// `clock / (8 * 115200) - 1` (not below 0); receiver and
    /// transmitter on.
    pub fn init(&self, clock_hz: u32) -> (w: Vec<(usize, u32)>)
        ensures
            ({
                let q = clock_hz / 921_600u32;
                let div = (if q >= 1 { q - 1 } else { 0 }) as u32;
                let head = seq![
                    (AUX_MU_CNTL, 0u32),
                    (AUX_MU_IER, 0u32),
                    (AUX_MU_IIR, 0xc6u32),
                    (AUX_MU_LCR, 0x03u32),
                    (AUX_MU_MCR, 0u32),
                ];
                w@ == head + (if clock_hz != 0 { seq![(AUX_MU_BAUD, div)] } else { Seq::empty() }) + seq![
                    (AUX_MU_CNTL, 0x03u32),
                ]
            }),
    {
        let mut w: Vec<(usize, u32)> = Vec::new();
        w.push((AUX_MU_CNTL, 0));
        w.push((AUX_MU_IER, 0));
        w.push((AUX_MU_IIR, 0xc6));
        w.push((AUX_MU_LCR, 0x03));
        w.push((AUX_MU_MCR, 0x00));
        if clock_hz != 0 {
            let div = (clock_hz / (8 * BAUD)).saturating_sub(1);
            w.push((AUX_MU_BAUD, div));
        }
        w.push((AUX_MU_CNTL, 0x03));
        proof {
            let q = clock_hz / 921_600u32;
            let div = (if q >= 1 { q - 1 } else { 0 }) as u32;
            let head = seq![
                (AUX_MU_CNTL, 0u32),
                (AUX_MU_IER, 0u32),
                (AUX_MU_IIR, 0xc6u32),
                (AUX_MU_LCR, 0x03u32),
                (AUX_MU_MCR, 0u32),
            ];
            assert(w@ =~= head + (if clock_hz != 0 { seq![(AUX_MU_BAUD, div)] } else { Seq::empty() }) + seq![
                (AUX_MU_CNTL, 0x03u32),
            ]);
        }
        w
    }

    /// Whether a byte can be sent, from the line status `lsr`.
    pub fn can_send(lsr: u32) -> (r: bool)
        ensures
            r == (lsr & 0x20 != 0),
    {
        lsr & 0x20 != 0
    }

    /// Whether a byte is waiting, from the line status `lsr`.
    pub fn can_recv(lsr: u32) -> (r: bool)
        ensures
            r == (lsr & 0x01 != 0),
    {
        lsr & 0x01 != 0
    }
}

} // verus!
