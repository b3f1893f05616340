use hyperion_kernel::drivers::block::{format_info, push_decimal, seed_blkfs};
use hyperion_kernel::drivers::net::{csum16, try_reply_echo};
use hyperion_kernel::drivers::uart::{
    crlf, BcmMiniUart, Ns16550, Pl011, AUX_MU_BAUD, AUX_MU_CNTL, NS_DLH, NS_DLL, NS_IER, NS_LCR, UARTCR, UARTFBRD,
    UARTIBRD,
};
use hyperion_kernel::fs::vfs::{read_to_string, Root};

#[test]
fn decimal_digits() {
    let mut v = Vec::new();
    push_decimal(&mut v, 0);
    assert_eq!(v, b"0");
    let mut w = b"n=".to_vec();
    push_decimal(&mut w, 1234567890);
    assert_eq!(w, b"n=1234567890");
    let mut m = Vec::new();
    push_decimal(&mut m, u64::MAX);
    assert_eq!(m, b"18446744073709551615");
}

#[test]
fn block_info_text() {
    assert_eq!(format_info(2048), b"block device 0\nsectors: 2048\nsize: 1048576 bytes\n".to_vec());
    assert_eq!(format_info(0), b"block device 0\nsectors: 0\nsize: 0 bytes\n".to_vec());
}

#[test]
fn blkfs_is_seeded() {
    let mut root = Root::new();
    hyperion_kernel::fs::init(&mut root, "1", "aarch64");
    seed_blkfs(&mut root, 4, b"boot");
    assert_eq!(read_to_string(&root, "/blk/info").unwrap(), "block device 0\nsectors: 4\nsize: 2048 bytes\n");
    assert_eq!(read_to_string(&root, "/blk/sector0").unwrap(), "boot");
}

#[test]
fn checksum_of_known_header() {
    let hdr = [
        0x45, 0x00, 0x00, 0x73, 0x00, 0x00, 0x40, 0x00, 0x40, 0x11, 0x00, 0x00, 0xc0, 0xa8, 0x00, 0x01, 0xc0, 0xa8,
        0x00, 0xc7,
    ];
    assert_eq!(csum16(&hdr), 0xb861);
    assert_eq!(csum16(&[]), 0xffff);
    assert_eq!(csum16(&[0x01]), 0xfeff);
}

fn udp_frame(dst_port: u16) -> Vec<u8> {
    let mut f = Vec::new();
    f.extend_from_slice(&[0x52, 0x54, 0, 0x12, 0x34, 0x56]);
    f.extend_from_slice(&[0xaa, 0xbb, 0xcc, 0xdd, 0xee, 0xff]);
    f.extend_from_slice(&[0x08, 0x00]);
    let ip = [
        0x45, 0x00, 0x00, 0x21, 0x00, 0x01, 0x00, 0x00, 0x40, 0x11, 0x12, 0x34, 10, 0, 2, 2, 10, 0, 2, 15,
    ];
    f.extend_from_slice(&ip);
    f.extend_from_slice(&[0x30, 0x39]);
    f.extend_from_slice(&dst_port.to_be_bytes());
    f.extend_from_slice(&[0x00, 0x0d, 0xbe, 0xef]);
    f.extend_from_slice(b"hello");
    f
}

#[test]
fn echo_reply_swaps_addresses_and_ports() {
    let mac = [0x52, 0x54, 0, 0x12, 0x34, 0x56];
    let f = udp_frame(7);
    let r = try_reply_echo(&f, mac).unwrap();
    assert_eq!(r.len(), f.len());
    assert_eq!(&r[0..6], &f[6..12]);
    assert_eq!(&r[6..12], &mac);
    assert_eq!(&r[26..30], &f[30..34]);
    assert_eq!(&r[30..34], &f[26..30]);
    assert_eq!(&r[34..36], &f[36..38]);
    assert_eq!(&r[36..38], &f[34..36]);
    assert_eq!(&r[40..42], &[0, 0]);
    assert_eq!(&r[42..], b"hello");
    assert_eq!(csum16(&r[14..34]), 0);
}

#[test]
fn echo_ignores_other_frames() {
    let mac = [0; 6];
    assert!(try_reply_echo(&udp_frame(8), mac).is_none());
    let mut arp = udp_frame(7);
    arp[12] = 0x08;
    arp[13] = 0x06;
    assert!(try_reply_echo(&arp, mac).is_none());
    let mut tcp = udp_frame(7);
    tcp[23] = 6;
    assert!(try_reply_echo(&tcp, mac).is_none());
    assert!(try_reply_echo(&[0u8; 20], mac).is_none());
    let mut long_ihl = udp_frame(7);
    long_ihl[14] = 0x4f;
    assert!(try_reply_echo(&long_ihl, mac).is_none());
}

#[test]
fn crlf_inserts_carriage_returns() {
    assert_eq!(crlf(b"a\nb\n"), b"a\r\nb\r\n".to_vec());
    assert_eq!(crlf(b""), Vec::<u8>::new());
    assert_eq!(crlf(b"\r\n"), b"\r\r\n".to_vec());
    let out = crlf(b"x\n\ny");
    for i in 0..out.len() {
        if out[i] == b'\n' {
            assert!(i > 0 && out[i - 1] == b'\r');
        }
    }
}

#[test]
fn pl011_init_sequence() {
    let w = Pl011::new(0x0900_0000).init(0);
    assert_eq!(w.len(), 7);
    assert_eq!(w[0], (UARTCR, 0));
    assert_eq!(w[3], (UARTIBRD, 13));
    assert_eq!(w[4], (UARTFBRD, 1));
    assert_eq!(w[6], (UARTCR, 0x301));
    assert!(Pl011::can_send(0));
    assert!(!Pl011::can_send(0x20));
    assert!(Pl011::can_recv(0));
    assert!(!Pl011::can_recv(0x10));
}

#[test]
fn ns16550_init_sequence() {
    let u = Ns16550::new(0x1000, 0);
    assert_eq!(u.stride, 1);
    let w = u.init(1_843_200);
    assert_eq!(w[0], (NS_IER, 0));
    assert_eq!(w[1], (NS_LCR, 0x80));
    assert_eq!(w[2], (NS_DLL, 1));
    assert_eq!(w[3], (NS_DLH, 0));
    assert_eq!(w.len(), 7);
    assert_eq!(u.init(0).len(), 4);
    assert!(Ns16550::can_send(0x20));
    assert!(Ns16550::can_recv(0x01));
    assert!(!Ns16550::can_recv(0x20));
}

#[test]
fn mini_uart_init_sequence() {
    let w = BcmMiniUart::new(0x3f21_5000).init(250_000_000);
    assert_eq!(w.len(), 7);
    assert_eq!(w[5], (AUX_MU_BAUD, 270));
    assert_eq!(w[6], (AUX_MU_CNTL, 3));
    assert_eq!(BcmMiniUart::new(0).init(0).len(), 6);
    assert!(BcmMiniUart::can_send(0x20));
    assert!(!BcmMiniUart::can_recv(0x20));
}
