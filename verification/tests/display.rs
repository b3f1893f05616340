use hyperion_kernel::display::compositor::{Compositor, Layer};
use hyperion_kernel::display::framebuffer::{Framebuffer, PixelFormat};
use hyperion_kernel::display::monitor::{Monitor, MonitorId, MonitorKind};
use hyperion_kernel::display::{count, get, list, register_monitor};

fn px(fb: &Framebuffer, x: u32, y: u32) -> [u8; 4] {
    let o = (y * fb.stride + 4 * x) as usize;
    [fb.pixels[o], fb.pixels[o + 1], fb.pixels[o + 2], fb.pixels[o + 3]]
}

#[test]
fn new_framebuffer_is_zeroed() {
    let fb = Framebuffer::new(3, 2, PixelFormat::Bgra8);
    assert_eq!(fb.stride, 12);
    assert_eq!(fb.byte_len(), 24);
    assert!(fb.pixels.iter().all(|b| *b == 0));
    assert_eq!(PixelFormat::Rgba8.bytes_per_pixel(), 4);
}

#[test]
fn encode_depends_on_format() {
    let b = Framebuffer::new(1, 1, PixelFormat::Bgra8);
    let r = Framebuffer::new(1, 1, PixelFormat::Rgba8);
    assert_eq!(b.encode_rgba(1, 2, 3, 4), [3, 2, 1, 4]);
    assert_eq!(r.encode_rgba(1, 2, 3, 4), [1, 2, 3, 4]);
}

#[test]
fn put_pixel_sets_one_pixel_and_ignores_outside() {
    let mut fb = Framebuffer::new(4, 4, PixelFormat::Bgra8);
    fb.put_pixel(1, 2, [10, 20, 30, 40]);
    assert_eq!(px(&fb, 1, 2), [30, 20, 10, 40]);
    assert_eq!(px(&fb, 2, 1), [0, 0, 0, 0]);
    let before = fb.pixels.clone();
    fb.put_pixel(4, 0, [1, 1, 1, 1]);
    fb.put_pixel(0, 9, [1, 1, 1, 1]);
    assert_eq!(fb.pixels, before);
}

#[test]
fn clear_fills_every_pixel() {
    let mut fb = Framebuffer::new(2, 2, PixelFormat::Rgba8);
    fb.clear([5, 6, 7, 8]);
    for y in 0..2 {
        for x in 0..2 {
            assert_eq!(px(&fb, x, y), [5, 6, 7, 8]);
        }
    }
}

#[test]
fn fill_rect_is_clipped() {
    let mut fb = Framebuffer::new(4, 3, PixelFormat::Rgba8);
    fb.fill_rect(2, 1, 5, 5, [9, 9, 9, 9]);
    for y in 0..3 {
        for x in 0..4 {
            let inside = x >= 2 && y >= 1;
            assert_eq!(px(&fb, x, y), if inside { [9, 9, 9, 9] } else { [0, 0, 0, 0] });
        }
    }
}

#[test]
fn stroke_rect_draws_the_outline_only() {
    let mut fb = Framebuffer::new(5, 5, PixelFormat::Rgba8);
    fb.stroke_rect(0, 0, 5, 5, [1, 2, 3, 4]);
    assert_eq!(px(&fb, 0, 0), [1, 2, 3, 4]);
    assert_eq!(px(&fb, 4, 4), [1, 2, 3, 4]);
    assert_eq!(px(&fb, 0, 3), [1, 2, 3, 4]);
    assert_eq!(px(&fb, 2, 2), [0, 0, 0, 0]);
}

#[test]
fn monitors_get_ids_in_registration_order() {
    let mut ms: Vec<Monitor> = Vec::new();
    let a = hyperion_kernel::display::init(&mut ms);
    let b = register_monitor(&mut ms, Monitor::new_virtual("second", 4, 4));
    assert_eq!(a, MonitorId(0));
    assert_eq!(b, MonitorId(1));
    assert_eq!(count(&ms), 2);
    assert_eq!(get(&ms, b).unwrap().name, "second");
    assert!(get(&ms, MonitorId(2)).is_none());
    let l = list(&ms);
    assert_eq!(l[0].1, "monitor0");
    assert_eq!(l[0].2, MonitorKind::Virtual);
    assert_eq!((l[0].3, l[0].4), (1280, 720));
    assert_eq!(ms[1].id(), MonitorId(1));
}

#[test]
fn unregistered_monitor_id_is_max() {
    let m = Monitor::new_physical("hw", Framebuffer::new(2, 2, PixelFormat::Bgra8));
    assert_eq!(m.id, u32::MAX);
    assert_eq!(m.kind, MonitorKind::Physical);
    assert_eq!((m.width, m.height), (2, 2));
    assert_eq!(m.snapshot().len(), 16);
}

#[test]
fn render_stacks_layers_by_z() {
    let mut c = Compositor::new(Monitor::new_virtual("m", 4, 4));
    c.set_background([1, 1, 1, 255]);
    let mut top = Framebuffer::new(2, 2, PixelFormat::Bgra8);
    top.clear([200, 0, 0, 255]);
    let mut bottom = Framebuffer::new(4, 4, PixelFormat::Bgra8);
    bottom.clear([0, 200, 0, 255]);
    let mut hole = Framebuffer::new(1, 1, PixelFormat::Bgra8);
    hole.clear([0, 0, 200, 0]);
    c.push_layer(Layer { fb: top, x: 1, y: 1, z: 5 });
    c.push_layer(Layer { fb: bottom, x: 0, y: 2, z: 1 });
    c.push_layer(Layer { fb: hole, x: 0, y: 0, z: 9 });
    c.render();
    let fb = &c.monitor.fb;
    assert_eq!(px(fb, 0, 0), [1, 1, 1, 255]);
    assert_eq!(px(fb, 3, 0), [1, 1, 1, 255]);
    assert_eq!(px(fb, 1, 1), [0, 0, 200, 255]);
    assert_eq!(px(fb, 2, 2), [0, 0, 200, 255]);
    assert_eq!(px(fb, 0, 2), [0, 200, 0, 255]);
    assert_eq!(px(fb, 3, 3), [0, 200, 0, 255]);
    c.clear_layers();
    c.render();
    assert_eq!(px(&c.monitor.fb, 2, 2), [1, 1, 1, 255]);
}

#[test]
fn equal_z_keeps_push_order() {
    let mut c = Compositor::new(Monitor::new_virtual("m", 2, 1));
    let mut a = Framebuffer::new(2, 1, PixelFormat::Rgba8);
    a.clear([1, 0, 0, 255]);
    let mut b = Framebuffer::new(1, 1, PixelFormat::Rgba8);
    b.clear([2, 0, 0, 255]);
    c.push_layer(Layer { fb: a, x: 0, y: 0, z: 0 });
    c.push_layer(Layer { fb: b, x: 1, y: 0, z: 0 });
    c.render();
    assert_eq!(px(&c.monitor.fb, 0, 0), [1, 0, 0, 255]);
    assert_eq!(px(&c.monitor.fb, 1, 0), [2, 0, 0, 255]);
}

#[test]
fn layers_partly_off_screen_are_clipped() {
    let mut c = Compositor::new(Monitor::new_virtual("m", 2, 2));
    let mut a = Framebuffer::new(2, 2, PixelFormat::Rgba8);
    a.clear([7, 7, 7, 255]);
    c.push_layer(Layer { fb: a, x: -1, y: -1, z: 0 });
    c.render();
    assert_eq!(px(&c.monitor.fb, 0, 0), [7, 7, 7, 255]);
    assert_eq!(px(&c.monitor.fb, 1, 1)[3], 255);
    assert_ne!(px(&c.monitor.fb, 1, 1), [7, 7, 7, 255]);
}
