use sexos::desktop::{
    decode_event, launcher_request, main_window_request, panel_request, DesktopShell, FrameCommit,
    ShellEvent,
};
use sexos::silkshell::{AppCapabilityBits, AppManifest, Canvas, ShellState};

#[test]
fn capability_bits() {
    assert!(AppCapabilityBits::validate(4).is_err());
    let c = AppCapabilityBits::validate(3).unwrap();
    assert!(c.has_bell() && c.has_sexfiles());
    assert_eq!(c.bits(), 3);
    assert_eq!(c.describe(), "bell+sexfiles");
    assert_eq!(AppCapabilityBits::validate(0).unwrap().describe(), "none");
    assert_eq!(AppCapabilityBits::validate(1).unwrap().describe(), "bell");
    assert_eq!(AppCapabilityBits::validate(2).unwrap().describe(), "sexfiles");
}

#[test]
fn manifest_pack_unpack_round_trip() {
    let caps = AppCapabilityBits::validate(2).unwrap();
    let m = AppManifest { surface_id: 11, title_id: 22, app_id: 0x1234, capabilities: caps };
    let (a, b, c) = m.pack();
    assert_eq!((a, b, c), (11, 22, 0x12_3402));
    let back = AppManifest::unpack(a, b, c).unwrap();
    assert_eq!(back.app_id, 0x1234);
    assert_eq!(back.capabilities.bits(), 2);
    assert!(back.has_identity());
    assert!(AppManifest::unpack(1, 2, 0x0100_0000_0000_0000).is_err());
    assert!(AppManifest::unpack(1, 2, 0x0000_0000_0100_0000).is_err());
    assert!(AppManifest::unpack(1, 2, 0x04).is_err());
    assert!(!AppManifest::unpack(1, 2, 0x01).unwrap().has_identity());
}

#[test]
fn canvas_fill_and_panel() {
    let mut c = Canvas::new(vec![0u32; 400 * 500], 400, 500);
    c.fill_rect(390, 490, 20, 20, 7);
    assert_eq!(c.pixels()[489 * 400 + 399], 0);
    assert_eq!(c.pixels()[499 * 400 + 399], 7);
    assert_eq!(c.pixels()[490 * 400 + 389], 0);
    let mut state = ShellState::default();
    c.draw_panel(&state);
    assert_eq!(c.pixels()[0], 0xFF0A_0A14);
    assert_eq!(c.pixels()[100 * 400], 0);
    state.is_launcher_open = true;
    c.draw_panel(&state);
    assert_eq!(c.pixels()[100 * 400], 0xFF1E_1E2E);
    assert_eq!(c.pixels()[100 * 400 + 320], 0);
}

#[test]
fn desktop_windows_and_events() {
    assert_eq!(main_window_request().width, 800);
    assert_eq!(panel_request().height, 30);
    let l = launcher_request();
    assert_eq!((l.x, l.y, l.width, l.height), (312, 234, 400, 300));
    assert_eq!(decode_event(0, Some((1, 0x26, 1))), ShellEvent::KeyPress(0x26));
    assert_eq!(decode_event(0, Some((1, 0x26, 0))), ShellEvent::NoEvent);
    assert_eq!(decode_event(5, Some((1, 0x26, 1))), ShellEvent::NoEvent);
    assert_eq!(decode_event(0, None), ShellEvent::NoEvent);

    let mut d = DesktopShell::new(10, 11, 12);
    assert_eq!(
        d.handle_event(ShellEvent::Redraw(10)),
        Some(FrameCommit { window_id: 10, pfn_base: 0x1234_5000, num_pages: 469 })
    );
    assert_eq!(
        d.handle_event(ShellEvent::Redraw(11)),
        Some(FrameCommit { window_id: 11, pfn_base: 0x1234_6000, num_pages: 31 })
    );
    assert_eq!(d.handle_event(ShellEvent::Redraw(12)), None);
    assert_eq!(
        d.handle_event(ShellEvent::KeyPress(0x26)),
        Some(FrameCommit { window_id: 12, pfn_base: 0x1234_7000, num_pages: 118 })
    );
    assert!(d.launcher_visible);
    assert!(d.handle_event(ShellEvent::Redraw(12)).is_some());
    assert_eq!(d.handle_event(ShellEvent::KeyPress(0x26)), None);
    assert!(!d.launcher_visible);
    assert_eq!(d.handle_event(ShellEvent::ToggleLauncher), None);
    assert!(d.launcher_visible);
    assert_eq!(d.handle_event(ShellEvent::Quit), None);
    assert_eq!(d.handle_event(ShellEvent::KeyPress(1)), None);
}
