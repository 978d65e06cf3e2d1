//! The silk-shell event loop's decisions: which windows it creates, what an input
//! event means, and which frame it commits in answer.
use vstd::prelude::*;

verus! {

/// An event the shell receives.
#[derive(Debug, Clone, Copy, PartialEq, Eq, Structural)]
pub enum ShellEvent {
    NoEvent,
    Redraw(u64),
    Quit,
    ToggleLauncher,
    KeyPress(u16),
}

/// Input event type of a key.
pub const EV_KEY: u16 = 1;
/// Key value of a press.
pub const KEY_PRESSED: i32 = 1;
/// Scancode that toggles the launcher.
pub const LAUNCHER_KEY: u16 = 0x26;

/// The shell event of a request from domain `caller_pd`; only the kernel (domain 0)
/// delivers input, and of its HID events only key presses count.
pub open spec fn spec_decode_event(caller_pd: u32, hid: Option<(u16, u16, i32)>) -> ShellEvent {
    if caller_pd != 0 {
        ShellEvent::NoEvent
    } else {
        match hid {
            Some((ev_type, code, value)) => if ev_type == EV_KEY && value == KEY_PRESSED {
                ShellEvent::KeyPress(code)
            } else {
                ShellEvent::NoEvent
            },
            None => ShellEvent::NoEvent,
        }
    }
}

/// The shell event of a request from domain `caller_pd` whose message is the HID
/// event `hid` (type, code, value), or another message (`None`).
pub fn decode_event(caller_pd: u32, hid: Option<(u16, u16, i32)>) -> (e: ShellEvent)
    ensures
        e == spec_decode_event(caller_pd, hid),
{
    if caller_pd != 0 {
        return ShellEvent::NoEvent;
    }
    match hid {
        Some((ev_type, code, value)) => {
            if ev_type == EV_KEY && value == KEY_PRESSED {
                ShellEvent::KeyPress(code)
            } else {
                ShellEvent::NoEvent
            }
        },
        None => ShellEvent::NoEvent,
    }
}

/// A window the shell asks the compositor to create.
#[derive(Debug, Clone, Copy, PartialEq, Eq, Structural)]
pub struct WindowRequest {
    pub x: u32,
    pub y: u32,
    pub width: u32,
    pub height: u32,
    pub pfn_base: u64,
}

/// Buffer frame of the main window.
pub const MAIN_PFN: u64 = 0x1234_5000;
/// Buffer frame of the panel.
pub const PANEL_PFN: u64 = 0x1234_6000;
/// Buffer frame of the launcher.
pub const LAUNCHER_PFN: u64 = 0x1234_7000;
/// Height of the panel.
pub const SHELL_PANEL_HEIGHT: u32 = 30;
/// Width of the launcher.
pub const LAUNCHER_WIDTH: u32 = 400;
/// Height of the launcher.
pub const LAUNCHER_HEIGHT: u32 = 300;

/// The main window: 800x600 at (100, 100).
pub fn main_window_request() -> (r: WindowRequest)
    ensures
        r == (WindowRequest { x: 100, y: 100, width: 800, height: 600, pfn_base: MAIN_PFN }),
{
    WindowRequest { x: 100, y: 100, width: 800, height: 600, pfn_base: MAIN_PFN }
}

/// The panel: the full 1024-pixel width, 30 high, at the top left.
pub fn panel_request() -> (r: WindowRequest)
    ensures
        r == (WindowRequest { x: 0, y: 0, width: 1024, height: SHELL_PANEL_HEIGHT, pfn_base: PANEL_PFN }),
{
    WindowRequest { x: 0, y: 0, width: 1024, height: SHELL_PANEL_HEIGHT, pfn_base: PANEL_PFN }
}

/// The launcher: 400x300, centred on a 1024x768 screen.
pub fn launcher_request() -> (r: WindowRequest)
    ensures
        r == (WindowRequest { x: 312, y: 234, width: LAUNCHER_WIDTH, height: LAUNCHER_HEIGHT, pfn_base: LAUNCHER_PFN }),
{
    let x = (1024u32 / 2).saturating_sub(LAUNCHER_WIDTH / 2);
    let y = (768u32 / 2).saturating_sub(LAUNCHER_HEIGHT / 2);
    WindowRequest { x, y, width: LAUNCHER_WIDTH, height: LAUNCHER_HEIGHT, pfn_base: LAUNCHER_PFN }
}

/// Pages committed for a `width` by `height` window of 4-byte pixels.
pub open spec fn frame_pages(width: u32, height: u32) -> int {
    (width * height * 4) / 4096 + 1
}

/// A frame commit the shell sends to the compositor.
#[derive(Debug, Clone, Copy, PartialEq, Eq, Structural)]
pub struct FrameCommit {
    pub window_id: u64,
    pub pfn_base: u64,
    pub num_pages: u32,
}

/// The shell's windows, by compositor id, and whether the launcher shows.
pub struct DesktopShell {
    pub main_id: u64,
    pub panel_id: u64,
    pub launcher_id: u64,
    pub launcher_visible: bool,
}

/// The commit of window `id`, or none when the shell does not draw it now.
pub open spec fn redraw_commit(s: DesktopShell, id: u64) -> Option<FrameCommit> {
    if id == s.main_id {
        Some(FrameCommit { window_id: id, pfn_base: MAIN_PFN, num_pages: frame_pages(800, 600) as u32 })
    } else if id == s.panel_id {
        Some(FrameCommit { window_id: id, pfn_base: PANEL_PFN, num_pages: frame_pages(1024, SHELL_PANEL_HEIGHT) as u32 })
    } else if id == s.launcher_id && s.launcher_visible {
        Some(FrameCommit {
            window_id: id,
            pfn_base: LAUNCHER_PFN,
            num_pages: frame_pages(LAUNCHER_WIDTH, LAUNCHER_HEIGHT) as u32,
        })
    } else {
        None
    }
}

impl DesktopShell {
    /// The shell with its three windows created, the launcher hidden.
    pub fn new(main_id: u64, panel_id: u64, launcher_id: u64) -> (s: Self)
        ensures
            s.main_id == main_id,
            s.panel_id == panel_id,
            s.launcher_id == launcher_id,
            !s.launcher_visible,
    {
        DesktopShell { main_id, panel_id, launcher_id, launcher_visible: false }
    }

    /// Handles one event: a redraw commits the window's frame when the shell draws
    /// it; the toggle shows or hides the launcher; the launcher key does so too and
    /// commits the launcher's frame when it appears.
    pub fn handle_event(&mut self, ev: ShellEvent) -> (r: Option<FrameCommit>)
        ensures
            final(self).main_id == old(self).main_id,
            final(self).panel_id == old(self).panel_id,
            final(self).launcher_id == old(self).launcher_id,
            match ev {
                ShellEvent::Redraw(id) => r == redraw_commit(*old(self), id) && final(self).launcher_visible
                    == old(self).launcher_visible,
                ShellEvent::ToggleLauncher => r is None && final(self).launcher_visible
                    == !old(self).launcher_visible,
                ShellEvent::KeyPress(code) => if code == LAUNCHER_KEY {
                    &&& final(self).launcher_visible == !old(self).launcher_visible
                    &&& r == (if final(self).launcher_visible {
                        Some(
                            FrameCommit {
                                window_id: old(self).launcher_id,
                                pfn_base: LAUNCHER_PFN,
                                num_pages: frame_pages(LAUNCHER_WIDTH, LAUNCHER_HEIGHT) as u32,
                            },
                        )
                    } else {
                        None::<FrameCommit>
                    })
                } else {
                    r is None && final(self).launcher_visible == old(self).launcher_visible
                },
                _ => r is None && final(self).launcher_visible == old(self).launcher_visible,
            },
    {
        match ev {
            ShellEvent::Redraw(id) => {
                if id == self.main_id {
                    Some(FrameCommit { window_id: id, pfn_base: MAIN_PFN, num_pages: (800u32 * 600 * 4) / 4096 + 1 })
                } else if id == self.panel_id {
                    Some(FrameCommit {
                        window_id: id,
                        pfn_base: PANEL_PFN,
                        num_pages: (1024u32 * SHELL_PANEL_HEIGHT * 4) / 4096 + 1,
                    })
                } else if id == self.launcher_id && self.launcher_visible {
                    Some(FrameCommit {
                        window_id: id,
                        pfn_base: LAUNCHER_PFN,
                        num_pages: (LAUNCHER_WIDTH * LAUNCHER_HEIGHT * 4) / 4096 + 1,
                    })
                } else {
                    None
                }
            },
            ShellEvent::ToggleLauncher => {
                self.launcher_visible = !self.launcher_visible;
                None
            },
            ShellEvent::KeyPress(code) => {
                if code == LAUNCHER_KEY {
                    self.launcher_visible = !self.launcher_visible;
                    if self.launcher_visible {
                        Some(FrameCommit {
                            window_id: self.launcher_id,
                            pfn_base: LAUNCHER_PFN,
                            num_pages: (LAUNCHER_WIDTH * LAUNCHER_HEIGHT * 4) / 4096 + 1,
                        })
                    } else {
                        None
                    }
                } else {
                    None
                }
            },
            _ => None,
        }
    }
}

} // verus!
