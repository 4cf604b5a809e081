//! The window coordinator: the single authority over which surfaces are
//! visible. Tray, hotkey and UI callbacks are reduced to events; the shell
//! feeds each event through `step` on its UI-affinity thread and carries out
//! the directives that come back, so every path agrees on one state.

use vstd::prelude::*;

verus! {

/// Visibility state of the two surfaces. The main window is created at
/// startup (or not at all); the capture window is created lazily on first
/// use and then only ever hidden, never destroyed.
#[derive(Clone, Copy, Debug, PartialEq, Eq, Structural)]
pub struct CoordState {
    pub main_created: bool,
    pub main_visible: bool,
    pub capture_created: bool,
    pub capture_visible: bool,
}

impl CoordState {
    /// The state at process start: nothing visible, capture not yet built.
    pub fn startup(main_created: bool) -> (r: CoordState)
        ensures
            r == spec_startup(main_created),
    {
        CoordState { main_created, main_visible: false, capture_created: false, capture_visible: false }
    }
}

pub open spec fn spec_startup(main_created: bool) -> CoordState {
    CoordState { main_created, main_visible: false, capture_created: false, capture_visible: false }
}

#[derive(Clone, Copy, Debug, PartialEq, Eq, Structural)]
pub enum MouseButton {
    Left,
    Right,
    Middle,
}

/// What can happen: tray menu items, tray icon clicks, the global hotkey,
/// UI commands, close requests, and the outcome of building the capture
/// window.
#[derive(Clone, Copy, Debug, PartialEq, Eq, Structural)]
pub enum UiEvent {
    MenuNewNote,
    MenuOpenNotes,
    MenuQuit,
    TrayClick { button: MouseButton, released: bool },
    /// The one fixed global binding (Control+Alt+N), with its key phase.
    Hotkey { pressed: bool },
    OpenCaptureCmd,
    CloseCaptureCmd,
    MainCloseRequested,
    CaptureCloseRequested,
    CaptureBuilt,
    CaptureBuildFailed,
}

/// What the shell must do in response, in order. Showing the capture window
/// includes positioning it first (see the placement module) and focusing it;
/// showing the main window includes unminimizing and focusing it. A close
/// request is always intercepted: the directive is to hide, never to destroy.
#[derive(Clone, Copy, Debug, PartialEq, Eq, Structural)]
pub enum Directive {
    ShowMainWindow,
    HideMainWindow,
    BuildCaptureWindow,
    ShowCaptureWindow,
    EmitCaptureOpened,
    HideCaptureWindow,
    Exit,
}

/// Open (or summon) the capture surface: build it first if it never existed,
/// else reposition, show and announce it — also when it is already visible.
pub open spec fn spec_open_capture(s: CoordState) -> (CoordState, Seq<Directive>) {
    if !s.capture_created {
        (s, seq![Directive::BuildCaptureWindow])
    } else {
        (
            CoordState { capture_visible: true, ..s },
            seq![Directive::ShowCaptureWindow, Directive::EmitCaptureOpened],
        )
    }
}

/// Open the main surface, if it exists: show and focus it, also when it is
/// already visible.
pub open spec fn spec_open_main(s: CoordState) -> (CoordState, Seq<Directive>) {
    if s.main_created {
        (CoordState { main_visible: true, ..s }, seq![Directive::ShowMainWindow])
    } else {
        (s, Seq::empty())
    }
}

/// Hide the capture surface without destroying it, if it exists.
pub open spec fn spec_hide_capture(s: CoordState) -> (CoordState, Seq<Directive>) {
    if s.capture_created {
        (CoordState { capture_visible: false, ..s }, seq![Directive::HideCaptureWindow])
    } else {
        (s, Seq::empty())
    }
}

/// The transition function: next state and the directives to carry out.
pub open spec fn spec_step(s: CoordState, e: UiEvent) -> (CoordState, Seq<Directive>) {
    match e {
        UiEvent::MenuNewNote => spec_open_capture(s),
        UiEvent::MenuOpenNotes => spec_open_main(s),
        UiEvent::MenuQuit => (s, seq![Directive::Exit]),
        UiEvent::TrayClick { button, released } => {
            if button == MouseButton::Left && released {
                spec_open_main(s)
            } else {
                (s, Seq::empty())
            }
        },
        UiEvent::Hotkey { pressed } => {
            if pressed {
                spec_open_capture(s)
            } else {
                (s, Seq::empty())
            }
        },
        UiEvent::OpenCaptureCmd => spec_open_capture(s),
        UiEvent::CloseCaptureCmd => spec_hide_capture(s),
        UiEvent::MainCloseRequested => {
            if s.main_created {
                (CoordState { main_visible: false, ..s }, seq![Directive::HideMainWindow])
            } else {
                (s, Seq::empty())
            }
        },
        UiEvent::CaptureCloseRequested => spec_hide_capture(s),
        UiEvent::CaptureBuilt => (
            CoordState { capture_created: true, capture_visible: true, ..s },
            seq![Directive::ShowCaptureWindow, Directive::EmitCaptureOpened],
        ),
        UiEvent::CaptureBuildFailed => (s, Seq::empty()),
    }
}

/// Feed one event through the coordinator.
pub fn step(s: CoordState, e: UiEvent) -> (r: (CoordState, Vec<Directive>))
    ensures
        r.0 == spec_step(s, e).0,
        r.1@ == spec_step(s, e).1,
{
    match e {
        UiEvent::MenuNewNote => open_capture(s),
        UiEvent::MenuOpenNotes => open_main(s),
        UiEvent::MenuQuit => {
            let mut d: Vec<Directive> = Vec::new();
            d.push(Directive::Exit);
            proof {
                assert(d@ =~= seq![Directive::Exit]);
            }
            (s, d)
        },
        UiEvent::TrayClick { button, released } => {
            if button == MouseButton::Left && released {
                open_main(s)
            } else {
                let d: Vec<Directive> = Vec::new();
                proof {
                    assert(d@ =~= Seq::<Directive>::empty());
                }
                (s, d)
            }
        },
        UiEvent::Hotkey { pressed } => {
            if pressed {
                open_capture(s)
            } else {
                let d: Vec<Directive> = Vec::new();
                proof {
                    assert(d@ =~= Seq::<Directive>::empty());
                }
                (s, d)
            }
        },
        UiEvent::OpenCaptureCmd => open_capture(s),
        UiEvent::CloseCaptureCmd => hide_capture(s),
        UiEvent::MainCloseRequested => {
            if s.main_created {
                let mut d: Vec<Directive> = Vec::new();
                d.push(Directive::HideMainWindow);
                proof {
                    assert(d@ =~= seq![Directive::HideMainWindow]);
                }
                (CoordState { main_visible: false, ..s }, d)
            } else {
                let d: Vec<Directive> = Vec::new();
                proof {
                    assert(d@ =~= Seq::<Directive>::empty());
                }
                (s, d)
            }
        },
        UiEvent::CaptureCloseRequested => hide_capture(s),
        UiEvent::CaptureBuilt => {
            let mut d: Vec<Directive> = Vec::new();
            d.push(Directive::ShowCaptureWindow);
            d.push(Directive::EmitCaptureOpened);
            proof {
                assert(d@ =~= seq![Directive::ShowCaptureWindow, Directive::EmitCaptureOpened]);
            }
            (CoordState { capture_created: true, capture_visible: true, ..s }, d)
        },
        UiEvent::CaptureBuildFailed => {
            let d: Vec<Directive> = Vec::new();
            proof {
                assert(d@ =~= Seq::<Directive>::empty());
            }
            (s, d)
        },
    }
}

fn open_capture(s: CoordState) -> (r: (CoordState, Vec<Directive>))
    ensures
        r.0 == spec_open_capture(s).0,
        r.1@ == spec_open_capture(s).1,
{
    if !s.capture_created {
        let mut d: Vec<Directive> = Vec::new();
        d.push(Directive::BuildCaptureWindow);
        proof {
            assert(d@ =~= seq![Directive::BuildCaptureWindow]);
        }
        (s, d)
    } else {
        let mut d: Vec<Directive> = Vec::new();
        d.push(Directive::ShowCaptureWindow);
        d.push(Directive::EmitCaptureOpened);
        proof {
            assert(d@ =~= seq![Directive::ShowCaptureWindow, Directive::EmitCaptureOpened]);
        }
        (CoordState { capture_visible: true, ..s }, d)
    }
}

fn open_main(s: CoordState) -> (r: (CoordState, Vec<Directive>))
    ensures
        r.0 == spec_open_main(s).0,
        r.1@ == spec_open_main(s).1,
{
    if s.main_created {
        let mut d: Vec<Directive> = Vec::new();
        d.push(Directive::ShowMainWindow);
        proof {
            assert(d@ =~= seq![Directive::ShowMainWindow]);
        }
        (CoordState { main_visible: true, ..s }, d)
    } else {
        let d: Vec<Directive> = Vec::new();
        proof {
            assert(d@ =~= Seq::<Directive>::empty());
        }
        (s, d)
    }
}

fn hide_capture(s: CoordState) -> (r: (CoordState, Vec<Directive>))
    ensures
        r.0 == spec_hide_capture(s).0,
        r.1@ == spec_hide_capture(s).1,
{
    if s.capture_created {
        let mut d: Vec<Directive> = Vec::new();
        d.push(Directive::HideCaptureWindow);
        proof {
            assert(d@ =~= seq![Directive::HideCaptureWindow]);
        }
        (CoordState { capture_visible: false, ..s }, d)
    } else {
        let d: Vec<Directive> = Vec::new();
        proof {
            assert(d@ =~= Seq::<Directive>::empty());
        }
        (s, d)
    }
}

/// The capture surface, once created, is never destroyed: no event takes the
/// coordinator back to a state without it, so listeners installed on it and
/// any pending input in it survive across hide/show cycles.
pub proof fn lemma_capture_never_destroyed(s: CoordState, e: UiEvent)
    requires
        s.capture_created,
    ensures
        spec_step(s, e).0.capture_created,
{
}

/// The main surface is likewise never destroyed by any event.
pub proof fn lemma_main_never_destroyed(s: CoordState, e: UiEvent)
    ensures
        spec_step(s, e).0.main_created == s.main_created,
{
}

/// The hotkey acts only on its pressed phase; the released phase changes
/// nothing and orders nothing, so one keystroke cannot fire twice.
pub proof fn lemma_hotkey_release_ignored(s: CoordState)
    ensures
        spec_step(s, UiEvent::Hotkey { pressed: false }) == (s, Seq::<Directive>::empty()),
{
}

/// Only the quit menu item ever orders the process to exit.
pub proof fn lemma_only_quit_exits(s: CoordState, e: UiEvent)
    requires
        e != UiEvent::MenuQuit,
    ensures
        !spec_step(s, e).1.contains(Directive::Exit),
{
    let d = spec_step(s, e).1;
    assert forall|i: int| 0 <= i < d.len() implies d[i] != Directive::Exit by {}
}

} // verus!
