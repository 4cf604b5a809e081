use jotin::coordinator::{step, CoordState, Directive, MouseButton, UiEvent};
use jotin::errors::{ErrorKind, NoteError};
use jotin::placement::{capture_position, Placement, Point, Rect, Size};
use jotin::store::finalize_save;

fn area(x: i64, y: i64, w: i64, h: i64) -> Rect {
    Rect { x, y, w, h }
}

#[test]
fn placement_stays_inside_work_area() {
    // Pointer near the bottom-right corner: the offset position must be
    // clamped so the whole window stays inside the work area.
    let areas = vec![area(0, 0, 1920, 1040)];
    let cursor = Some(Point { x: 1900, y: 1000 });
    let size = Some(Size { w: 900, h: 76 });
    let r = capture_position(cursor, &areas, size);
    match r {
        Placement::At(p) => {
            assert!(p.x >= 0 && p.x + 900 <= 1920);
            assert!(p.y >= 0 && p.y + 76 <= 1040);
            assert_eq!(p.x, 1920 - 900);
            assert_eq!(p.y, 1040 - 76);
        },
        Placement::Center => panic!("expected a position"),
    }
}

#[test]
fn placement_uses_offset_when_room() {
    let areas = vec![area(0, 0, 1920, 1040)];
    let r = capture_position(Some(Point { x: 100, y: 200 }), &areas, Some(Size { w: 900, h: 76 }));
    assert_eq!(r, Placement::At(Point { x: 114, y: 214 }));
}

#[test]
fn placement_pins_to_origin_when_window_larger_than_area() {
    let areas = vec![area(50, 40, 800, 60)];
    let r = capture_position(Some(Point { x: 60, y: 50 }), &areas, Some(Size { w: 900, h: 76 }));
    // 900 > 800 and 76 > 60: both axes pin to the work area's origin.
    assert_eq!(r, Placement::At(Point { x: 50, y: 40 }));
}

#[test]
fn placement_centers_without_cursor() {
    let areas = vec![area(0, 0, 1920, 1040)];
    let r = capture_position(None, &areas, None);
    assert_eq!(r, Placement::Center);
}

#[test]
fn placement_keeps_raw_offset_off_any_area() {
    // The pointer sits in none of the work areas: no clamping.
    let areas = vec![area(0, 0, 100, 100)];
    let r = capture_position(Some(Point { x: 5000, y: 5000 }), &areas, None);
    assert_eq!(r, Placement::At(Point { x: 5014, y: 5014 }));
}

#[test]
fn placement_picks_the_area_under_the_pointer() {
    // Two displays side by side; the pointer is on the second one.
    let areas = vec![area(0, 0, 1920, 1040), area(1920, 0, 1280, 984)];
    let r = capture_position(Some(Point { x: 3100, y: 950 }), &areas, Some(Size { w: 900, h: 76 }));
    match r {
        Placement::At(p) => {
            assert!(p.x >= 1920 && p.x + 900 <= 1920 + 1280);
            assert!(p.y >= 0 && p.y + 76 <= 984);
            assert_eq!(p.y, 984 - 76);
        },
        Placement::Center => panic!("expected a position"),
    }
}

fn startup() -> CoordState {
    CoordState { main_created: true, main_visible: false, capture_created: false, capture_visible: false }
}

#[test]
fn hotkey_press_builds_capture_window_first() {
    let (s1, d1) = step(startup(), UiEvent::Hotkey { pressed: true });
    assert_eq!(d1, vec![Directive::BuildCaptureWindow]);
    assert!(!s1.capture_created);
    let (s2, d2) = step(s1, UiEvent::CaptureBuilt);
    assert_eq!(d2, vec![Directive::ShowCaptureWindow, Directive::EmitCaptureOpened]);
    assert!(s2.capture_created && s2.capture_visible);
}

#[test]
fn hotkey_release_is_ignored() {
    let s = startup();
    let (s1, d) = step(s, UiEvent::Hotkey { pressed: false });
    assert_eq!(s1, s);
    assert!(d.is_empty());
}

#[test]
fn reopening_visible_capture_repositions_and_refocuses() {
    let s = CoordState { main_created: true, main_visible: false, capture_created: true, capture_visible: true };
    let (s1, d) = step(s, UiEvent::OpenCaptureCmd);
    assert_eq!(d, vec![Directive::ShowCaptureWindow, Directive::EmitCaptureOpened]);
    assert!(s1.capture_visible);
}

#[test]
fn capture_close_request_hides_but_keeps_the_window() {
    let s = CoordState { main_created: true, main_visible: false, capture_created: true, capture_visible: true };
    let (s1, d) = step(s, UiEvent::CaptureCloseRequested);
    assert_eq!(d, vec![Directive::HideCaptureWindow]);
    assert!(s1.capture_created);
    assert!(!s1.capture_visible);
}

#[test]
fn close_capture_cmd_without_window_does_nothing() {
    let s = startup();
    let (s1, d) = step(s, UiEvent::CloseCaptureCmd);
    assert_eq!(s1, s);
    assert!(d.is_empty());
}

#[test]
fn tray_left_release_opens_main() {
    let (s1, d) = step(startup(), UiEvent::TrayClick { button: MouseButton::Left, released: true });
    assert_eq!(d, vec![Directive::ShowMainWindow]);
    assert!(s1.main_visible);
}

#[test]
fn tray_right_click_and_presses_do_nothing() {
    let s = startup();
    let (_, d) = step(s, UiEvent::TrayClick { button: MouseButton::Right, released: true });
    assert!(d.is_empty());
    let (_, d2) = step(s, UiEvent::TrayClick { button: MouseButton::Left, released: false });
    assert!(d2.is_empty());
}

#[test]
fn menu_items_route_to_their_actions() {
    let s = startup();
    let (_, d) = step(s, UiEvent::MenuNewNote);
    assert_eq!(d, vec![Directive::BuildCaptureWindow]);
    let (_, d2) = step(s, UiEvent::MenuOpenNotes);
    assert_eq!(d2, vec![Directive::ShowMainWindow]);
    let (_, d3) = step(s, UiEvent::MenuQuit);
    assert_eq!(d3, vec![Directive::Exit]);
}

#[test]
fn main_close_request_hides_instead_of_destroying() {
    let s = CoordState { main_created: true, main_visible: true, capture_created: false, capture_visible: false };
    let (s1, d) = step(s, UiEvent::MainCloseRequested);
    assert_eq!(d, vec![Directive::HideMainWindow]);
    assert!(s1.main_created);
    assert!(!s1.main_visible);
}

#[test]
fn failed_capture_build_is_a_silent_no_op() {
    let s = startup();
    let (s1, d) = step(s, UiEvent::CaptureBuildFailed);
    assert_eq!(s1, s);
    assert!(d.is_empty());
}

#[test]
fn finalize_save_reports_both_causes() {
    let r = finalize_save(Some(String::from("rename failed")), Some(String::from("copy failed")));
    match r {
        Err(e) => {
            assert_eq!(e.kind, ErrorKind::StorageWrite);
            assert!(e.message().contains("rename failed"));
            assert!(e.message().contains("copy failed"));
        },
        Ok(()) => panic!("both causes failing must fail the write"),
    }
    assert!(finalize_save(None, None).is_ok());
    assert!(finalize_save(Some(String::from("rename failed")), None).is_ok());
}

#[test]
fn error_constructors_carry_kind_and_message() {
    let e = NoteError::invalid_input();
    assert_eq!(e.kind, ErrorKind::InvalidInput);
    assert_eq!(e.message(), "Note text cannot be empty");
    let e = NoteError::not_found();
    assert_eq!(e.kind, ErrorKind::NotFound);
    assert_eq!(e.message(), "Note not found");
    let e = NoteError::storage_lock();
    assert_eq!(e.kind, ErrorKind::StorageLock);
    let e = NoteError::new(ErrorKind::ClipboardAccess, String::from("no clipboard"));
    assert_eq!(e.kind, ErrorKind::ClipboardAccess);
    assert_eq!(e.message(), "no clipboard");
    let e = NoteError::new(ErrorKind::WindowCreation, String::from("no surface"));
    assert_eq!(e.kind, ErrorKind::WindowCreation);
    let e = NoteError::new(ErrorKind::StorageRead, String::from("unreadable"));
    assert_eq!(e.kind, ErrorKind::StorageRead);
}
