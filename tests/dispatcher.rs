use miniwm::error::{MiniWMError, WindowSystemError};
use miniwm::keys::{workspace_for_key, WORKSPACE_KEY_BASE};
use miniwm::layout::{primary_screen, tile, Placement, Rect, Screen};
use miniwm::wm::{placement_commands, Command, Event, MiniWM};
use miniwm::workspace::Workspace;

fn ok(outcome: (Vec<Command>, Result<(), MiniWMError>)) -> Vec<Command> {
    assert_eq!(outcome.1, Ok(()));
    outcome.0
}

const HD: Screen = Screen { width: 1920, height: 1080 };

fn column(window: u64, x: i32, width: u32, height: u32) -> Vec<Command> {
    vec![
        Command::Move { window, x, y: 0 },
        Command::Resize { window, width, height },
        Command::Show(window),
    ]
}

#[test]
fn three_windows_take_equal_columns() {
    let mut wm = MiniWM::new();
    ok(wm.handle_event(Event::MapRequest(1), Ok(HD)));
    ok(wm.handle_event(Event::MapRequest(2), Ok(HD)));
    let out = ok(wm.handle_event(Event::MapRequest(3), Ok(HD)));
    let mut expected = Vec::new();
    expected.extend(column(1, 0, 640, 1080));
    expected.extend(column(2, 640, 640, 1080));
    expected.extend(column(3, 1280, 640, 1080));
    expected.push(Command::Raise(3));
    expected.push(Command::Show(3));
    assert_eq!(out, expected);
}

#[test]
fn columns_follow_window_ids_not_arrival() {
    let mut wm = MiniWM::new();
    ok(wm.handle_event(Event::MapRequest(30), Ok(HD)));
    ok(wm.handle_event(Event::MapRequest(10), Ok(HD)));
    let out = ok(wm.handle_event(Event::MapRequest(20), Ok(HD)));
    assert_eq!(out[0], Command::Move { window: 10, x: 0, y: 0 });
    assert_eq!(out[3], Command::Move { window: 20, x: 640, y: 0 });
    assert_eq!(out[6], Command::Move { window: 30, x: 1280, y: 0 });
}

#[test]
fn single_window_fills_the_screen() {
    let mut wm = MiniWM::new();
    let out = ok(wm.handle_event(Event::MapRequest(7), Ok(HD)));
    let mut expected = column(7, 0, 1920, 1080);
    expected.push(Command::Raise(7));
    expected.push(Command::Show(7));
    assert_eq!(out, expected);
}

#[test]
fn tiling_single_window_rectangle() {
    let r = tile(&vec![7], HD);
    assert_eq!(
        r,
        vec![Placement { window: 7, rect: Rect { x: 0, y: 0, width: 1920, height: 1080 } }]
    );
}

#[test]
fn tiling_leaves_remainder_pixels_unused() {
    let r = tile(&vec![1, 2, 3, 4, 5, 6, 7], Screen { width: 100, height: 50 });
    assert_eq!(r.len(), 7);
    let total: u32 = r.iter().map(|p| p.rect.width).sum();
    assert_eq!(total, 98);
    assert_eq!(r[6].rect.x, 84);
    for w in r.windows(2) {
        assert!(w[0].rect.x + w[0].rect.width as i32 <= w[1].rect.x);
    }
}

#[test]
fn tiling_of_nothing_is_empty() {
    assert!(tile(&vec![], HD).is_empty());
}

#[test]
fn placement_commands_move_resize_show() {
    let p = Placement { window: 4, rect: Rect { x: 5, y: 0, width: 6, height: 7 } };
    assert_eq!(placement_commands(&vec![p]), column(4, 5, 6, 7));
}

#[test]
fn key_to_new_workspace_creates_it_empty() {
    let mut wm = MiniWM::new();
    ok(wm.handle_event(Event::MapRequest(1), Ok(HD)));
    let out = ok(wm.handle_event(Event::KeyPress(WORKSPACE_KEY_BASE + 2), Ok(HD)));
    assert_eq!(out, vec![Command::Hide(1)]);
    // the new workspace is empty: a further window is alone on the screen
    let out = ok(wm.handle_event(Event::MapRequest(5), Ok(HD)));
    assert_eq!(out[1], Command::Resize { window: 5, width: 1920, height: 1080 });
}

#[test]
fn empty_new_workspace_needs_no_screen() {
    let mut wm = MiniWM::new();
    let out = ok(wm.handle_event(
        Event::KeyPress(WORKSPACE_KEY_BASE + 2),
        Err(WindowSystemError::ScreenNotFound),
    ));
    assert!(out.is_empty());
}

#[test]
fn switching_back_restores_windows() {
    let mut wm = MiniWM::new();
    ok(wm.handle_event(Event::MapRequest(1), Ok(HD)));
    ok(wm.handle_event(Event::MapRequest(2), Ok(HD)));
    let out = ok(wm.handle_event(Event::KeyPress(WORKSPACE_KEY_BASE + 1), Ok(HD)));
    assert_eq!(out, vec![Command::Hide(1), Command::Hide(2)]);
    ok(wm.handle_event(Event::MapRequest(9), Ok(HD)));
    let out = ok(wm.handle_event(Event::KeyPress(WORKSPACE_KEY_BASE), Ok(HD)));
    let mut pass = column(1, 0, 960, 1080);
    pass.extend(column(2, 960, 960, 1080));
    let mut expected = vec![Command::Hide(9)];
    expected.extend(pass.clone());
    expected.extend(pass);
    assert_eq!(out, expected);
}

#[test]
fn switch_hides_before_showing() {
    let mut wm = MiniWM::new();
    ok(wm.handle_event(Event::MapRequest(3), Ok(HD)));
    ok(wm.handle_event(Event::KeyPress(WORKSPACE_KEY_BASE + 4), Ok(HD)));
    ok(wm.handle_event(Event::MapRequest(8), Ok(HD)));
    let out = ok(wm.handle_event(Event::KeyPress(WORKSPACE_KEY_BASE), Ok(HD)));
    let last_hide = out.iter().rposition(|c| matches!(c, Command::Hide(_))).unwrap();
    let first_show = out.iter().position(|c| matches!(c, Command::Show(_))).unwrap();
    assert!(last_hide < first_show);
    assert_eq!(out.iter().filter(|c| **c == Command::Hide(8)).count(), 1);
    assert!(!out.contains(&Command::Hide(3)));
    assert!(out.contains(&Command::Show(3)));
    assert!(!out.contains(&Command::Show(8)));
}

#[test]
fn key_band_boundaries() {
    for k in 0..10u32 {
        assert_eq!(workspace_for_key(WORKSPACE_KEY_BASE + k), Some(k));
    }
    assert_eq!(workspace_for_key(WORKSPACE_KEY_BASE - 1), None);
    assert_eq!(workspace_for_key(WORKSPACE_KEY_BASE + 10), None);
    assert_eq!(workspace_for_key(0), None);
    assert_eq!(workspace_for_key(u32::MAX), None);
}

#[test]
fn keys_outside_band_change_nothing() {
    let mut wm = MiniWM::new();
    ok(wm.handle_event(Event::MapRequest(1), Ok(HD)));
    assert!(ok(wm.handle_event(Event::KeyPress(WORKSPACE_KEY_BASE + 10), Ok(HD))).is_empty());
    assert!(ok(wm.handle_event(Event::KeyRelease(WORKSPACE_KEY_BASE), Ok(HD))).is_empty());
    assert!(ok(wm.handle_event(Event::Other, Ok(HD))).is_empty());
    let out = ok(wm.handle_event(Event::MapRequest(2), Ok(HD)));
    assert_eq!(out[0], Command::Move { window: 1, x: 0, y: 0 });
}

#[test]
fn removing_absent_window_keeps_layout() {
    let mut wm = MiniWM::new();
    ok(wm.handle_event(Event::MapRequest(1), Ok(HD)));
    let out = ok(wm.handle_event(Event::UnmapNotify(42), Ok(HD)));
    assert_eq!(out, column(1, 0, 1920, 1080));
}

#[test]
fn removing_last_window_lays_out_nothing() {
    let mut wm = MiniWM::new();
    ok(wm.handle_event(Event::MapRequest(1), Ok(HD)));
    let out = ok(wm.handle_event(Event::UnmapNotify(1), Err(WindowSystemError::ScreenNotFound)));
    assert!(out.is_empty());
}

#[test]
fn removing_window_widens_the_others() {
    let mut wm = MiniWM::new();
    ok(wm.handle_event(Event::MapRequest(1), Ok(HD)));
    ok(wm.handle_event(Event::MapRequest(2), Ok(HD)));
    let out = ok(wm.handle_event(Event::UnmapNotify(1), Ok(HD)));
    assert_eq!(out, column(2, 0, 1920, 1080));
}

#[test]
fn missing_screen_fails_layout() {
    let mut wm = MiniWM::new();
    let (out, r) = wm.handle_event(Event::MapRequest(1), Err(WindowSystemError::ScreenNotFound));
    assert!(out.is_empty());
    assert_eq!(r, Err(MiniWMError::DisplayNotFound(WindowSystemError::ScreenNotFound)));
    // window 1 was kept; switching to its workspace hides it, then fails
    let (out, r) = wm.handle_event(Event::KeyPress(WORKSPACE_KEY_BASE), Err(WindowSystemError::ScreenNotFound));
    assert_eq!(out, vec![Command::Hide(1)]);
    assert!(r.is_err());
}

#[test]
fn duplicate_map_request_is_tracked_once() {
    let mut wm = MiniWM::new();
    ok(wm.handle_event(Event::MapRequest(1), Ok(HD)));
    let out = ok(wm.handle_event(Event::MapRequest(1), Ok(HD)));
    let mut expected = column(1, 0, 1920, 1080);
    expected.push(Command::Raise(1));
    expected.push(Command::Show(1));
    assert_eq!(out, expected);
}

#[test]
fn workspace_set_operations() {
    let mut ws = Workspace::new();
    assert!(ws.is_empty());
    ws.add_window(5);
    ws.add_window(2);
    ws.add_window(9);
    ws.add_window(2);
    assert_eq!(ws.windows(), &vec![2, 5, 9]);
    assert!(ws.contains(5));
    ws.remove_window(&7);
    assert_eq!(ws.windows(), &vec![2, 5, 9]);
    ws.remove_window(&5);
    assert_eq!(ws.windows(), &vec![2, 9]);
    assert!(!ws.contains(5));
    assert_eq!(ws.len(), 2);
}

#[test]
fn primary_screen_is_first_head() {
    assert_eq!(primary_screen(&vec![(1920, 1080), (800, 600)]), Ok(HD));
    assert_eq!(primary_screen(&vec![]), Err(WindowSystemError::ScreenNotFound));
    assert_eq!(primary_screen(&vec![(-1, 1080)]), Ok(Screen { width: -1, height: 1080 }));
}

#[test]
fn error_messages() {
    assert_eq!(WindowSystemError::DisplayNotFound.message(), "display not found");
    assert_eq!(WindowSystemError::ScreenNotFound.message(), "screen not found");
    let e: MiniWMError = WindowSystemError::ScreenNotFound.into();
    assert_eq!(e.message(), "screen not found");
}

#[test]
fn failed_switch_still_hides_outgoing_windows() {
    let mut wm = MiniWM::new();
    ok(wm.handle_event(Event::MapRequest(1), Ok(HD)));
    ok(wm.handle_event(Event::MapRequest(2), Ok(HD)));
    ok(wm.handle_event(Event::KeyPress(WORKSPACE_KEY_BASE + 3), Ok(HD)));
    ok(wm.handle_event(Event::MapRequest(5), Ok(HD)));
    let (out, r) =
        wm.handle_event(Event::KeyPress(WORKSPACE_KEY_BASE), Err(WindowSystemError::ScreenNotFound));
    assert_eq!(out, vec![Command::Hide(5)]);
    assert_eq!(r, Err(MiniWMError::DisplayNotFound(WindowSystemError::ScreenNotFound)));
    // the switch is not rolled back
    let out = ok(wm.handle_event(Event::MapRequest(3), Ok(HD)));
    assert_eq!(out[0], Command::Move { window: 1, x: 0, y: 0 });
    assert_eq!(out[1], Command::Resize { window: 1, width: 640, height: 1080 });
}

#[test]
fn negative_width_truncates_toward_zero() {
    let r = tile(&vec![1, 2], Screen { width: -5, height: 10 });
    assert_eq!(r[0].rect, Rect { x: 0, y: 0, width: (-2i32) as u32, height: 10 });
    assert_eq!(r[1].rect.x, -2);
    let r = tile(&vec![1], Screen { width: 100, height: -1 });
    assert_eq!(r[0].rect.height, u32::MAX);
}

#[test]
fn screen_is_needed_only_for_windows_to_place() {
    let mut wm = MiniWM::new();
    assert!(wm.needs_screen(Event::MapRequest(1)));
    assert!(!wm.needs_screen(Event::UnmapNotify(1)));
    assert!(!wm.needs_screen(Event::KeyPress(WORKSPACE_KEY_BASE)));
    assert!(!wm.needs_screen(Event::KeyRelease(WORKSPACE_KEY_BASE)));
    assert!(!wm.needs_screen(Event::Other));
    ok(wm.handle_event(Event::MapRequest(1), Ok(HD)));
    assert!(!wm.needs_screen(Event::UnmapNotify(1)));
    assert!(wm.needs_screen(Event::UnmapNotify(9)));
    assert!(wm.needs_screen(Event::KeyPress(WORKSPACE_KEY_BASE)));
    assert!(!wm.needs_screen(Event::KeyPress(WORKSPACE_KEY_BASE + 1)));
    assert!(!wm.needs_screen(Event::KeyPress(WORKSPACE_KEY_BASE + 10)));
}

#[test]
fn layout_of_active_workspace() {
    let mut wm = MiniWM::new();
    assert_eq!(wm.layout(Err(WindowSystemError::ScreenNotFound)), Ok(vec![]));
    ok(wm.handle_event(Event::MapRequest(4), Ok(HD)));
    assert_eq!(wm.layout(Ok(HD)), Ok(column(4, 0, 1920, 1080)));
    assert_eq!(
        wm.layout(Err(WindowSystemError::ScreenNotFound)),
        Err(MiniWMError::DisplayNotFound(WindowSystemError::ScreenNotFound))
    );
}
