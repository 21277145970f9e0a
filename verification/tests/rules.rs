//! The rules that need no layout tree.

use glide::collections::{position, VecMap, VecSet};
use glide::config::{NewWindowPlacement, ScrollConfig};
use glide::edges::ResizeEdge;
use glide::ids::{
    CenterMode, Direction, Frame, LayoutId, LayoutKind, NodeId, Point, Real, Size, SpaceId,
    WindowId, WindowServerId,
};
use glide::layout::commands::{default_resize_percent, LayoutCommand};
use glide::layout::saved::SavedLayout;
use glide::layout::state::LayoutManager;
use glide::messages::TransactionId;
use glide::reactor::event::{Event, Requested, WindowInfo};
use glide::reactor::state::WindowState;
use glide::response::EventResponse;
use glide::window_class::{classify_window, LayoutWindowInfo, WindowClass};
use redact::Secret;

fn wid(idx: u32) -> WindowId {
    WindowId::new(1, idx)
}

fn response(raise: &[u32], focus: Option<u32>) -> EventResponse {
    EventResponse {
        raise_windows: raise.iter().map(|idx| wid(*idx)).collect(),
        focus_window: focus.map(wid),
    }
}

fn said(response: EventResponse) -> (Vec<u32>, Option<u32>) {
    (
        response.raise_windows.iter().map(|wid| wid.idx).collect(),
        response.focus_window.map(|wid| wid.idx),
    )
}

#[test]
fn a_response_that_asks_for_nothing_is_neutral() {
    let nothing = EventResponse::default;
    assert_eq!(said(response(&[1, 2], Some(3)).coalesce(nothing())), (vec![1, 2], Some(3)));
    assert_eq!(said(nothing().coalesce(response(&[1, 2], Some(3)))), (vec![1, 2], Some(3)));
    assert_eq!(said(nothing().coalesce(nothing())), (vec![], None));
}

#[test]
fn joined_responses_keep_all_windows() {
    assert_eq!(
        said(response(&[1], None).coalesce(response(&[2], Some(3)))),
        (vec![1, 2], Some(3))
    );
    assert_eq!(
        said(response(&[1], Some(2)).coalesce(response(&[3], None))),
        (vec![1, 3], Some(2))
    );
    assert_eq!(
        said(response(&[1], Some(2)).coalesce(response(&[3], Some(4)))),
        (vec![1, 3, 4], Some(2))
    );
}

#[test]
fn however_responses_are_joined_the_first_focus_stands() {
    let parts = || [response(&[1], Some(2)), response(&[3], Some(4)), response(&[5], Some(6))];
    let [a, b, c] = parts();
    let left = said(a.coalesce(b).coalesce(c));
    let [a, b, c] = parts();
    let right = said(a.coalesce(b.coalesce(c)));
    assert_eq!(left, (vec![1, 3, 4, 5, 6], Some(2)));
    assert_eq!(right, (vec![1, 3, 5, 6, 4], Some(2)));
}

fn info(bundle_id: Option<&str>, title: Option<&str>, layer: Option<i32>) -> LayoutWindowInfo {
    LayoutWindowInfo {
        bundle_id: bundle_id.map(String::from),
        title: title.map(|title| Secret::new(title.to_string())),
        layer,
        is_standard: true,
        is_resizable: true,
    }
}

#[test]
fn ordinary_windows_are_managed() {
    assert_eq!(classify_window(&info(None, None, Some(0))), WindowClass::Regular);
    assert_eq!(classify_window(&info(None, None, None)), WindowClass::Regular);
    assert_eq!(
        classify_window(&info(Some("com.apple.finder"), None, None)),
        WindowClass::Regular
    );
}

#[test]
fn windows_on_other_layers_are_left_alone() {
    assert_eq!(classify_window(&info(None, None, Some(3))), WindowClass::Untracked);
    assert_eq!(classify_window(&info(None, None, Some(-1))), WindowClass::Untracked);
}

#[test]
fn the_window_that_finder_makes_up_is_left_alone() {
    let mut finder = info(Some("com.apple.finder"), None, None);
    finder.is_standard = false;
    assert_eq!(classify_window(&finder), WindowClass::Untracked);
    finder.layer = Some(0);
    assert_eq!(classify_window(&finder), WindowClass::FloatByDefault);
    finder.layer = None;
    finder.bundle_id = Some("com.example".to_string());
    assert_eq!(classify_window(&finder), WindowClass::FloatByDefault);
}

#[test]
fn picture_in_picture_windows_of_firefox_are_left_alone() {
    let firefox = Some("org.mozilla.firefox");
    let pip = Some("Picture-in-Picture");
    assert_eq!(classify_window(&info(firefox, pip, Some(0))), WindowClass::Untracked);
    assert_eq!(classify_window(&info(firefox, pip, None)), WindowClass::Untracked);
    assert_eq!(classify_window(&info(firefox, Some("A page"), Some(0))), WindowClass::Regular);
    assert_eq!(classify_window(&info(firefox, None, Some(0))), WindowClass::Regular);
    assert_eq!(classify_window(&info(Some("com.example"), pip, Some(0))), WindowClass::Regular);
}

#[test]
fn windows_of_a_fixed_size_float() {
    let mut fixed = info(None, None, Some(0));
    fixed.is_resizable = false;
    assert_eq!(classify_window(&fixed), WindowClass::FloatByDefault);
    assert_eq!(
        classify_window(&info(Some("com.apple.systempreferences"), None, Some(0))),
        WindowClass::FloatByDefault
    );
}

#[test]
fn opposite_edges_cancel_out() {
    assert_eq!(ResizeEdge::near(true, false, false, true).0, 0b1001);
    assert_eq!(ResizeEdge::near(false, true, true, false).0, 0b0110);
    assert_eq!(ResizeEdge::near(true, true, true, false).0, 0b0100);
    assert_eq!(ResizeEdge::near(true, true, true, true).0, 0);
    assert!(ResizeEdge::near(true, true, false, false).is_empty());
    assert!(!ResizeEdge(0b0100).is_empty());
    assert!(ResizeEdge(0b0010).has_horizontal() && !ResizeEdge(0b0010).has_vertical());
    assert!(ResizeEdge(0b1000).has_vertical() && !ResizeEdge(0b1000).has_horizontal());
    assert_eq!(ResizeEdge(0b0001).horizontal_direction(), Direction::Left);
    assert_eq!(ResizeEdge(0b0010).horizontal_direction(), Direction::Right);
    assert_eq!(ResizeEdge(0b0100).vertical_direction(), Direction::Up);
    assert_eq!(ResizeEdge(0b1000).vertical_direction(), Direction::Down);
}

#[test]
fn a_set_keeps_each_member_once_in_order() {
    let mut set = VecSet::from_list(&vec![3i32, 1, 3, 2, 1]);
    assert_eq!(*set.items(), vec![3, 1, 2]);
    set.insert(1);
    set.insert(4);
    set.remove(3);
    assert_eq!(*set.items(), vec![1, 2, 4]);
    assert!(set.contains(2) && !set.contains(3));
    assert_eq!(set.len(), 3);
    assert_eq!(position(&[5i32, 6, 6], 6), Some(1));
    assert_eq!(position(&[5i32, 6, 6], 7), None);
}

#[test]
fn a_map_has_one_value_for_a_key() {
    let mut map: VecMap<i32, u8> = VecMap::new();
    map.insert(1, 10);
    map.insert(2, 20);
    map.insert(1, 11);
    assert_eq!(map.get(1), Some(&11));
    let mut keys = map.keys();
    keys.sort();
    assert_eq!(keys, vec![1, 2]);
    assert_eq!(map.remove(2), Some(20));
    assert_eq!(map.remove(2), None);
    assert!(!map.contains_key(2));
}

fn frame() -> Frame {
    let real = |x: f64| Real(x.to_bits());
    Frame {
        origin: Point { x: real(1.0), y: real(2.0) },
        size: Size { width: real(3.0), height: real(4.0) },
    }
}

#[test]
fn writes_to_a_new_window_are_numbered_from_one() {
    let mut window = WindowState::from(WindowInfo {
        title: Secret::new("A title".to_string()),
        frame: frame(),
        is_standard: true,
        is_resizable: false,
        sys_id: Some(WindowServerId::new(9)),
    });
    assert_eq!(window.title.expose_secret(), "A title");
    assert_eq!(window.frame_monotonic, frame());
    assert!(window.is_ax_standard && !window.is_resizable);
    assert_eq!(window.window_server_id, Some(WindowServerId::new(9)));
    assert_eq!(window.last_sent_txid, TransactionId(0));
    assert_eq!(window.next_txid(), TransactionId(1));
    assert_eq!(window.next_txid(), TransactionId(2));
    window.last_sent_txid = TransactionId(u32::MAX);
    assert_eq!(window.next_txid(), TransactionId(0));
}

#[test]
fn names_carry_the_number_of_the_window_server_where_it_is_known() {
    let wsid = WindowServerId::new(5);
    assert_eq!(WindowId::with_wsid(1, wsid).wsid(), Some(wsid));
    assert_eq!(WindowId::new(1, 5).wsid(), None);
}

#[test]
fn events_that_come_often_are_told_from_others() {
    let point = Point { x: Real(0), y: Real(0) };
    assert!(Event::MouseUp.is_noisy());
    assert!(Event::LeftMouseDown(point).is_noisy());
    assert!(Event::LeftMouseDragged(point).is_noisy());
    let changed =
        Event::WindowFrameChanged(wid(1), frame(), TransactionId(0), Requested(false), None);
    assert!(changed.is_noisy());
    assert!(!Event::StartupComplete.is_noisy());
    assert!(!Event::WindowDestroyed(wid(1)).is_noisy());
}

#[test]
fn commands_that_change_the_layout_are_told_from_others() {
    assert!(LayoutCommand::MoveNode(Direction::Up).modifies_layout());
    assert!(LayoutCommand::Ungroup.modifies_layout());
    assert!(LayoutCommand::CycleColumnWidth.modifies_layout());
    assert!(!LayoutCommand::MoveFocus(Direction::Up).modifies_layout());
    assert!(!LayoutCommand::ToggleFullscreen.modifies_layout());
    assert!(!LayoutCommand::ChangeLayoutKind.modifies_layout());
}

#[test]
fn a_resize_is_five_percent_by_default() {
    assert_eq!(f64::from_bits(default_resize_percent().0), 5.0);
}

fn scroll_settings() -> ScrollConfig {
    ScrollConfig {
        enable: true,
        visible_columns: 2,
        new_window_in_column: NewWindowPlacement::SameColumn,
        infinite_loop: true,
        column_width_presets: vec![Real(1), Real(2)],
        center_focused_column: CenterMode(1),
        invert_scroll_direction: true,
        scroll_sensitivity: Real(3),
    }
}

#[test]
fn a_new_layout_manager_knows_nothing() {
    let manager = LayoutManager::new(scroll_settings());
    assert!(!manager.scroll_enabled);
    assert_eq!(manager.default_layout_kind, LayoutKind::Tree);
    assert_eq!(manager.try_layout(SpaceId::new(1)), None);
    let shown = manager.debug_tree_desc(SpaceId::new(1), "after", true);
    assert_eq!((shown.layout, shown.floating.len()), (None, 0));
    assert_eq!((shown.desc, shown.print), ("after", true));
    assert!(!manager.debug_tree(SpaceId::new(1)).print);
}

#[test]
fn settings_are_copied_whole() {
    let copy = scroll_settings().clone();
    assert_eq!(copy.column_width_presets, vec![Real(1), Real(2)]);
    assert_eq!(copy.new_window_in_column, NewWindowPlacement::SameColumn);
    assert!(copy.infinite_loop && copy.invert_scroll_direction);
}

#[test]
fn what_was_saved_twice_counts_once() {
    let saved = SavedLayout {
        spaces: vec![
            (SpaceId::new(1), LayoutId(4)),
            (SpaceId::new(2), LayoutId(5)),
            (SpaceId::new(1), LayoutId(6)),
        ],
        floating_windows: vec![wid(1), wid(2), wid(1)],
    };
    let manager = LayoutManager::restore(saved, scroll_settings());
    assert_eq!(manager.try_layout(SpaceId::new(1)), Some(LayoutId(6)));
    assert_eq!(manager.try_layout(SpaceId::new(2)), Some(LayoutId(5)));
    assert_eq!(*manager.floating_windows.items(), vec![wid(1), wid(2)]);
    let mut again = manager.saved();
    again.spaces.sort();
    assert_eq!(
        again.spaces,
        vec![(SpaceId::new(1), LayoutId(6)), (SpaceId::new(2), LayoutId(5))]
    );
}

#[test]
fn the_mouse_holds_one_thing_until_it_lets_go() {
    let mut manager = LayoutManager::restore(
        SavedLayout {
            spaces: vec![(SpaceId::new(1), LayoutId(4))],
            floating_windows: vec![],
        },
        scroll_settings(),
    );
    let point = Point { x: Real(0), y: Real(0) };
    assert!(!manager.has_interactive_state());
    assert!(manager.begin_interactive_move(SpaceId::new(1), wid(1), NodeId(2), point));
    assert!(!manager.begin_interactive_move(SpaceId::new(1), wid(2), NodeId(3), point));
    assert_eq!(manager.interactive_move.unwrap().window_id, wid(1));
    assert_eq!(manager.interactive_move.unwrap().layout_id, LayoutId(4));
    assert!(manager.has_interactive_state());
    manager.cancel_interactive_state();
    assert!(!manager.has_interactive_state());
    let edges = ResizeEdge(ResizeEdge::LEFT);
    assert!(manager.begin_interactive_resize(NodeId(1), NodeId(2), edges, point));
    assert!(!manager.begin_interactive_move(SpaceId::new(1), wid(1), NodeId(2), point));
}
