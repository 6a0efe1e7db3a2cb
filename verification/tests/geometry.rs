use bevy_ui_panels::buttons::UiPanelButton;
use bevy_ui_panels::geom::{flip_cursor_y, Vec2i};
use bevy_ui_panels::style::{Color, Interaction, Val};
use bevy_ui_panels::util::{climb_parents, UiMarker};
use bevy_ui_panels::world::UiWorld;
use bevy_ui_panels::{spawn_ui_panel, UiPanelsPlugin};

#[test]
fn checked_vector_arithmetic_is_exact() {
    let a = Vec2i::new(100, 100);
    let b = Vec2i::new(120, 110);
    assert_eq!(a.checked_sub(b), Some(Vec2i::new(-20, -10)));
    assert_eq!(Vec2i::new(200, 200).checked_add(Vec2i::new(-20, -10)), Some(Vec2i::new(180, 190)));
}

#[test]
fn overflowing_vector_arithmetic_reports_none() {
    let big = Vec2i::new(i64::MAX, 0);
    assert_eq!(big.checked_add(Vec2i::new(1, 0)), None);
    let small = Vec2i::new(i64::MIN, 0);
    assert_eq!(small.checked_sub(Vec2i::new(1, 0)), None);
    assert_eq!(big.checked_add(Vec2i::new(0, 1)), Some(Vec2i::new(i64::MAX, 1)));
}

#[test]
fn cursor_flip_moves_origin_to_top_left() {
    assert_eq!(flip_cursor_y(Vec2i::new(10, 30), 720), Some(Vec2i::new(10, 690)));
    assert_eq!(flip_cursor_y(Vec2i::new(0, 720), 720), Some(Vec2i::new(0, 0)));
    assert_eq!(flip_cursor_y(Vec2i::new(5, i64::MIN), 1), None);
}

#[test]
fn close_button_colors_per_interaction_state() {
    let b = UiPanelButton::Close;
    assert_eq!(b.color(&Interaction::Pressed), Color::rgb(1000, 400, 400));
    assert_eq!(b.color(&Interaction::Hovered), Color::rgb(700, 300, 300));
    assert_eq!(b.color(&Interaction::Idle), Color::rgb(800, 400, 400));
}

#[test]
fn climb_finds_nearest_panel_past_non_matching_ancestors() {
    let mut w = UiWorld::new();
    let root = w.setup();
    let plugin = UiPanelsPlugin;
    let content = spawn_ui_panel(
        &mut w,
        1,
        String::from("p"),
        Vec2i::new(0, 0),
        Vec2i::new(10, 10),
        true,
    );
    let panel = content + 1;
    let label = content + 3;
    let text = content + 4;
    let button = content + 5;
    // from the text node: label container and titlebar intervene
    assert_eq!(climb_parents(&w, text, UiMarker::Panel), Some(panel));
    // from the button: the titlebar intervenes
    assert_eq!(climb_parents(&w, button, UiMarker::Panel), Some(panel));
    // the start entity itself never counts: the panel's nearest panel
    // ancestor does not exist before parenting
    assert_eq!(climb_parents(&w, panel, UiMarker::Panel), None);
    // no ancestor carries the root marker until the parenting pass runs
    assert_eq!(climb_parents(&w, label, UiMarker::PanelParent), None);
    plugin.run_frame(&mut w, None);
    assert_eq!(climb_parents(&w, label, UiMarker::PanelParent), Some(root));
}

#[test]
fn climb_from_parentless_entity_is_empty() {
    let mut w = UiWorld::new();
    let root = w.setup();
    assert_eq!(climb_parents(&w, root, UiMarker::Panel), None);
    // a missing entity has no ancestors either
    assert_eq!(climb_parents(&w, 999, UiMarker::Panel), None);
}
