use bevy_ui_panels::buttons::UiPanelButton;
use bevy_ui_panels::geom::Vec2i;
use bevy_ui_panels::style::{Color, Interaction, Val};
use bevy_ui_panels::world::UiWorld;
use bevy_ui_panels::{spawn_ui_panel, UiPanelsPlugin};

fn new_world_with_root() -> (UiWorld, u64) {
    let mut w = UiWorld::new();
    let root = w.setup();
    (w, root)
}

#[test]
fn example_drag_and_close() {
    // one panel at (100,100), size (200,150), closable
    let (mut w, root) = new_world_with_root();
    let plugin = UiPanelsPlugin;
    let content = spawn_ui_panel(
        &mut w,
        7,
        String::from("Test Panel"),
        Vec2i::new(100, 100),
        Vec2i::new(200, 150),
        true,
    );
    let panel = content + 1;
    let titlebar = content + 2;
    let button = content + 5;
    assert!(w.has_titlebar(titlebar));
    assert!(w.has_button(button));
    assert!(w.has_content(content));

    // first frame: the parenting pass adopts the panel under the root
    plugin.run_frame(&mut w, None);
    assert_eq!(w.children_of(root), vec![panel]);
    assert_eq!(w.node_parent(panel), Some(root));

    // press the titlebar with the cursor at (120,110): offset = (-20,-10)
    w.set_interaction(titlebar, Interaction::Pressed);
    plugin.run_frame(&mut w, Some(Vec2i::new(120, 110)));
    assert_eq!(w.panel_drag_offset(panel), Some(Vec2i::new(-20, -10)));
    assert_eq!(w.panel_position(panel), Some(Vec2i::new(100, 100)));

    // move the cursor to (200,200): panel follows rigidly to (180,190)
    plugin.run_frame(&mut w, Some(Vec2i::new(200, 200)));
    assert_eq!(w.panel_position(panel), Some(Vec2i::new(180, 190)));
    let style = w.node_style(panel).unwrap();
    assert_eq!(style.left, Val::Px(180));
    assert_eq!(style.top, Val::Px(190));

    // release: drag record cleared, position frozen at (180,190)
    w.set_interaction(titlebar, Interaction::Hovered);
    plugin.run_frame(&mut w, Some(Vec2i::new(300, 300)));
    assert_eq!(w.panel_drag_offset(panel), None);
    assert_eq!(w.panel_position(panel), Some(Vec2i::new(180, 190)));
    plugin.run_frame(&mut w, Some(Vec2i::new(50, 50)));
    assert_eq!(w.panel_position(panel), Some(Vec2i::new(180, 190)));

    // click Close: the whole subtree vanishes, the root survives
    w.set_interaction(button, Interaction::Pressed);
    plugin.run_frame(&mut w, Some(Vec2i::new(50, 50)));
    assert!(!w.contains(panel));
    assert!(!w.contains(titlebar));
    assert!(!w.contains(content));
    assert!(!w.contains(button));
    assert!(w.contains(root));
    assert_eq!(w.children_of(root), Vec::<u64>::new());
}

#[test]
fn parenting_preserves_creation_order_and_converges() {
    let (mut w, root) = new_world_with_root();
    let plugin = UiPanelsPlugin;
    let c1 = spawn_ui_panel(&mut w, 1, String::from("a"), Vec2i::new(0, 0), Vec2i::new(10, 10), false);
    let c2 = spawn_ui_panel(&mut w, 1, String::from("b"), Vec2i::new(5, 5), Vec2i::new(10, 10), false);
    let c3 = spawn_ui_panel(&mut w, 1, String::from("c"), Vec2i::new(9, 9), Vec2i::new(10, 10), false);
    let (p1, p2, p3) = (c1 + 1, c2 + 1, c3 + 1);
    plugin.run_frame(&mut w, None);
    assert_eq!(w.children_of(root), vec![p1, p2, p3]);
    // a second pass is a no-op: no duplicates, no reordering
    plugin.run_frame(&mut w, None);
    assert_eq!(w.children_of(root), vec![p1, p2, p3]);
}

#[test]
fn grab_raises_panel_to_top_keeping_other_order() {
    let (mut w, root) = new_world_with_root();
    let plugin = UiPanelsPlugin;
    let c1 = spawn_ui_panel(&mut w, 1, String::from("a"), Vec2i::new(0, 0), Vec2i::new(10, 10), false);
    let c2 = spawn_ui_panel(&mut w, 1, String::from("b"), Vec2i::new(5, 5), Vec2i::new(10, 10), false);
    let c3 = spawn_ui_panel(&mut w, 1, String::from("c"), Vec2i::new(9, 9), Vec2i::new(10, 10), false);
    let (p1, p2, p3) = (c1 + 1, c2 + 1, c3 + 1);
    let t1 = c1 + 2;
    plugin.run_frame(&mut w, None);
    assert_eq!(w.children_of(root), vec![p1, p2, p3]);
    // grab the first panel: it moves to the end, the others keep their order
    w.set_interaction(t1, Interaction::Pressed);
    plugin.run_frame(&mut w, Some(Vec2i::new(1, 1)));
    assert_eq!(w.children_of(root), vec![p2, p3, p1]);
}

#[test]
fn no_cursor_freezes_grabs_and_drags() {
    let (mut w, _root) = new_world_with_root();
    let plugin = UiPanelsPlugin;
    let content = spawn_ui_panel(
        &mut w,
        1,
        String::from("p"),
        Vec2i::new(40, 40),
        Vec2i::new(10, 10),
        false,
    );
    let panel = content + 1;
    let titlebar = content + 2;
    plugin.run_frame(&mut w, None);
    w.set_interaction(titlebar, Interaction::Pressed);
    // no cursor this frame: the grab does not happen
    plugin.run_frame(&mut w, None);
    assert_eq!(w.panel_drag_offset(panel), None);
    assert_eq!(w.panel_position(panel), Some(Vec2i::new(40, 40)));
    // grab, then lose the cursor: the drag freezes instead of jumping
    w.set_interaction(titlebar, Interaction::Pressed);
    plugin.run_frame(&mut w, Some(Vec2i::new(45, 45)));
    assert_eq!(w.panel_drag_offset(panel), Some(Vec2i::new(-5, -5)));
    plugin.run_frame(&mut w, None);
    assert_eq!(w.panel_position(panel), Some(Vec2i::new(40, 40)));
    assert_eq!(w.panel_drag_offset(panel), Some(Vec2i::new(-5, -5)));
}

#[test]
fn without_root_container_nothing_is_parented() {
    let mut w = UiWorld::new();
    let plugin = UiPanelsPlugin;
    let content = spawn_ui_panel(
        &mut w,
        1,
        String::from("p"),
        Vec2i::new(0, 0),
        Vec2i::new(10, 10),
        false,
    );
    let panel = content + 1;
    plugin.run_frame(&mut w, None);
    assert_eq!(w.node_parent(panel), None);
}

#[test]
fn two_root_containers_make_parenting_opt_out() {
    let mut w = UiWorld::new();
    let plugin = UiPanelsPlugin;
    let r1 = w.setup();
    let r2 = w.setup();
    let content = spawn_ui_panel(
        &mut w,
        1,
        String::from("p"),
        Vec2i::new(0, 0),
        Vec2i::new(10, 10),
        false,
    );
    let panel = content + 1;
    plugin.run_frame(&mut w, None);
    assert_eq!(w.node_parent(panel), None);
    assert_eq!(w.children_of(r1), Vec::<u64>::new());
    assert_eq!(w.children_of(r2), Vec::<u64>::new());
}

#[test]
fn style_sync_is_idempotent() {
    let (mut w, _root) = new_world_with_root();
    let content = spawn_ui_panel(
        &mut w,
        1,
        String::from("p"),
        Vec2i::new(33, 44),
        Vec2i::new(10, 10),
        false,
    );
    let panel = content + 1;
    w.panel_updating();
    let first = w.node_style(panel).unwrap();
    assert_eq!(first.left, Val::Px(33));
    assert_eq!(first.top, Val::Px(44));
    w.panel_updating();
    let second = w.node_style(panel).unwrap();
    assert_eq!(first, second);
}

#[test]
fn untouched_panels_never_move() {
    let (mut w, _root) = new_world_with_root();
    let plugin = UiPanelsPlugin;
    let ca = spawn_ui_panel(&mut w, 1, String::from("a"), Vec2i::new(10, 20), Vec2i::new(5, 5), false);
    let cb = spawn_ui_panel(&mut w, 1, String::from("b"), Vec2i::new(70, 80), Vec2i::new(5, 5), false);
    let (pa, pb) = (ca + 1, cb + 1);
    let tb = cb + 2;
    plugin.run_frame(&mut w, None);
    // drag panel b around; panel a must not move and never starts dragging
    w.set_interaction(tb, Interaction::Pressed);
    plugin.run_frame(&mut w, Some(Vec2i::new(75, 85)));
    plugin.run_frame(&mut w, Some(Vec2i::new(200, 300)));
    assert_eq!(w.panel_position(pb), Some(Vec2i::new(195, 295)));
    assert_eq!(w.panel_position(pa), Some(Vec2i::new(10, 20)));
    assert_eq!(w.panel_drag_offset(pa), None);
}

#[test]
fn close_button_without_panel_ancestor_is_a_no_op() {
    let (mut w, root) = new_world_with_root();
    let plugin = UiPanelsPlugin;
    let stray = UiPanelButton::Close.spawn(&mut w, root, Val::Px(16));
    let before = w.node_count();
    w.set_interaction(stray, Interaction::Pressed);
    plugin.run_frame(&mut w, None);
    assert_eq!(w.node_count(), before);
    assert!(w.contains(stray));
    assert!(w.contains(root));
}

#[test]
fn clicked_button_recolors() {
    let (mut w, root) = new_world_with_root();
    let plugin = UiPanelsPlugin;
    let stray = UiPanelButton::Close.spawn(&mut w, root, Val::Px(16));
    assert_eq!(w.node_color(stray), Some(Color::rgb(800, 400, 400)));
    w.set_interaction(stray, Interaction::Hovered);
    plugin.run_frame(&mut w, None);
    assert_eq!(w.node_color(stray), Some(Color::rgb(700, 300, 300)));
}

#[test]
fn factory_returns_content_entity_and_builds_the_tree() {
    let (mut w, _root) = new_world_with_root();
    let content = spawn_ui_panel(
        &mut w,
        9,
        String::from("t"),
        Vec2i::new(1, 2),
        Vec2i::new(30, 40),
        false,
    );
    let panel = content + 1;
    let titlebar = content + 2;
    assert!(w.has_content(content));
    assert_eq!(w.node_parent(content), Some(panel));
    assert_eq!(w.node_parent(titlebar), Some(panel));
    assert!(w.has_titlebar(titlebar));
    assert_eq!(w.panel_position(panel), Some(Vec2i::new(1, 2)));
    let style = w.node_style(panel).unwrap();
    assert_eq!(style.width, Val::Px(30));
    assert_eq!(style.height, Val::Px(40));
    // not closable: no button was spawned in the titlebar subtree
    assert!(!w.has_button(content + 4));
    assert!(!w.contains(content + 5));
    // closable: the button is the last titlebar child
    let content2 = spawn_ui_panel(
        &mut w,
        9,
        String::from("u"),
        Vec2i::new(0, 0),
        Vec2i::new(8, 8),
        true,
    );
    assert!(w.has_button(content2 + 5));
    assert_eq!(w.node_parent(content2 + 5), Some(content2 + 2));
}
