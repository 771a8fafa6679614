use imgui_ui::panels::{ProbeUi, TestUi};
use imgui_ui::surface::{Io, Ui, UiCommand};
use imgui_ui::ui::{UiError, UiManager};
use imgui_ui::world::World;

fn probe(name: &'static str) -> ProbeUi {
    ProbeUi { name, frames_drawn: 0, close_after_draw: false, refuse_hide: false }
}

fn io() -> Io {
    Io { mouse_x: 4, mouse_y: 7 }
}

fn window_titles(ui: &Ui) -> Vec<&'static str> {
    ui.commands()
        .iter()
        .filter_map(|c| match c {
            UiCommand::BeginWindow { title, .. } => Some(*title),
            _ => None,
        })
        .collect()
}

fn one_frame<W: imgui_ui::ui::ImguiDrawable>(
    manager: &mut UiManager<W>,
    world: &mut World,
) -> Vec<&'static str> {
    let mut ui = Ui::new(io());
    manager.draw(&mut ui, world);
    window_titles(&ui)
}

#[test]
fn test_ui_draws_hello_window() {
    let mut world = World::new();
    let mut manager = UiManager::default().add(TestUi, false).build(&mut world);
    let mut ui = Ui::new(io());
    manager.draw(&mut ui, &mut world);
    let expected = vec![
        UiCommand::BeginWindow { title: "Hello world", width: 300, height: 100 },
        UiCommand::Text("Hello world!"),
        UiCommand::Text("こんにちは世界！"),
        UiCommand::Text("This...is...imgui-rs!"),
        UiCommand::Separator,
        UiCommand::TextPair { label: "Mouse Position:", first: 4, second: 7 },
        UiCommand::EndWindow,
    ];
    assert_eq!(ui.commands(), &expected);
}

#[test]
fn draw_with_no_panels_is_a_no_op() {
    let mut world = World::new();
    let mut manager: UiManager<ProbeUi> = UiManager::default();
    let mut ui = Ui::new(io());
    manager.draw(&mut ui, &mut world);
    assert!(ui.commands().is_empty());
}

#[test]
fn distinct_names_make_distinct_entries() {
    let manager = UiManager::default().add(probe("A"), false).add(probe("B"), true);
    assert_eq!(manager.len(), 2);
    assert_eq!(manager.is_hidden("A"), Some(false));
    assert_eq!(manager.is_hidden("B"), Some(true));
    assert_eq!(manager.is_hidden("C"), None);
}

#[test]
fn same_name_registers_one_entry_with_second_panel() {
    let first = probe("A");
    let second = ProbeUi { name: "A", frames_drawn: 0, close_after_draw: true, refuse_hide: false };
    let manager = UiManager::default().add(first, false).add(second, false);
    assert_eq!(manager.len(), 1);
    // the second panel closes itself after one draw call, the first never
    // does: after one frame the entry is hidden, so the survivor is the
    // second registration
    let mut world = World::new();
    let mut manager = manager.build(&mut world);
    assert_eq!(one_frame(&mut manager, &mut world), vec!["A"]);
    assert_eq!(manager.is_hidden("A"), Some(true));
}

#[test]
fn open_then_close_leaves_panel_hidden() {
    let mut manager = UiManager::default().add(probe("A"), true);
    assert_eq!(manager.open("A"), Ok(()));
    assert_eq!(manager.is_hidden("A"), Some(false));
    assert_eq!(manager.close("A"), Ok(()));
    assert_eq!(manager.is_hidden("A"), Some(true));
    // closing an already hidden panel is idempotent and not an error
    assert_eq!(manager.close("A"), Ok(()));
    assert_eq!(manager.is_hidden("A"), Some(true));
}

#[test]
fn unknown_name_is_an_error_and_touches_nothing() {
    let mut manager = UiManager::default().add(probe("A"), false).add(probe("B"), true);
    assert_eq!(
        manager.open("does-not-exist"),
        Err(UiError::WindowNotFound(String::from("does-not-exist")))
    );
    assert_eq!(
        manager.close("does-not-exist"),
        Err(UiError::WindowNotFound(String::from("does-not-exist")))
    );
    assert_eq!(manager.len(), 2);
    assert_eq!(manager.is_hidden("A"), Some(false));
    assert_eq!(manager.is_hidden("B"), Some(true));
}

#[test]
fn hidden_panel_receives_no_draw_calls() {
    let mut world = World::new();
    let mut manager = UiManager::default().add(probe("B"), true).build(&mut world);
    assert_eq!(one_frame(&mut manager, &mut world), Vec::<&str>::new());
    assert_eq!(one_frame(&mut manager, &mut world), Vec::<&str>::new());
    assert_eq!(manager.open("B"), Ok(()));
    assert_eq!(one_frame(&mut manager, &mut world), vec!["B"]);
}

#[test]
fn setup_runs_before_the_first_draw() {
    let mut world = World::new();
    let manager = UiManager::default().add(probe("A"), false);
    assert!(!world.contains_resource("A"));
    let mut manager = manager.build(&mut world);
    // the setup marker is in the shared state before any draw call
    assert!(world.contains_resource("A"));
    assert_eq!(one_frame(&mut manager, &mut world), vec!["A"]);
}

#[test]
fn panel_can_close_itself_during_draw() {
    let mut world = World::new();
    let closing = ProbeUi { name: "A", frames_drawn: 0, close_after_draw: true, refuse_hide: false };
    let mut manager = UiManager::default().add(closing, false).build(&mut world);
    assert_eq!(one_frame(&mut manager, &mut world), vec!["A"]);
    assert_eq!(manager.is_hidden("A"), Some(true));
    assert_eq!(one_frame(&mut manager, &mut world), Vec::<&str>::new());
}

#[test]
fn panel_can_refuse_a_hide_request() {
    let veto = ProbeUi { name: "A", frames_drawn: 0, close_after_draw: false, refuse_hide: true };
    let mut manager = UiManager::default().add(veto, false);
    assert_eq!(manager.close("A"), Ok(()));
    assert_eq!(manager.is_hidden("A"), Some(false));
    // the veto only holds hide requests back; show requests still work
    assert_eq!(manager.open("A"), Ok(()));
    assert_eq!(manager.is_hidden("A"), Some(false));
}

#[test]
fn frame_by_frame_scenario() {
    let mut world = World::new();
    let mut manager =
        UiManager::default().add(probe("A"), false).add(probe("B"), true).build(&mut world);
    assert_eq!(one_frame(&mut manager, &mut world), vec!["A"]);
    assert_eq!(manager.open("B"), Ok(()));
    assert_eq!(one_frame(&mut manager, &mut world), vec!["A", "B"]);
    assert_eq!(manager.close("A"), Ok(()));
    assert_eq!(one_frame(&mut manager, &mut world), vec!["B"]);
    assert_eq!(manager.open("Z"), Err(UiError::WindowNotFound(String::from("Z"))));
    assert_eq!(manager.is_hidden("A"), Some(true));
    assert_eq!(manager.is_hidden("B"), Some(false));
}

#[test]
fn world_tracks_registered_resources() {
    let mut world = World::new();
    assert!(!world.contains_resource("font-atlas"));
    world.register_resource("font-atlas");
    assert!(world.contains_resource("font-atlas"));
    assert!(!world.contains_resource("font"));
}

#[test]
fn surface_records_io_and_commands() {
    let mut ui = Ui::new(Io { mouse_x: -3, mouse_y: 9 });
    assert_eq!(ui.io(), Io { mouse_x: -3, mouse_y: 9 });
    assert!(ui.commands().is_empty());
    ui.text("one line");
    ui.separator();
    assert_eq!(ui.commands(), &vec![UiCommand::Text("one line"), UiCommand::Separator]);
}
