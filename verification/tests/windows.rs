use archiinventory::conn::{ConnEvent, Connection};
use archiinventory::data::{NativePath, SlotItemGroup, WorldConnType, WorldFile, WorldFileSlot};
use archiinventory::istr::{Istr, StringCache};
use archiinventory::os_path::OsPath;
use archiinventory::ui::{
    close_action, view_text, App, CloseAction, CloseAnswer, ConnButton, SaveTarget, SlotAction,
    SlotInput, SlotKeys, SlotPass,
};
use archiinventory::windows::{slot_window_title, App as WindowsApp, SlotUi, SlotViewport};
use archiinventory::world::{IdSource, InstanceLocalId, World, WorldSlot};
use archiinventory::world_ui::{
    App as WorldApp, RowClicks, RowPass, SlotAction as RowAction,
};

fn text(s: &str) -> String {
    s.to_owned()
}

fn world(names: &[&str]) -> WorldFile {
    WorldFile {
        name: text("World"),
        slots: names
            .iter()
            .map(|name| WorldFileSlot { name: text(name), ..WorldFileSlot::default() })
            .collect(),
        ..WorldFile::default()
    }
}

fn app(names: &[&str]) -> App {
    App::new(Some((NativePath::Text(text("/w.json")), world(names))))
}

fn names(app: &App) -> Vec<&str> {
    app.world.slots.iter().map(|slot| slot.name.as_str()).collect()
}

const NO_KEYS: SlotKeys = SlotKeys {
    up: false,
    down: false,
    move_up: false,
    move_down: false,
    toggle: false,
    delete: false,
};

const NO_INPUT: SlotInput =
    SlotInput { edited: false, viewed: false, was_empty: false, keys: None };

fn pressed(keys: SlotKeys) -> SlotInput {
    SlotInput { keys: Some(keys), ..NO_INPUT }
}

#[test]
fn a_new_window() {
    let app = App::new(None);
    assert!(app.world_path.is_none());
    assert!(!app.world_dirty);
    assert_eq!(app.world.conn_type, WorldConnType::Room);
    assert!(app.world.slots.is_empty());
    assert_eq!(app.slot_focus, 0);
}

#[test]
fn a_restored_window() {
    let app = app(&["A"]);
    assert!(matches!(&app.world_path, Some(NativePath::Text(path)) if path == "/w.json"));
    assert_eq!(names(&app), ["A"]);
    assert!(!app.world_dirty);
}

#[test]
fn unsaved_worlds_are_not_lost() {
    let mut app = app(&["A"]);
    app.mark_dirty();
    app.load_world(None, WorldFile::default(), false);
    assert_eq!(names(&app), ["A"]);
    assert!(app.world_dirty);
    app.set_connection(Connection::new(WorldConnType::Room, Ok(())));
    app.load_world(None, world(&["B"]), true);
    assert_eq!(names(&app), ["B"]);
    assert!(!app.world_dirty);
    assert!(app.world_path.is_none());
    assert!(app.connection.is_none());
    assert!(app.slot_searcher.stale_inventory_or_type_filter);
    app.load_world(None, WorldFile::default(), false);
    assert!(app.world.slots.is_empty());
}

#[test]
fn where_to_save() {
    let mut app = app(&[]);
    assert!(matches!(app.save_target(false), SaveTarget::Write(NativePath::Text(p)) if p == "/w.json"));
    assert!(matches!(app.save_target(true), SaveTarget::Pick(name) if name == "World.json"));
    app.world_path = None;
    assert!(matches!(app.save_target(false), SaveTarget::Pick(name) if name == "World.json"));
    app.mark_dirty();
    app.set_path(NativePath::Text(text("/x")));
    app.saved(false);
    assert!(app.world_dirty);
    assert!(matches!(app.save_target(false), SaveTarget::Write(NativePath::Text(p)) if p == "/x"));
    app.saved(true);
    assert!(!app.world_dirty);
}

#[test]
fn window_titles() {
    let mut app = app(&[]);
    assert_eq!(app.update_window_title().unwrap(), "World - archiinventory");
    assert!(app.update_window_title().is_none());
    app.mark_dirty();
    assert_eq!(app.update_window_title().unwrap(), "World* - archiinventory");
    assert!(app.update_window_title().is_none());
    app.world.name = text("Other");
    assert_eq!(app.update_window_title().unwrap(), "Other* - archiinventory");
}

#[test]
fn closing_the_window() {
    let mut app = app(&[]);
    assert!(!app.asks_before_close(true));
    app.mark_dirty();
    assert!(app.asks_before_close(true));
    assert!(!app.asks_before_close(false));
    assert_eq!(close_action(CloseAnswer::Yes), CloseAction::Save);
    assert_eq!(close_action(CloseAnswer::No), CloseAction::Close);
    assert_eq!(close_action(CloseAnswer::Cancel), CloseAction::Stay);
}

#[test]
fn the_connection_button() {
    let mut app = app(&["A"]);
    assert_eq!(app.conn_button(), ConnButton::Refresh { enabled: true });
    app.world.slots[0].active = false;
    assert_eq!(app.conn_button(), ConnButton::Refresh { enabled: false });
    app.set_connection(Connection::new(WorldConnType::Room, Ok(())));
    assert_eq!(app.conn_button(), ConnButton::Cancel);
    assert!(app.on_event(ConnEvent::Done(None)));
    assert_eq!(app.conn_button(), ConnButton::Refresh { enabled: false });
    app.cancel();
    assert!(app.connection.is_none());
}

#[test]
fn choosing_how_to_connect() {
    let mut app = app(&[]);
    app.set_conn_type(WorldConnType::Client);
    assert_eq!(app.world.conn_type, WorldConnType::Client);
    assert!(app.world_dirty);
}

#[test]
fn moving_between_rows() {
    let mut app = app(&["A", "B", "C"]);
    let mut pass = SlotPass::new();
    assert!(!pass.take_focus());
    // The first row has none above it.
    assert!(!app.slot_row(&mut pass, 0, pressed(SlotKeys { up: true, ..NO_KEYS })));
    assert!(app.slot_row(&mut pass, 1, pressed(SlotKeys { up: true, ..NO_KEYS })));
    assert!(!app.slot_row(&mut pass, 1, pressed(SlotKeys { down: true, ..NO_KEYS })));
    assert!(pass.take_focus());
    assert!(!pass.take_focus());
    // The last row has none below it.
    app.slot_row(&mut pass, 2, pressed(SlotKeys { down: true, ..NO_KEYS }));
    assert!(!pass.take_focus());
    assert_eq!(pass.action, SlotAction::Keep);
    app.end_rows(pass);
    assert!(!app.world_dirty);
}

#[test]
fn moving_slots() {
    let mut app = app(&["A", "B", "C"]);
    app.slot_focus = 1;
    let mut pass = SlotPass::new();
    assert!(app.slot_row(&mut pass, 1, pressed(SlotKeys { move_up: true, ..NO_KEYS })));
    assert_eq!(pass.action, SlotAction::Swap(0, 1));
    app.end_rows(pass);
    assert_eq!(names(&app), ["B", "A", "C"]);
    assert_eq!(app.slot_focus, 0);
    assert!(app.world_dirty);
    let mut pass = SlotPass::new();
    app.slot_row(&mut pass, 0, pressed(SlotKeys { move_down: true, ..NO_KEYS }));
    assert!(pass.next_focus);
    app.end_rows(pass);
    assert_eq!(names(&app), ["A", "B", "C"]);
    assert_eq!(app.slot_focus, 1);
    // There is nowhere to move to.
    let mut pass = SlotPass::new();
    app.slot_row(&mut pass, 0, pressed(SlotKeys { move_up: true, ..NO_KEYS }));
    app.slot_row(&mut pass, 2, pressed(SlotKeys { move_down: true, ..NO_KEYS }));
    assert_eq!(pass.action, SlotAction::Keep);
}

#[test]
fn deleting_slots() {
    let mut app = app(&["A", "", "C", ""]);
    let delete = pressed(SlotKeys { delete: true, ..NO_KEYS });
    let mut pass = SlotPass::new();
    // Only a slot without a name can be deleted.
    assert!(!app.slot_row(&mut pass, 0, delete));
    assert_eq!(pass.action, SlotAction::Keep);
    let delete = SlotInput { was_empty: true, ..delete };
    assert!(!app.slot_row(&mut pass, 1, delete));
    assert_eq!(pass.action, SlotAction::Remove(1));
    app.end_rows(pass);
    assert_eq!(names(&app), ["A", "C", ""]);
    let mut pass = SlotPass::new();
    assert!(app.slot_row(&mut pass, 2, delete));
    app.end_rows(pass);
    assert_eq!(names(&app), ["A", "C"]);
}

#[test]
fn toggling_and_editing_slots() {
    let mut app = app(&["A", "B"]);
    let mut pass = SlotPass::new();
    app.slot_row(&mut pass, 1, pressed(SlotKeys { toggle: true, ..NO_KEYS }));
    assert!(!app.world.slots[1].active);
    assert!(app.world.slots[0].active);
    assert!(pass.changed);
    app.end_rows(pass);
    assert!(app.world_dirty);
    app.saved(true);
    let mut pass = SlotPass::new();
    app.slot_row(&mut pass, 0, SlotInput { edited: true, ..NO_INPUT });
    app.slot_row(&mut pass, 1, NO_INPUT);
    app.end_rows(pass);
    assert!(app.world_dirty);
}

#[test]
fn viewing_a_slot() {
    let mut app = app(&["A", "B"]);
    app.navigate(false, false);
    app.refresh_rows();
    assert!(!app.slot_searcher.stale_inventory_or_type_filter);
    let mut pass = SlotPass::new();
    app.slot_row(&mut pass, 1, SlotInput { viewed: true, ..NO_INPUT });
    assert_eq!(app.slot_focus, 1);
    assert!(app.slot_searcher.stale_inventory_or_type_filter);
    app.end_rows(pass);
    assert!(!app.world_dirty);
}

#[test]
fn view_buttons() {
    let mut slot = WorldFileSlot::default();
    assert_eq!(view_text(&slot), "\u{2796}");
    slot.total_items = 12;
    slot.confirmed = 2;
    assert_eq!(view_text(&slot), "\u{271A} 10");
    slot.confirmed = 20;
    assert_eq!(view_text(&slot), "\u{2796}");
}

#[test]
fn sorting_slots() {
    let mut app = app(&["b", "\u{ff21}", "B", "a"]);
    app.sort_slots();
    assert_eq!(names(&app), ["\u{ff21}", "a", "b", "B"]);
    assert!(app.world_dirty);
    app.sort_slots();
    assert_eq!(names(&app), ["\u{ff21}", "a", "b", "B"]);
}

#[test]
fn adding_slots() {
    let mut app = app(&["A"]);
    app.add_slot();
    assert_eq!(names(&app), ["A", ""]);
    assert!(app.world.slots[1].active);
    assert!(app.world_dirty);
}

fn groups(cache: &mut StringCache) -> Vec<SlotItemGroup> {
    vec![SlotItemGroup { id: 1, name: Istr::new(cache, "Coin"), instances: Vec::new() }]
}

#[test]
fn items_are_delivered() {
    let mut cache = StringCache::new();
    let mut app = app(&["A", "B", "B"]);
    app.refresh_rows();
    app.set_connection(Connection::new(WorldConnType::Room, Ok(())));
    assert!(!app.on_event(ConnEvent::SlotData(text("B"), 4, groups(&mut cache))));
    assert_eq!(app.world.slots[1].total_items, 4);
    assert_eq!(app.world.slots[1].inventory.len(), 1);
    assert_eq!(app.world.slots[2].total_items, 0);
    assert!(!app.world_dirty);
    assert!(!app.slot_searcher.stale_inventory_or_type_filter);
    app.world.slots[1].confirmed = 4;
    app.slot_focus = 1;
    app.deliver("B", 3, Vec::new());
    assert_eq!(app.world.slots[1].confirmed, 3);
    assert!(app.world_dirty);
    assert!(app.slot_searcher.stale_inventory_or_type_filter);
    app.deliver("nobody", 9, Vec::new());
    assert_eq!(app.world.slots[0].total_items, 0);
    assert!(!app.on_event(ConnEvent::Status(text("x"))));
    assert!(app.on_event(ConnEvent::Error(text("y"))));
}

#[test]
fn workers_that_panic() {
    let mut app = app(&[]);
    app.set_connection(Connection::new(WorldConnType::Room, Ok(())));
    app.on_panic(None);
    assert!(!app.connection.unwrap().active());
}

#[test]
fn finished_connections_deliver_nothing() {
    let mut app = app(&["A"]);
    assert!(app.on_event(ConnEvent::SlotData(text("A"), 4, Vec::new())));
    assert_eq!(app.world.slots[0].total_items, 0);
    app.on_panic(None);
    assert!(app.connection.is_none());
    app.set_connection(Connection::new(WorldConnType::Room, Ok(())));
    assert!(app.on_event(ConnEvent::Done(None)));
    assert!(app.on_event(ConnEvent::SlotData(text("A"), 4, Vec::new())));
    assert_eq!(app.world.slots[0].total_items, 0);
}

#[test]
fn navigating_between_slots() {
    let mut app = app(&["A", "B", "C"]);
    assert_eq!(app.navigate(true, false), Some(0));
    assert_eq!(app.navigate(false, true), Some(1));
    assert_eq!(app.navigate(true, false), Some(0));
    assert_eq!(app.navigate(true, true), Some(1));
    app.slot_focus = 2;
    assert_eq!(app.navigate(false, true), Some(2));
    app.slot_focus = 17;
    assert_eq!(app.navigate(false, false), Some(2));
    assert_eq!(App::new(None).navigate(true, true), None);
}

#[test]
fn confirming_the_slot_in_view() {
    let mut cache = StringCache::new();
    let mut app = app(&["A", "B"]);
    app.deliver("B", 5, groups(&mut cache));
    app.slot_focus = 1;
    app.confirm_focused();
    assert_eq!(app.world.slots[1].confirmed, 5);
    assert_eq!(app.world.slots[0].confirmed, 0);
    assert!(app.world_dirty);
    app.refresh_rows();
    assert_eq!(app.slot_searcher.row_stats.len(), 1);
}

#[test]
fn what_is_kept_for_the_next_start() {
    let mut cache = StringCache::new();
    drop(Istr::new(&mut cache, "unused"));
    let used = Istr::new(&mut cache, "used");
    assert_eq!(app(&[]).save(&mut cache).unwrap(), "/w.json@");
    assert_eq!(cache.len(), 1);
    assert_eq!(used.as_ref(), "used");
    assert!(App::new(None).save(&mut cache).is_none());
}

fn plain_world(source: &mut IdSource, names: &[&str]) -> World {
    World {
        name: text("Plain"),
        slots: names
            .iter()
            .map(|name| WorldSlot { name: text(name), id: InstanceLocalId::default(source) })
            .collect(),
        ..World::default()
    }
}

const NO_CLICKS: RowClicks =
    RowClicks { delete: false, up: false, down: false, view: false, edited: false };

fn plain_names(world: &World) -> Vec<&str> {
    world.slots.iter().map(|slot| slot.name.as_str()).collect()
}

#[test]
fn numbers_of_slots_differ() {
    let mut source = IdSource::new();
    let a = WorldSlot::new(&mut source);
    let b = WorldSlot::new(&mut source);
    assert_eq!(a.id, InstanceLocalId(0));
    assert_eq!(b.id, InstanceLocalId(1));
    assert_eq!(a.name, "");
    let mut source = IdSource { next: u32::MAX };
    assert_eq!(InstanceLocalId::default(&mut source), InstanceLocalId(u32::MAX));
    assert_eq!(InstanceLocalId::default(&mut source), InstanceLocalId(0));
}

#[test]
fn copies_of_worlds() {
    let mut source = IdSource::new();
    let world = plain_world(&mut source, &["A", "B"]);
    let copy = world.clone();
    assert_eq!(copy.name, "Plain");
    assert_eq!(plain_names(&copy), ["A", "B"]);
    assert_eq!(copy.slots[1].id, world.slots[1].id);
}

#[test]
fn a_plain_window() {
    let mut source = IdSource::new();
    let path = OsPath::Text(text("/p.cbor"));
    let mut app = WorldApp::new(Some((plain_world(&mut source, &["A"]), path)));
    assert_eq!(app.title(), "Plain - archiinventory");
    assert!(!app.can_save());
    assert!(app.focused().is_none());
    assert!(!app.asks_before_close(true));
    app.modified_world();
    assert!(app.asks_before_close(true));
    assert!(!app.asks_before_close(false));
    assert!(app.can_save());
    app.load(None, World::default(), false);
    assert_eq!(plain_names(&app.world), ["A"]);
    app.saved(false);
    assert!(app.world_dirty);
    app.saved(true);
    assert!(!app.world_dirty);
    assert_eq!(app.save("tag").unwrap().split(',').next(), Some("tag"));
    app.load(None, World::default(), false);
    assert!(app.world.slots.is_empty() && app.world_path.is_none());
    assert!(app.save("tag").is_none());
    app.modified_world();
    assert!(!app.can_save());
    app.set_path(OsPath::Bytes(vec![0x86, 0x4f, 0xd2, 0x6f]));
    assert!(app.can_save());
    assert_eq!(app.save("tag").unwrap(), "tag,Hello");
}

#[test]
fn moving_plain_slots() {
    let mut source = IdSource::new();
    let mut app = WorldApp::new(None);
    app.world = plain_world(&mut source, &["A", "B", "C"]);
    app.world_focus = Some(1);
    let mut pass = RowPass::new();
    assert!(!app.slot_name_ui(&mut pass, 1, RowClicks { up: true, ..NO_CLICKS }));
    assert_eq!(pass.action, RowAction::Swap(0, 1));
    app.end_rows(pass);
    assert_eq!(plain_names(&app.world), ["B", "A", "C"]);
    assert_eq!(app.focused().unwrap().name, "B");
    assert!(app.world_dirty);
    let mut pass = RowPass::new();
    app.slot_name_ui(&mut pass, 1, RowClicks { down: true, ..NO_CLICKS });
    app.end_rows(pass);
    assert_eq!(plain_names(&app.world), ["B", "C", "A"]);
    assert_eq!(app.focused().unwrap().name, "B");
    app.world_focus = Some(2);
    let mut pass = RowPass::new();
    app.slot_name_ui(&mut pass, 1, RowClicks { down: true, ..NO_CLICKS });
    app.end_rows(pass);
    assert_eq!(app.focused().unwrap().name, "A");
}

#[test]
fn deleting_plain_slots() {
    let mut source = IdSource::new();
    let mut app = WorldApp::new(None);
    app.world = plain_world(&mut source, &["A", "B", "C"]);
    app.world_focus = Some(2);
    let mut pass = RowPass::new();
    app.slot_name_ui(&mut pass, 0, RowClicks { delete: true, ..NO_CLICKS });
    app.end_rows(pass);
    assert_eq!(plain_names(&app.world), ["B", "C"]);
    assert_eq!(app.focused().unwrap().name, "C");
    let mut pass = RowPass::new();
    app.slot_name_ui(&mut pass, 1, RowClicks { delete: true, ..NO_CLICKS });
    app.end_rows(pass);
    assert!(app.focused().is_none());
}

#[test]
fn viewing_and_naming_plain_slots() {
    let mut source = IdSource::new();
    let mut app = WorldApp::new(None);
    app.world = plain_world(&mut source, &["A", "B"]);
    let mut pass = RowPass::new();
    app.slot_name_ui(&mut pass, 1, RowClicks { view: true, ..NO_CLICKS });
    assert_eq!(app.focused().unwrap().name, "B");
    app.end_rows(pass);
    assert!(!app.world_dirty);
    let mut pass = RowPass::new();
    app.slot_name_ui(&mut pass, 0, RowClicks { edited: true, ..NO_CLICKS });
    app.end_rows(pass);
    assert!(app.world_dirty);
}

#[test]
fn adding_plain_slots() {
    let mut source = IdSource::new();
    let mut app = WorldApp::new(None);
    app.world = plain_world(&mut source, &["A"]);
    let mut pass = RowPass::new();
    app.add_slot(&mut pass, &mut source);
    assert_eq!(pass.action, RowAction::Focus(1));
    assert_eq!(app.world.slots[1].id, InstanceLocalId(1));
    assert!(!app.slot_name_ui(&mut pass, 0, NO_CLICKS));
    assert!(app.slot_name_ui(&mut pass, 1, NO_CLICKS));
    app.end_rows(pass);
    assert_eq!(plain_names(&app.world), ["A", ""]);
    assert!(app.world_dirty);
}

#[test]
fn sorting_plain_slots() {
    let mut source = IdSource::new();
    let mut app = WorldApp::new(None);
    app.world = plain_world(&mut source, &["b", "B", "a"]);
    app.world_focus = Some(0);
    let mut pass = RowPass::new();
    app.sort_slots(&mut pass);
    assert_eq!(plain_names(&app.world), ["B", "a", "b"]);
    assert_eq!(app.world_focus, Some(2));
    assert!(pass.modified);
    app.world_focus = Some(7);
    app.sort_slots(&mut pass);
    assert_eq!(app.world_focus, None);
}

const PLACE: SlotViewport = SlotViewport {
    outer_position: Some((1, 2)),
    inner_size: Some((3, 4)),
    fullscreen: Some(false),
    maximized: None,
};

#[test]
fn windows_come_back_where_they_were() {
    let mut slot = SlotUi::default();
    assert_eq!(slot.placement(), None);
    slot.close(PLACE);
    assert!(!slot.open);
    assert_eq!(slot.placement(), None);
    slot.open = true;
    assert_eq!(slot.placement(), Some(Some(PLACE)));
    // From then on the window is the user's.
    assert_eq!(slot.placement(), Some(None));
}

#[test]
fn places_of_windows_are_kept() {
    let mut source = IdSource::new();
    let world = plain_world(&mut source, &["A", "B"]);
    let path = OsPath::Text(text("/p"));
    let app = WindowsApp::new(Some((world, path)), &vec![PLACE]);
    assert_eq!(app.windows[0].viewport, Some(PLACE));
    assert_eq!(app.windows[1], SlotUi::default());
    let now = SlotViewport { maximized: Some(true), ..PLACE };
    assert_eq!(app.kept_viewports(&vec![now, now]), [PLACE, now]);
    assert!(WindowsApp::new(None, &vec![PLACE, PLACE]).windows.is_empty());
}

#[test]
fn windows_follow_their_slots() {
    let mut source = IdSource::new();
    let world = plain_world(&mut source, &["b", "c", "a"]);
    let mut app = WindowsApp::new(Some((world, OsPath::Text(text("/p")))), &Vec::new());
    let mut pass = RowPass::new();
    let view = RowClicks { view: true, ..NO_CLICKS };
    assert_eq!(app.slot_name_ui(&mut pass, 0, view), (false, false));
    assert!(app.windows[0].open);
    assert_eq!(app.slot_name_ui(&mut pass, 0, view), (false, true));
    app.sort_slots(&mut pass);
    assert_eq!(plain_names(&app.world), ["a", "b", "c"]);
    assert!(!app.windows[0].open && app.windows[1].open && !app.windows[2].open);
    app.slot_name_ui(&mut pass, 1, RowClicks { up: true, ..NO_CLICKS });
    app.end_rows(pass);
    assert_eq!(plain_names(&app.world), ["b", "a", "c"]);
    assert!(app.windows[0].open && !app.windows[1].open);
    let mut pass = RowPass::new();
    app.add_slot(&mut pass, &mut source);
    assert_eq!(app.windows.len(), 4);
    assert_eq!(app.slot_name_ui(&mut pass, 3, NO_CLICKS), (true, false));
    app.slot_name_ui(&mut pass, 0, RowClicks { delete: true, ..NO_CLICKS });
    app.end_rows(pass);
    assert_eq!(plain_names(&app.world), ["a", "c", ""]);
    assert!(app.windows.iter().all(|window| !window.open));
    assert!(app.world_dirty);
    assert_eq!(app.title(), "Plain - archiinventory");
}

#[test]
fn files_of_worlds_with_windows() {
    let mut app = WindowsApp::new(None, &Vec::new());
    assert!(!app.asks_before_close(true));
    app.modified_world();
    assert!(app.asks_before_close(true));
    assert!(!app.asks_before_close(false));
    assert!(!app.can_save());
    app.set_path(OsPath::Text(text("/p")));
    assert!(app.can_save());
    app.saved(true);
    assert!(!app.can_save());
    let mut source = IdSource::new();
    app.load(None, plain_world(&mut source, &["A"]), false);
    assert_eq!(app.windows, [SlotUi::default()]);
    assert!(app.save("tag").is_none());
    app.modified_world();
    app.load(None, World::default(), false);
    assert_eq!(app.windows.len(), 1);
    app.load(None, World::default(), true);
    assert!(app.windows.is_empty());
}

#[test]
fn titles_of_slot_windows() {
    assert_eq!(slot_window_title("Me", "Plain"), "Me (Plain) - archiinventory");
}
