use archiinventory::client::{
    client_status_text, intern_items, poll_step, ClientAction, ClientJob, ClientMain,
    ClientReply, ClientSignal, PollStep, RawItem,
};
use archiinventory::conn::{
    ends_pipe, line_event, worker_for, ConnDisplay, ConnEvent, ConnState, Connection,
    EventOutcome, StopAction, Worker,
};
use archiinventory::data::{WorldConnType, WorldFile, WorldFileSlot};
use archiinventory::istr::StringCache;
use archiinventory::sync::{
    Connection as SyncConnection, SlotRequest, SyncAction, SyncJob, SyncMessage, SyncPhase,
    SyncReply, WorldRequest,
};
use archiinventory::world::InstanceLocalId;

fn text(s: &str) -> String {
    s.to_owned()
}

fn world(conn_type: WorldConnType) -> WorldFile {
    let slot = |name: &str, active: bool| WorldFileSlot {
        name: text(name),
        active,
        confirmed: 3,
        total_items: 5,
        inventory: Vec::new(),
    };
    WorldFile {
        name: text("World"),
        conn_type,
        address: text("host:1"),
        password: text("pw"),
        slots: vec![slot("A", true), slot("B", false), slot("C", true)],
    }
}

#[test]
fn copies_for_connections() {
    let world = world(WorldConnType::Client);
    let copy = world.clone_for_connection();
    assert_eq!(copy.name, "World");
    assert_eq!(copy.address, "host:1");
    assert_eq!(copy.password, "pw");
    assert_eq!(copy.conn_type, WorldConnType::Client);
    assert_eq!(copy.slots.len(), 3);
    assert_eq!(copy.slots[1].name, "B");
    assert!(!copy.slots[1].active);
    assert_eq!(copy.slots[0].confirmed, 0);
    assert_eq!(copy.slots[0].total_items, 0);
    assert_eq!(copy.active_slots(), world.active_slots());
    assert_eq!(copy.active_slots(), ["A", "C"]);
}

#[test]
fn active_slots_are_needed() {
    let mut world = world(WorldConnType::Room);
    assert!(world.has_active_slot());
    for slot in &mut world.slots {
        slot.active = false;
    }
    assert!(!world.has_active_slot());
    assert!(!WorldFile::default().has_active_slot());
}

#[test]
fn command_line_of_the_child() {
    match worker_for(&world(WorldConnType::Client)) {
        Worker::Client(args) => {
            assert_eq!(args, ["--client", "host:1", "pw", "A", "C"]);
            let mut line = vec![text("program")];
            line.extend(args);
            let client = ClientMain::from_args(line).unwrap();
            assert_eq!(client.address, "host:1");
            assert_eq!(client.password, "pw");
            assert_eq!(client.slots, ["A", "C"]);
        }
        Worker::Room => panic!("a thread was asked for"),
    }
    assert!(matches!(worker_for(&world(WorldConnType::Room)), Worker::Room));
}

#[test]
fn other_command_lines() {
    assert!(ClientMain::from_args(Vec::new()).is_none());
    assert!(ClientMain::from_args(vec![text("program")]).is_none());
    assert!(ClientMain::from_args(vec![text("program"), text("--help")]).is_none());
    let args = ["p", "--client", "a", "b"].map(text).to_vec();
    assert!(ClientMain::from_args(args).unwrap().slots.is_empty());
}

#[test]
fn signals_of_the_server() {
    assert!(matches!(poll_step(ClientSignal::Idle), PollStep::Ready));
    assert!(matches!(poll_step(ClientSignal::Connected), PollStep::Again));
    assert!(matches!(poll_step(ClientSignal::ReceivedItems(0)), PollStep::Ready));
    assert!(matches!(poll_step(ClientSignal::ReceivedItems(4)), PollStep::Again));
    assert!(matches!(poll_step(ClientSignal::Other), PollStep::Again));
    match poll_step(ClientSignal::Error(text("bad"))) {
        PollStep::Failed(why) => assert_eq!(why, "bad"),
        other => panic!("{other:?}"),
    }
}

fn raw(item_id: i64, name: &str) -> RawItem {
    RawItem {
        item_id,
        item_name: text(name),
        sender_id: 2,
        sender_name: text("Sender"),
        location_id: 9,
        location_name: text("Place"),
        location_game: text("Game"),
        type_flags: [false, true, false],
    }
}

#[test]
fn names_of_items_are_interned() {
    let mut cache = StringCache::new();
    let items = intern_items(&mut cache, &vec![raw(1, "Coin"), raw(1, "Coin"), raw(2, "Key")]);
    assert_eq!(items.len(), 3);
    assert_eq!(items[2].item_name.as_ref(), "Key");
    assert_eq!(items[2].location_game.as_ref(), "Game");
    assert_eq!(cache.len(), 5);
}

#[test]
fn announcements_of_slots() {
    assert_eq!(client_status_text(0, 12, "Me"), "1/12: Me");
}

#[test]
fn the_child_from_start_to_end() {
    let mut cache = StringCache::new();
    let mut job = ClientJob::new(vec![text("A"), text("B")]);
    match job.step(&mut cache, ClientReply::Begin) {
        ClientAction::Emit(ConnEvent::Status(status)) => assert_eq!(status, "1/2: A"),
        other => panic!("{other:?}"),
    }
    match job.step(&mut cache, ClientReply::Sent(Ok(()))) {
        ClientAction::Connect(slot) => assert_eq!(slot, "A"),
        other => panic!("{other:?}"),
    }
    let action = job.step(&mut cache, ClientReply::Connected(Ok(())));
    assert!(matches!(action, ClientAction::Poll));
    let action = job.step(&mut cache, ClientReply::Signal(ClientSignal::Connected));
    assert!(matches!(action, ClientAction::Poll));
    let action = job.step(&mut cache, ClientReply::Signal(ClientSignal::ReceivedItems(0)));
    assert!(matches!(action, ClientAction::ReadItems));
    let items = vec![raw(1, "Coin"), raw(2, "Key"), raw(1, "Coin")];
    match job.step(&mut cache, ClientReply::Items(items)) {
        ClientAction::Emit(ConnEvent::SlotData(slot, total, groups)) => {
            assert_eq!((slot.as_str(), total, groups.len()), ("A", 3, 2));
        }
        other => panic!("{other:?}"),
    }
    let action = job.step(&mut cache, ClientReply::Sent(Ok(())));
    assert!(matches!(action, ClientAction::Disconnect));
    match job.step(&mut cache, ClientReply::Disconnected) {
        ClientAction::Emit(ConnEvent::Status(status)) => assert_eq!(status, "2/2: B"),
        other => panic!("{other:?}"),
    }
    job.step(&mut cache, ClientReply::Sent(Ok(())));
    job.step(&mut cache, ClientReply::Connected(Ok(())));
    job.step(&mut cache, ClientReply::Signal(ClientSignal::Idle));
    job.step(&mut cache, ClientReply::Items(Vec::new()));
    job.step(&mut cache, ClientReply::Sent(Ok(())));
    let action = job.step(&mut cache, ClientReply::Disconnected);
    assert!(matches!(action, ClientAction::Emit(ConnEvent::Done(None))));
    let action = job.step(&mut cache, ClientReply::Sent(Ok(())));
    assert!(matches!(action, ClientAction::Exit));
}

#[test]
fn the_child_fails() {
    let mut cache = StringCache::new();
    let fails = |action: ClientAction| match action {
        ClientAction::Fail(why) => why,
        other => panic!("{other:?}"),
    };
    let mut job = ClientJob::new(vec![text("A")]);
    job.step(&mut cache, ClientReply::Begin);
    let action = job.step(&mut cache, ClientReply::Sent(Err(text("pipe"))));
    assert_eq!(fails(action), "pipe");
    let mut job = ClientJob::new(vec![text("A")]);
    job.step(&mut cache, ClientReply::Begin);
    job.step(&mut cache, ClientReply::Sent(Ok(())));
    let action = job.step(&mut cache, ClientReply::Connected(Err(text("refused"))));
    assert_eq!(fails(action), "refused");
    let mut job = ClientJob::new(vec![text("A")]);
    job.step(&mut cache, ClientReply::Begin);
    job.step(&mut cache, ClientReply::Sent(Ok(())));
    job.step(&mut cache, ClientReply::Connected(Ok(())));
    let signal = ClientSignal::Error(text("lost"));
    assert_eq!(fails(job.step(&mut cache, ClientReply::Signal(signal))), "lost");
}

#[test]
fn the_life_of_a_connection() {
    let mut conn = Connection::new(WorldConnType::Room, Ok(()));
    assert!(conn.active());
    assert_eq!(conn.stop_action(), StopAction::RaiseSignal);
    match conn.display() {
        ConnDisplay::Status(status) => assert_eq!(status, "Starting connection\u{2026}"),
        other => panic!("{other:?}"),
    }
    assert!(matches!(conn.on_event(ConnEvent::Status(text("x"))), EventOutcome::Continue));
    assert!(matches!(conn.display(), ConnDisplay::Status(status) if status == "x"));
    match conn.on_event(ConnEvent::SlotData(text("A"), 2, Vec::new())) {
        EventOutcome::Deliver(name, total, groups) => {
            assert_eq!((name.as_str(), total, groups.len()), ("A", 2, 0));
        }
        other => panic!("{other:?}"),
    }
    let outcome = conn.on_event(ConnEvent::Done(Some(text("host:2"))));
    assert!(matches!(outcome, EventOutcome::Finished));
    assert!(!conn.active());
    assert_eq!(conn.stop_action(), StopAction::Nothing);
    assert!(matches!(conn.display(), ConnDisplay::DoneAddress(a) if a == "host:2"));
}

#[test]
fn connections_of_child_processes() {
    let mut conn = Connection::new(WorldConnType::Client, Ok(()));
    assert!(matches!(conn.state, ConnState::Client { .. }));
    assert_eq!(conn.stop_action(), StopAction::KillChild);
    conn.on_event(ConnEvent::Status(text("1/1: A")));
    assert!(matches!(conn.state, ConnState::Client { .. }));
    conn.on_event(ConnEvent::Done(None));
    assert!(matches!(conn.display(), ConnDisplay::Done));
}

#[test]
fn connections_that_fail() {
    let conn = Connection::new(WorldConnType::Client, Err(text("no program")));
    assert!(!conn.active());
    assert!(matches!(conn.display(), ConnDisplay::Error(why) if why == "no program"));
    let mut conn = Connection::new(WorldConnType::Room, Ok(()));
    conn.on_event(ConnEvent::Error(text("no room")));
    assert!(matches!(conn.display(), ConnDisplay::Error(why) if why == "no room"));
    let mut conn = Connection::new(WorldConnType::Room, Ok(()));
    conn.on_panic(Some(text("boom")));
    assert!(matches!(conn.display(), ConnDisplay::Error(why) if why == "boom"));
    let mut conn = Connection::new(WorldConnType::Room, Ok(()));
    conn.on_panic(None);
    match conn.display() {
        ConnDisplay::Error(why) => assert_eq!(why, "thread panic with non-string message"),
        other => panic!("{other:?}"),
    }
}

#[test]
fn errors_and_ends_are_final() {
    let mut conn = Connection::new(WorldConnType::Room, Ok(()));
    conn.on_event(ConnEvent::Error(text("first")));
    for event in [
        ConnEvent::Status(text("x")),
        ConnEvent::Error(text("second")),
        ConnEvent::Done(None),
        ConnEvent::SlotData(text("A"), 1, Vec::new()),
    ] {
        assert!(matches!(conn.on_event(event), EventOutcome::Finished));
        assert!(matches!(conn.display(), ConnDisplay::Error(why) if why == "first"));
    }
    let mut conn = Connection::new(WorldConnType::Client, Ok(()));
    conn.on_event(ConnEvent::Done(None));
    conn.on_event(ConnEvent::Error(text("late")));
    conn.on_panic(None);
    assert!(matches!(conn.display(), ConnDisplay::Done));
}

#[test]
fn lines_of_the_child() {
    let event = line_event(Ok(ConnEvent::Done(None)));
    assert!(matches!(event, ConnEvent::Done(None)));
    assert!(!ends_pipe(&event));
    let event = line_event(Err(text("broken")));
    assert!(ends_pipe(&event));
    assert!(matches!(event, ConnEvent::Error(why) if why == "broken"));
}

fn request(banished: Option<Vec<String>>) -> WorldRequest {
    let slot = |name: &str, id: u32| SlotRequest {
        name: text(name),
        id: InstanceLocalId(id),
        confirmed: id as usize + 1,
    };
    WorldRequest {
        address: text("host:1"),
        password: text(""),
        slots: vec![slot("A", 4), slot("B", 8)],
        banished_games: banished,
    }
}

#[test]
fn the_task_from_start_to_end() {
    let mut job = SyncJob::new(request(Some(vec![text("Bad"), text("Worse")])), 99);
    match job.step(SyncReply::Begin) {
        SyncAction::Status(status) => assert_eq!(status, "Slot 1/2: A"),
        other => panic!("{other:?}"),
    }
    assert!(matches!(job.step(SyncReply::Finished), SyncAction::Connect(0)));
    match job.step(SyncReply::Connected(Ok(()))) {
        SyncAction::Banish(game) => assert_eq!(game, "Bad"),
        other => panic!("{other:?}"),
    }
    match job.step(SyncReply::Finished) {
        SyncAction::Banish(game) => assert_eq!(game, "Worse"),
        other => panic!("{other:?}"),
    }
    assert!(matches!(job.step(SyncReply::Finished), SyncAction::Poll));
    let action = job.step(SyncReply::Signal(ClientSignal::Other));
    assert!(matches!(action, SyncAction::Poll));
    let action = job.step(SyncReply::Signal(ClientSignal::ReceivedItems(0)));
    assert!(matches!(action, SyncAction::ReadItems));
    let items = vec![raw(1, "Coin"), raw(2, "Key")];
    let action = job.step(SyncReply::Items(text("My Game"), items));
    assert!(matches!(action, SyncAction::Disconnect));
    match job.step(SyncReply::Finished) {
        SyncAction::Status(status) => assert_eq!(status, "Slot 2/2: B"),
        other => panic!("{other:?}"),
    }
    job.step(SyncReply::Finished);
    job.step(SyncReply::Connected(Ok(())));
    job.step(SyncReply::Finished);
    job.step(SyncReply::Finished);
    job.step(SyncReply::Signal(ClientSignal::Idle));
    job.step(SyncReply::Items(text("Their Game"), Vec::new()));
    assert!(matches!(job.step(SyncReply::Finished), SyncAction::Done));
    assert_eq!(job.result.len(), 2);
    let first = &job.result[0];
    assert_eq!((first.name.as_str(), first.game.as_str()), ("A", "My Game"));
    assert_eq!((first.id, first.confirmed), (InstanceLocalId(4), 5));
    assert!(!first.ui_data_stale);
    assert_eq!(first.inventory.len(), 2);
    assert_eq!(first.inventory[0].item.item_name, "Coin");
    assert_eq!(first.inventory[1].item.item_name, "Key");
    assert!(first.inventory.iter().all(|item| item.time == 99));
    assert_eq!(job.result[1].name, "B");
    assert!(job.result[1].inventory.is_empty());
}

#[test]
fn the_task_without_banished_games() {
    let mut job = SyncJob::new(request(None), 0);
    job.step(SyncReply::Begin);
    job.step(SyncReply::Finished);
    assert!(matches!(job.step(SyncReply::Connected(Ok(()))), SyncAction::Poll));
}

#[test]
fn the_task_fails() {
    let mut job = SyncJob::new(request(None), 0);
    job.step(SyncReply::Begin);
    job.step(SyncReply::Finished);
    match job.step(SyncReply::Connected(Err(text("refused")))) {
        SyncAction::Fail(why) => assert_eq!(why, "refused"),
        other => panic!("{other:?}"),
    }
    assert_eq!(job.phase, SyncPhase::Ended);
    let mut job = SyncJob::new(request(None), 0);
    job.step(SyncReply::Begin);
    job.step(SyncReply::Finished);
    job.step(SyncReply::Connected(Ok(())));
    match job.step(SyncReply::Signal(ClientSignal::Error(text("lost")))) {
        SyncAction::Fail(why) => assert_eq!(why, "lost"),
        other => panic!("{other:?}"),
    }
}

#[test]
fn messages_of_the_task() {
    let mut conn = SyncConnection::new();
    assert!(conn.is_running());
    assert_eq!(conn.status, (false, text("Starting up\u{2026}")));
    let (again, slots) = conn.ui_update(SyncMessage::Status(text("Slot 1/1: A")));
    assert!(again && slots.is_none());
    assert_eq!(conn.status, (false, text("Slot 1/1: A")));
    let (again, slots) = conn.ui_update(SyncMessage::Empty);
    assert!(!again && slots.is_none());
    assert!(conn.is_running());
    let (again, slots) = conn.ui_update(SyncMessage::Done(Ok(Vec::new())));
    assert!(again && slots.unwrap().is_empty());
    assert_eq!(conn.status, (false, text("Done!")));
    assert!(!conn.is_running());
    let (again, _) = conn.ui_update(SyncMessage::Closed);
    assert!(!again);
    assert_eq!(conn.status, (false, text("Done!")));
}

#[test]
fn tasks_that_end_badly() {
    let mut conn = SyncConnection::new();
    let (again, slots) = conn.ui_update(SyncMessage::Closed);
    assert!(!again && slots.is_none());
    assert_eq!(conn.status, (true, text("Task channel closed!")));
    let (again, slots) = conn.ui_update(SyncMessage::Done(Err(text("lost"))));
    assert!(again && slots.is_none());
    assert_eq!(conn.status, (true, text("lost")));
    assert!(!conn.is_running());
}

#[test]
fn tasks_that_are_cancelled() {
    let mut conn = SyncConnection::new();
    conn.cancel(false);
    assert_eq!(conn.status, (true, text("Cancelled")));
    assert!(!conn.is_running());
    let mut conn = SyncConnection::new();
    conn.cancel(true);
    assert_eq!(conn.status, (false, text("Starting up\u{2026}")));
    assert!(!conn.is_running());
    conn.cancel(false);
    assert_eq!(conn.status, (false, text("Starting up\u{2026}")));
}
