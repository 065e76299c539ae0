//! A connection to a world as its user sees it: what its worker reports, and
//! what is shown of it.

use vstd::prelude::*;

use crate::data::{active_names, texts, SlotItemGroup, WorldConnType, WorldFile};

verus! {

broadcast use vstd::string::group_string_axioms;

/// What a worker reports.
#[derive(Debug)]
pub enum ConnEvent {
    Error(String),
    Done(Option<String>),
    Status(String),
    /// A slot's name, how many items it has received, and their groups.
    SlotData(String, usize, Vec<SlotItemGroup>),
}

/// The state of a connection.
#[derive(Debug)]
pub enum ConnState {
    Error(String),
    /// Finished, with the address for game clients where it is known.
    Done(Option<String>),
    /// A child process is at work.
    Client { status: String },
    /// A thread is at work.
    Room { status: String },
}

/// A connection.
#[derive(Debug)]
pub struct Connection {
    pub state: ConnState,
}

/// What has to be started for a connection.
#[derive(Debug)]
pub enum Worker {
    /// The program itself, with these arguments.
    Client(Vec<String>),
    /// A thread that asks the web host.
    Room,
}

/// The arguments of the child process for a world.
pub open spec fn client_arguments(world: WorldFile) -> Seq<Seq<char>> {
    seq!["--client"@, world.address@, world.password@] + active_names(world.slots@)
}

/// What has to be started for a world.
pub fn worker_for(world: &WorldFile) -> (r: Worker)
    ensures
        match world.conn_type {
            WorldConnType::Client => r is Client && texts(r->Client_0@) == client_arguments(*world),
            WorldConnType::Room => r is Room,
        },
{
    match world.conn_type {
        WorldConnType::Client => {
            let mut args: Vec<String> = Vec::new();
            args.push("--client".to_owned());
            args.push(world.address.clone());
            args.push(world.password.clone());
            let mut names = world.active_slots();
            let ghost head = args@;
            let ghost tail = names@;
            args.append(&mut names);
            assert(args@ =~= head + tail);
            assert(texts(args@) =~= seq!["--client"@, world.address@, world.password@] + texts(
                tail,
            ));
            Worker::Client(args)
        },
        WorldConnType::Room => Worker::Room,
    }
}

/// The status before a worker has reported anything.
pub open spec fn starting_status() -> Seq<char> {
    "Starting connection\u{2026}"@
}

/// What is shown of a connection.
#[derive(Debug)]
pub enum ConnDisplay {
    Error(String),
    Done,
    /// Finished; the address can be copied.
    DoneAddress(String),
    Status(String),
}

/// What stops the worker of a connection that is dropped.
#[derive(Debug, Clone, Copy, PartialEq, Eq, Structural)]
pub enum StopAction {
    Nothing,
    KillChild,
    RaiseSignal,
}

/// What a report of a worker leads to.
#[derive(Debug)]
pub enum EventOutcome {
    /// There may be further reports.
    Continue,
    /// Items have arrived for a slot; there may be further reports.
    Deliver(String, usize, Vec<SlotItemGroup>),
    /// The connection is finished; further reports are ignored.
    Finished,
}

/// Whether a state has a worker.
pub open spec fn state_active(state: ConnState) -> bool {
    state is Client || state is Room
}

/// A state with another status.
pub open spec fn with_status(state: ConnState, status: String) -> ConnState {
    match state {
        ConnState::Client { .. } => ConnState::Client { status },
        ConnState::Room { .. } => ConnState::Room { status },
        _ => state,
    }
}

/// The state after a report of the worker. An error and the end are final.
pub open spec fn state_after(state: ConnState, event: ConnEvent) -> ConnState {
    if !state_active(state) {
        state
    } else {
        match event {
            ConnEvent::Error(text) => ConnState::Error(text),
            ConnEvent::Done(address) => ConnState::Done(address),
            ConnEvent::Status(text) => with_status(state, text),
            ConnEvent::SlotData(_, _, _) => state,
        }
    }
}

/// What a report of the worker leads to.
pub open spec fn outcome_of(state: ConnState, event: ConnEvent) -> EventOutcome {
    if !state_active(state) {
        EventOutcome::Finished
    } else {
        match event {
            ConnEvent::Error(_) | ConnEvent::Done(_) => EventOutcome::Finished,
            ConnEvent::Status(_) => EventOutcome::Continue,
            ConnEvent::SlotData(name, total_items, inventory) => EventOutcome::Deliver(
                name,
                total_items,
                inventory,
            ),
        }
    }
}

/// The state after several reports.
pub open spec fn state_after_all(state: ConnState, events: Seq<ConnEvent>) -> ConnState
    decreases events.len(),
{
    if events.len() == 0 {
        state
    } else {
        state_after(state_after_all(state, events.drop_last()), events.last())
    }
}

/// An error and the end are final: whatever is reported after them, the state
/// stays what it is, and nothing is delivered.
pub proof fn law_final_states_stay(state: ConnState, events: Seq<ConnEvent>, event: ConnEvent)
    requires
        !state_active(state),
    ensures
        state_after_all(state, events) == state,
        outcome_of(state_after_all(state, events), event) is Finished,
    decreases events.len(),
{
    if events.len() > 0 {
        law_final_states_stay(state, events.drop_last(), event);
    }
}

/// The first error or end that is reported decides: the state is that error or
/// end after all that follows it.
pub proof fn law_first_end_decides(state: ConnState, end: ConnEvent, later: Seq<ConnEvent>)
    requires
        state_active(state),
        end is Error || end is Done,
    ensures
        state_after_all(state_after(state, end), later) == match end {
            ConnEvent::Error(text) => ConnState::Error(text),
            ConnEvent::Done(address) => ConnState::Done(address),
            _ => state,
        },
{
    law_final_states_stay(state_after(state, end), later, end);
}

impl Connection {
    /// The connection of a world after its worker was started, or could not be.
    pub fn new(conn_type: WorldConnType, started: Result<(), String>) -> (r: Self)
        ensures
            match started {
                Err(text) => r.state == ConnState::Error(text),
                Ok(_) => match conn_type {
                    WorldConnType::Client => r.state is Client && r.state->Client_status@
                        == starting_status(),
                    WorldConnType::Room => r.state is Room && r.state->Room_status@
                        == starting_status(),
                },
            },
    {
        match started {
            Err(text) => Connection { state: ConnState::Error(text) },
            Ok(_) => {
                let status = "Starting connection\u{2026}".to_owned();
                match conn_type {
                    WorldConnType::Client => Connection { state: ConnState::Client { status } },
                    WorldConnType::Room => Connection { state: ConnState::Room { status } },
                }
            },
        }
    }

    /// Whether a worker is at work.
    pub fn active(&self) -> (r: bool)
        ensures
            r == state_active(self.state),
    {
        match self.state {
            ConnState::Client { .. } | ConnState::Room { .. } => true,
            _ => false,
        }
    }

    /// Takes over a report of the worker. Where there is no worker any more,
    /// nothing changes.
    pub fn on_event(&mut self, event: ConnEvent) -> (r: EventOutcome)
        ensures
            final(self).state == state_after(old(self).state, event),
            r == outcome_of(old(self).state, event),
            state_active(final(self).state) == !(r is Finished),
    {
        if !self.active() {
            return EventOutcome::Finished;
        }
        match event {
            ConnEvent::Error(text) => {
                self.state = ConnState::Error(text);
                EventOutcome::Finished
            },
            ConnEvent::Done(address) => {
                self.state = ConnState::Done(address);
                EventOutcome::Finished
            },
            ConnEvent::Status(text) => {
                let client = match self.state {
                    ConnState::Client { .. } => true,
                    _ => false,
                };
                self.state = if client {
                    ConnState::Client { status: text }
                } else {
                    ConnState::Room { status: text }
                };
                EventOutcome::Continue
            },
            ConnEvent::SlotData(name, total_items, inventory) => EventOutcome::Deliver(
                name,
                total_items,
                inventory,
            ),
        }
    }

    /// Takes over that the worker's thread has panicked, with the message of
    /// the panic where it was a text. Where there is no worker any more,
    /// nothing changes.
    pub fn on_panic(&mut self, message: Option<String>)
        ensures
            if state_active(old(self).state) {
                &&& final(self).state is Error
                &&& final(self).state->Error_0@ == match message {
                    Some(text) => text@,
                    None => "thread panic with non-string message"@,
                }
            } else {
                final(self).state == old(self).state
            },
    {
        if !self.active() {
            return ;
        }
        let text = match message {
            Some(text) => text,
            None => "thread panic with non-string message".to_owned(),
        };
        self.state = ConnState::Error(text);
    }

    /// What is shown of the connection.
    pub fn display(&self) -> (r: ConnDisplay)
        ensures
            match self.state {
                ConnState::Error(text) => r is Error && r->Error_0@ == text@,
                ConnState::Done(None) => r is Done,
                ConnState::Done(Some(address)) => r is DoneAddress && r->DoneAddress_0@
                    == address@,
                ConnState::Client { status } => r is Status && r->Status_0@ == status@,
                ConnState::Room { status } => r is Status && r->Status_0@ == status@,
            },
    {
        match &self.state {
            ConnState::Error(text) => ConnDisplay::Error(text.clone()),
            ConnState::Done(None) => ConnDisplay::Done,
            ConnState::Done(Some(address)) => ConnDisplay::DoneAddress(address.clone()),
            ConnState::Client { status } => ConnDisplay::Status(status.clone()),
            ConnState::Room { status } => ConnDisplay::Status(status.clone()),
        }
    }

    /// What stops the worker when the connection is dropped.
    pub fn stop_action(&self) -> (r: StopAction)
        ensures
            r == match self.state {
                ConnState::Client { .. } => StopAction::KillChild,
                ConnState::Room { .. } => StopAction::RaiseSignal,
                _ => StopAction::Nothing,
            },
            (r == StopAction::Nothing) == !state_active(self.state),
    {
        match self.state {
            ConnState::Client { .. } => StopAction::KillChild,
            ConnState::Room { .. } => StopAction::RaiseSignal,
            _ => StopAction::Nothing,
        }
    }
}

/// The report that a line of the child process stands for: what it says, or an
/// error where it cannot be read or understood.
pub fn line_event(line: Result<ConnEvent, String>) -> (r: ConnEvent)
    ensures
        r == match line {
            Ok(event) => event,
            Err(text) => ConnEvent::Error(text),
        },
{
    match line {
        Ok(event) => event,
        Err(text) => ConnEvent::Error(text),
    }
}

/// Whether a report is the last that is passed on.
pub fn ends_pipe(event: &ConnEvent) -> (r: bool)
    ensures
        r == (*event is Error),
{
    match event {
        ConnEvent::Error(_) => true,
        _ => false,
    }
}

/// What a report does to a connection with a worker: an error or the end is its
/// state from then on, with the report's own words; a status replaces the last one
/// and leaves the kind of worker; items are passed on as they are, and the state
/// stays. Without a worker there is nothing to do.
pub proof fn law_what_a_report_does(conn: &mut Connection, event: ConnEvent, r: EventOutcome)
    requires
        call_ensures(Connection::on_event, (conn, event), r),
    ensures
        !(old(conn).state is Client || old(conn).state is Room) ==> r is Finished && final(conn).state
            == old(conn).state,
        old(conn).state is Client || old(conn).state is Room ==> match event {
            ConnEvent::Error(text) => r is Finished && final(conn).state == ConnState::Error(text),
            ConnEvent::Done(address) => r is Finished && final(conn).state == ConnState::Done(
                address,
            ),
            ConnEvent::Status(text) => r is Continue && (old(conn).state is Client ==> final(conn).state == ConnState::Client { status: text }) && (old(conn).state is Room ==> final(conn).state == ConnState::Room { status: text }),
            ConnEvent::SlotData(name, total, groups) => final(conn).state == old(conn).state && r
                == EventOutcome::Deliver(name, total, groups),
        },
{
}

/// A panic of a worker is an error with the panic's words; without a worker there
/// is nothing to do.
pub proof fn law_what_a_panic_does(conn: &mut Connection, message: Option<String>)
    requires
        call_ensures(Connection::on_panic, (conn, message), ()),
    ensures
        !(old(conn).state is Client || old(conn).state is Room) ==> final(conn).state == old(conn).state,
        old(conn).state is Client || old(conn).state is Room ==> {
            &&& final(conn).state is Error
            &&& message is Some ==> final(conn).state->Error_0@ == message->Some_0@
            &&& message is None ==> final(conn).state->Error_0@
                == "thread panic with non-string message"@
        },
{
}

/// A worker is started by the kind of the world: the program itself, told the
/// address, the password and the active slots in their order, or a thread.
pub proof fn law_worker_by_the_worlds_kind(world: &WorldFile, r: Worker, names: Vec<String>)
    requires
        call_ensures(worker_for, (world,), r),
        call_ensures(WorldFile::active_slots, (world,), names),
    ensures
        world.conn_type is Room == r is Room,
        r is Client ==> {
            let args = r->Client_0@;
            &&& args.len() == names@.len() + 3
            &&& args[0]@ == "--client"@
            &&& args[1]@ == world.address@
            &&& args[2]@ == world.password@
            &&& forall|i: int| 0 <= i < names@.len() ==> args[i + 3]@ == (#[trigger] names@[i])@
        },
{
    if r is Client {
        let args = r->Client_0@;
        let all = texts(args);
        let own = texts(names@);
        assert(all == seq!["--client"@, world.address@, world.password@] + own);
        assert(all.len() == args.len());
        assert(own.len() == names@.len());
        assert(all[0] == args[0]@);
        assert(all[1] == args[1]@);
        assert(all[2] == args[2]@);
        assert forall|i: int| 0 <= i < names@.len() implies args[i + 3]@ == (
        #[trigger] names@[i])@ by {
            assert(all[i + 3] == own[i]);
            assert(own[i] == names@[i]@);
        }
    }
}

/// A connection begins with its worker at work, or with the reason why there is
/// none; what is shown and what stops it follows from its state.
pub proof fn law_connection_begins(
    conn_type: WorldConnType,
    started: Result<(), String>,
    conn: Connection,
    active: bool,
    stop: StopAction,
    shown: ConnDisplay,
)
    requires
        call_ensures(Connection::new, (conn_type, started), conn),
        call_ensures(Connection::active, (&conn,), active),
        call_ensures(Connection::stop_action, (&conn,), stop),
        call_ensures(Connection::display, (&conn,), shown),
    ensures
        active == started is Ok,
        started is Err ==> stop is Nothing && shown is Error && shown->Error_0@ == started->Err_0@,
        started is Ok ==> shown is Status && shown->Status_0@ == "Starting connection\u{2026}"@,
        started is Ok && conn_type is Client ==> stop is KillChild && conn.state is Client,
        started is Ok && conn_type is Room ==> stop is RaiseSignal && conn.state is Room,
{
}

/// What is shown of a connection is its last status, its error or its end, with
/// the address where there is one; and only what is at work has to be stopped.
pub proof fn law_what_is_shown(
    conn: &Connection,
    active: bool,
    stop: StopAction,
    shown: ConnDisplay,
)
    requires
        call_ensures(Connection::active, (conn,), active),
        call_ensures(Connection::stop_action, (conn,), stop),
        call_ensures(Connection::display, (conn,), shown),
    ensures
        active == (conn.state is Client || conn.state is Room),
        stop is KillChild == conn.state is Client,
        stop is RaiseSignal == conn.state is Room,
        shown is Status == active,
        conn.state is Client ==> shown->Status_0@ == conn.state->Client_status@,
        conn.state is Room ==> shown->Status_0@ == conn.state->Room_status@,
        conn.state is Error ==> shown is Error && shown->Error_0@ == conn.state->Error_0@,
        conn.state is Done && conn.state->Done_0 is None ==> shown is Done,
        conn.state is Done && conn.state->Done_0 is Some ==> shown is DoneAddress
            && shown->DoneAddress_0@ == conn.state->Done_0->Some_0@,
{
}

/// A line that cannot be read is an error, and nothing is passed on after an error.
pub proof fn law_lines_of_the_child(
    line: Result<ConnEvent, String>,
    event: ConnEvent,
    last: bool,
)
    requires
        call_ensures(line_event, (line,), event),
        call_ensures(ends_pipe, (&event,), last),
    ensures
        line is Ok ==> event == line->Ok_0,
        line is Err ==> event == ConnEvent::Error(line->Err_0) && last,
        last == event is Error,
{
}

} // verus!
