//! The child process that logs in as each slot in turn and reports what the
//! slot has received.

use vstd::prelude::*;
use vstd::string::StringExecFns;

use crate::conn::{client_arguments, ConnEvent};
use crate::data::{
    active_names, groups_view, lemma_texts_push, texts, SlotItemGroup, SlotItemInstance, WorldFile,
};
use crate::istr::{Istr, StringCache};
use crate::items::{
    group_items, instance_of, is_group, is_grouping, law_group_ids_distinct, law_item_in_one_group,
    lemma_group_order, lemma_group_view, received_view, ReceivedItem, ReceivedView,
};
use crate::text::{decimal, push_decimal, str_eq};

verus! {

broadcast use vstd::string::group_string_axioms;

/// What the child process was asked to do.
#[derive(Debug)]
pub struct ClientMain {
    pub address: String,
    pub password: String,
    pub slots: Vec<String>,
}

/// Whether a command line asks for the child process.
pub open spec fn asks_for_client(args: Seq<Seq<char>>) -> bool {
    args.len() >= 2 && args[1] == "--client"@
}

impl ClientMain {
    /// Reads a command line, whose first word is the name of the program. One
    /// that asks for the child process must name an address and a password.
    pub fn from_args(args: Vec<String>) -> (r: Option<Self>)
        requires
            asks_for_client(texts(args@)) ==> args@.len() >= 4,
        ensures
            r is Some == asks_for_client(texts(args@)),
            r matches Some(client) ==> {
                &&& client.address@ == args@[2]@
                &&& client.password@ == args@[3]@
                &&& texts(client.slots@) == texts(args@).skip(4)
            },
    {
        if args.len() < 2 || !str_eq(args[1].as_str(), "--client") {
            return None;
        }
        assert(texts(args@)[1] == args@[1]@);
        let mut slots: Vec<String> = Vec::new();
        let mut i: usize = 4;
        assert(texts(slots@) =~= texts(args@).subrange(4, 4));
        while i < args.len()
            invariant
                4 <= i <= args@.len(),
                texts(slots@) == texts(args@).subrange(4, i as int),
            decreases args@.len() - i,
        {
            let ghost prior = slots@;
            slots.push(args[i].clone());
            proof {
                lemma_texts_push(prior, slots@.last());
            }
            i += 1;
            assert(texts(slots@) =~= texts(args@).subrange(4, i as int));
        }
        assert(texts(args@).subrange(4, i as int) =~= texts(args@).skip(4));
        Some(ClientMain { address: args[2].clone(), password: args[3].clone(), slots })
    }
}

/// The child process is asked for exactly what the world says: its address, its
/// password and its active slots come back from the command line.
pub proof fn law_arguments_round_trip(world: WorldFile, program: Seq<char>, args: Seq<Seq<char>>)
    requires
        args == seq![program] + client_arguments(world),
    ensures
        asks_for_client(args),
        args.len() >= 4,
        args[2] == world.address@,
        args[3] == world.password@,
        args.skip(4) == active_names(world.slots@),
{
    assert(args.skip(4) =~= active_names(world.slots@));
}

/// An item as the game server describes it.
#[derive(Debug, Clone)]
pub struct RawItem {
    pub item_id: i64,
    pub item_name: String,
    pub sender_id: u32,
    pub sender_name: String,
    pub location_id: i64,
    pub location_name: String,
    pub location_game: String,
    /// Progression, useful, trap.
    pub type_flags: [bool; 3],
}

impl View for RawItem {
    type V = ReceivedView;

    open spec fn view(&self) -> ReceivedView {
        ReceivedView {
            item_id: self.item_id as int,
            item_name: self.item_name@,
            sender_id: self.sender_id as int,
            sender_name: self.sender_name@,
            location_id: self.location_id as int,
            location_name: self.location_name@,
            location_game: self.location_game@,
            type_flags: self.type_flags@,
        }
    }
}

/// What is said of a list of items.
pub open spec fn raw_view(items: Seq<RawItem>) -> Seq<ReceivedView> {
    items.map_values(|i: RawItem| i@)
}

/// The cached texts after the names of items have been interned.
pub open spec fn with_names(cached: Set<Seq<char>>, items: Seq<ReceivedView>) -> Set<Seq<char>>
    decreases items.len(),
{
    if items.len() == 0 {
        cached
    } else {
        with_names(cached, items.drop_last()).insert(items.last().item_name).insert(
            items.last().sender_name,
        ).insert(items.last().location_name).insert(items.last().location_game)
    }
}

/// Interns the names of items.
pub fn intern_items(cache: &mut StringCache, items: &Vec<RawItem>) -> (r: Vec<ReceivedItem>)
    requires
        old(cache).wf(),
    ensures
        received_view(r@) == raw_view(items@),
        final(cache).wf(),
        final(cache)@ == with_names(old(cache)@, raw_view(items@)),
{
    let mut out: Vec<ReceivedItem> = Vec::new();
    let mut i: usize = 0;
    let ghost all = raw_view(items@);
    assert(received_view(out@) =~= all.take(0));
    while i < items.len()
        invariant
            all == raw_view(items@),
            i <= items@.len(),
            received_view(out@) == all.take(i as int),
            cache.wf(),
            cache@ == with_names(old(cache)@, all.take(i as int)),
        decreases items@.len() - i,
    {
        let item = &items[i];
        let ghost prior = out@;
        assert(all.take(i + 1).drop_last() =~= all.take(i as int));
        let item_name = Istr::new(cache, item.item_name.as_str());
        let sender_name = Istr::new(cache, item.sender_name.as_str());
        let location_name = Istr::new(cache, item.location_name.as_str());
        let location_game = Istr::new(cache, item.location_game.as_str());
        out.push(
            ReceivedItem {
                item_id: item.item_id,
                item_name,
                sender_id: item.sender_id,
                sender_name,
                location_id: item.location_id,
                location_name,
                location_game,
                type_flags: item.type_flags,
            },
        );
        i += 1;
        assert(received_view(out@) =~= all.take(i as int)) by {
            assert(forall|k: int| 0 <= k < prior.len() ==> received_view(prior)[k] == prior[k]@);
        }
    }
    assert(all.take(i as int) =~= all);
    out
}

/// What the connection to the game server has to say next.
#[derive(Debug)]
pub enum ClientSignal {
    /// Nothing for now.
    Idle,
    Connected,
    /// Items have arrived; the number is the position of the first.
    ReceivedItems(usize),
    Error(String),
    Other,
}

/// What is next after a signal.
#[derive(Debug)]
pub enum PollStep {
    /// Wait for another signal.
    Again,
    /// The items are there, or will never come: a server that has any sends
    /// all of them together with the login.
    Ready,
    Failed(String),
}

/// Whether a signal means that the items can be read.
pub open spec fn signal_ready(signal: ClientSignal) -> bool {
    match signal {
        ClientSignal::Idle => true,
        ClientSignal::ReceivedItems(first) => first == 0,
        _ => false,
    }
}

/// Decides what a signal means.
pub fn poll_step(signal: ClientSignal) -> (r: PollStep)
    ensures
        match signal {
            ClientSignal::Error(text) => r == PollStep::Failed(text),
            _ => r == if signal_ready(signal) {
                PollStep::Ready
            } else {
                PollStep::Again
            },
        },
{
    match signal {
        ClientSignal::Idle => PollStep::Ready,
        ClientSignal::ReceivedItems(first) => {
            if first == 0 {
                PollStep::Ready
            } else {
                PollStep::Again
            }
        },
        ClientSignal::Error(text) => PollStep::Failed(text),
        ClientSignal::Connected => PollStep::Again,
        ClientSignal::Other => PollStep::Again,
    }
}

/// Where the child process stands.
#[derive(Debug, Clone, Copy, PartialEq, Eq, Structural)]
pub enum ClientPhase {
    Ready,
    /// The slot has been announced.
    Announcing,
    Connecting,
    Polling,
    Reading,
    /// The slot's items have been reported.
    Reporting,
    Closing,
    /// The end has been reported.
    Finishing,
    Ended,
}

/// The work of the child process.
#[derive(Debug)]
pub struct ClientJob {
    pub slots: Vec<String>,
    /// The slot that is worked on.
    pub at: usize,
    pub phase: ClientPhase,
}

/// What the child process does next.
#[derive(Debug)]
pub enum ClientAction {
    /// Write an event for the parent process.
    Emit(ConnEvent),
    /// Log in as a slot.
    Connect(String),
    /// Ask the connection for its next signal.
    Poll,
    /// Read all items that the slot has received.
    ReadItems,
    /// Close the connection.
    Disconnect,
    /// Everything is done.
    Exit,
    /// Write an error event with this text, and exit.
    Fail(String),
}

/// What came of the last action.
#[derive(Debug)]
pub enum ClientReply {
    Begin,
    Sent(Result<(), String>),
    Connected(Result<(), String>),
    Signal(ClientSignal),
    Items(Vec<RawItem>),
    Disconnected,
}

impl ClientJob {
    /// Whether a slot is being worked on where one has to be.
    pub open spec fn wf(&self) -> bool {
        match self.phase {
            ClientPhase::Ready => self.at == 0,
            ClientPhase::Finishing | ClientPhase::Ended => true,
            _ => self.at < self.slots@.len(),
        }
    }

    /// Whether a reply is an answer to what was done last.
    pub open spec fn expects(&self, reply: ClientReply) -> bool {
        match self.phase {
            ClientPhase::Ready => reply is Begin,
            ClientPhase::Announcing => reply is Sent,
            ClientPhase::Connecting => reply is Connected,
            ClientPhase::Polling => reply is Signal,
            ClientPhase::Reading => reply is Items,
            ClientPhase::Reporting => reply is Sent,
            ClientPhase::Closing => reply is Disconnected,
            ClientPhase::Finishing => reply is Sent,
            ClientPhase::Ended => false,
        }
    }
}

/// The announcement of a slot.
pub open spec fn client_status(at: int, total: int, name: Seq<char>) -> Seq<char> {
    decimal((at + 1) as nat) + "/"@ + decimal(total as nat) + ": "@ + name
}

/// The announcement of a slot.
pub fn client_status_text(at: usize, total: usize, name: &str) -> (r: String)
    requires
        at < total,
    ensures
        r@ == client_status(at as int, total as int, name@),
{
    let mut out = String::new();
    push_decimal(&mut out, (at + 1) as u64);
    out.append("/");
    push_decimal(&mut out, total as u64);
    out.append(": ");
    out.append(name);
    assert(out@ =~= client_status(at as int, total as int, name@));
    out
}

/// Whether the job has turned to the slot at position `at`, or to the end where
/// there is none.
pub open spec fn turned_to(slots: Seq<String>, at: int, post: ClientJob, action: ClientAction) -> bool {
    if at < slots.len() {
        &&& post.phase == ClientPhase::Announcing
        &&& post.at == at
        &&& action is Emit
        &&& action->Emit_0 is Status
        &&& action->Emit_0->Status_0@ == client_status(at, slots.len() as int, slots[at]@)
    } else {
        &&& post.phase == ClientPhase::Finishing
        &&& action == ClientAction::Emit(ConnEvent::Done(None))
    }
}

/// Whether the job has moved to a phase with the same slot.
pub open spec fn moved(pre: ClientJob, post: ClientJob, phase: ClientPhase) -> bool {
    post.phase == phase && post.at == pre.at
}

/// Whether the job has failed.
pub open spec fn failed(post: ClientJob, action: ClientAction, text: String) -> bool {
    post.phase == ClientPhase::Ended && action == ClientAction::Fail(text)
}

/// Whether an event reports the items of a slot.
pub open spec fn reports(
    event: ConnEvent,
    name: Seq<char>,
    items: Seq<ReceivedView>,
) -> bool {
    &&& event is SlotData
    &&& event->SlotData_0@ == name
    &&& event->SlotData_1 == items.len()
    &&& is_grouping(groups_view(event->SlotData_2@), items)
}

/// What a step of the child process does.
pub open spec fn client_step(
    pre: ClientJob,
    reply: ClientReply,
    post: ClientJob,
    action: ClientAction,
) -> bool {
    &&& post.slots == pre.slots
    &&& match reply {
        ClientReply::Begin => turned_to(pre.slots@, 0, post, action),
        ClientReply::Sent(Err(text)) => failed(post, action, text),
        ClientReply::Sent(Ok(_)) => match pre.phase {
            ClientPhase::Announcing => moved(pre, post, ClientPhase::Connecting)
                && action is Connect && action->Connect_0@ == pre.slots@[pre.at as int]@,
            ClientPhase::Reporting => moved(pre, post, ClientPhase::Closing)
                && action is Disconnect,
            _ => post.phase == ClientPhase::Ended && action is Exit,
        },
        ClientReply::Connected(Err(text)) => failed(post, action, text),
        ClientReply::Connected(Ok(_)) => moved(pre, post, ClientPhase::Polling) && action is Poll,
        ClientReply::Signal(ClientSignal::Error(text)) => failed(post, action, text),
        ClientReply::Signal(signal) => if signal_ready(signal) {
            moved(pre, post, ClientPhase::Reading) && action is ReadItems
        } else {
            moved(pre, post, ClientPhase::Polling) && action is Poll
        },
        ClientReply::Items(items) => moved(pre, post, ClientPhase::Reporting) && action is Emit
            && reports(action->Emit_0, pre.slots@[pre.at as int]@, raw_view(items@)),
        ClientReply::Disconnected => turned_to(pre.slots@, pre.at + 1, post, action),
    }
}

impl ClientJob {
    /// The work that a command line asks for.
    pub fn new(slots: Vec<String>) -> (r: Self)
        ensures
            r.wf(),
            r.slots == slots,
            r.phase == ClientPhase::Ready,
    {
        ClientJob { slots, at: 0, phase: ClientPhase::Ready }
    }

    fn turn_to(&mut self, at: usize) -> (action: ClientAction)
        requires
            at <= old(self).slots@.len(),
        ensures
            final(self).wf(),
            final(self).slots == old(self).slots,
            turned_to(old(self).slots@, at as int, *final(self), action),
    {
        self.at = at;
        if at < self.slots.len() {
            self.phase = ClientPhase::Announcing;
            let text = client_status_text(at, self.slots.len(), self.slots[at].as_str());
            ClientAction::Emit(ConnEvent::Status(text))
        } else {
            self.phase = ClientPhase::Finishing;
            ClientAction::Emit(ConnEvent::Done(None))
        }
    }

    /// Takes over what came of the last action, and decides on the next one.
    pub fn step(&mut self, cache: &mut StringCache, reply: ClientReply) -> (action: ClientAction)
        requires
            old(self).wf(),
            old(self).expects(reply),
            old(cache).wf(),
        ensures
            final(self).wf(),
            final(cache).wf(),
            client_step(*old(self), reply, *final(self), action),
            final(cache)@ == match reply {
                ClientReply::Items(items) => with_names(old(cache)@, raw_view(items@)),
                _ => old(cache)@,
            },
    {
        match reply {
            ClientReply::Begin => self.turn_to(0),
            ClientReply::Sent(Err(text)) => {
                self.phase = ClientPhase::Ended;
                ClientAction::Fail(text)
            },
            ClientReply::Sent(Ok(_)) => match self.phase {
                ClientPhase::Announcing => {
                    self.phase = ClientPhase::Connecting;
                    ClientAction::Connect(self.slots[self.at].clone())
                },
                ClientPhase::Reporting => {
                    self.phase = ClientPhase::Closing;
                    ClientAction::Disconnect
                },
                _ => {
                    self.phase = ClientPhase::Ended;
                    ClientAction::Exit
                },
            },
            ClientReply::Connected(Err(text)) => {
                self.phase = ClientPhase::Ended;
                ClientAction::Fail(text)
            },
            ClientReply::Connected(Ok(_)) => {
                self.phase = ClientPhase::Polling;
                ClientAction::Poll
            },
            ClientReply::Signal(signal) => match poll_step(signal) {
                PollStep::Again => {
                    self.phase = ClientPhase::Polling;
                    ClientAction::Poll
                },
                PollStep::Ready => {
                    self.phase = ClientPhase::Reading;
                    ClientAction::ReadItems
                },
                PollStep::Failed(text) => {
                    self.phase = ClientPhase::Ended;
                    ClientAction::Fail(text)
                },
            },
            ClientReply::Items(items) => {
                let received = intern_items(cache, &items);
                let groups = group_items(&received);
                self.phase = ClientPhase::Reporting;
                ClientAction::Emit(
                    ConnEvent::SlotData(self.slots[self.at].clone(), items.len(), groups),
                )
            },
            ClientReply::Disconnected => {
                assert(self.at < self.slots.len());
                let next: usize = self.at + 1;
                self.turn_to(next)
            },
        }
    }
}

/// Where nothing fails, the slots are worked on one after the other in the
/// order of the command line: the slot that is announced after one has been
/// closed is the next, and the end is reported after the last.
pub proof fn law_slots_in_order(
    pre: ClientJob,
    post: ClientJob,
    action: ClientAction,
)
    requires
        pre.wf(),
        pre.phase == ClientPhase::Closing,
        client_step(pre, ClientReply::Disconnected, post, action),
    ensures
        pre.at + 1 < pre.slots@.len() ==> post.at == pre.at + 1 && post.phase
            == ClientPhase::Announcing,
        pre.at + 1 == pre.slots@.len() ==> action == ClientAction::Emit(ConnEvent::Done(None)),
{
}

/// Whether each job comes from the one before it by a step with a reply that it
/// expects, and the actions are those of the steps.
pub open spec fn client_run(
    jobs: Seq<ClientJob>,
    replies: Seq<ClientReply>,
    actions: Seq<ClientAction>,
) -> bool {
    &&& jobs.len() == actions.len() + 1
    &&& replies.len() == actions.len()
    &&& forall|i: int|
        0 <= i < actions.len() ==> {
            &&& jobs[i].wf()
            &&& jobs[i].expects(replies[i])
            &&& client_step(jobs[i], replies[i], jobs[i + 1], #[trigger] actions[i])
        }
}

/// Whether a step that starts from `job` reports what was read as the items of
/// slot `k`.
pub open spec fn reports_slot(
    job: ClientJob,
    reply: ClientReply,
    action: ClientAction,
    k: int,
) -> bool {
    &&& job.at == k
    &&& reply is Items
    &&& action is Emit
    &&& reports(action->Emit_0, job.slots@[k]@, raw_view(reply->Items_0@))
}

/// Whether one of the first `n` steps reports the items of slot `k`.
pub open spec fn reported(
    jobs: Seq<ClientJob>,
    replies: Seq<ClientReply>,
    actions: Seq<ClientAction>,
    k: int,
    n: int,
) -> bool {
    exists|i: int| 0 <= i < n && reports_slot(jobs[i], replies[i], #[trigger] actions[i], k)
}

/// How many slots have been reported.
pub open spec fn slots_done(job: ClientJob) -> int {
    match job.phase {
        ClientPhase::Ready => 0,
        ClientPhase::Reporting | ClientPhase::Closing => job.at + 1,
        ClientPhase::Finishing => job.slots@.len() as int,
        ClientPhase::Ended => 0,
        _ => job.at as int,
    }
}

/// After `n` steps of a run the slots are the same, and the slots that are done
/// have been reported.
proof fn lemma_run(
    jobs: Seq<ClientJob>,
    replies: Seq<ClientReply>,
    actions: Seq<ClientAction>,
    k: int,
    n: int,
)
    requires
        client_run(jobs, replies, actions),
        jobs[0].phase == ClientPhase::Ready,
        0 <= k < jobs[0].slots@.len(),
        0 <= n <= actions.len(),
    ensures
        jobs[n].slots == jobs[0].slots,
        k < slots_done(jobs[n]) ==> reported(jobs, replies, actions, k, n),
    decreases n,
{
    if n > 0 {
        lemma_run(jobs, replies, actions, k, n - 1);
        let pre = jobs[n - 1];
        let action = actions[n - 1];
        assert(client_step(pre, replies[n - 1], jobs[n], action));
        if k < slots_done(jobs[n]) {
            if k < slots_done(pre) {
                assert(reported(jobs, replies, actions, k, n - 1));
            } else {
                assert(reports_slot(pre, replies[n - 1], action, k));
            }
        }
    }
}

/// When the end is reported, every slot of the command line has been reported,
/// with the items that were read while it was worked on.
pub proof fn law_all_slots_reported(
    jobs: Seq<ClientJob>,
    replies: Seq<ClientReply>,
    actions: Seq<ClientAction>,
    k: int,
)
    requires
        client_run(jobs, replies, actions),
        jobs[0].phase == ClientPhase::Ready,
        0 <= k < jobs[0].slots@.len(),
        actions.len() > 0,
        actions.last() == ClientAction::Emit(ConnEvent::Done(None)),
    ensures
        exists|i: int|
            0 <= i < actions.len() && jobs[i].at == k && replies[i] is Items && (
            #[trigger] actions[i]) is Emit && reports(
                actions[i]->Emit_0,
                jobs[0].slots@[k]@,
                raw_view(replies[i]->Items_0@),
            ),
{
    let n = actions.len() as int;
    assert(client_step(jobs[n - 1], replies[n - 1], jobs[n], actions[n - 1]));
    lemma_run(jobs, replies, actions, k, n - 1);
    lemma_run(jobs, replies, actions, k, n);
    let i = choose|i: int|
        0 <= i < n && reports_slot(jobs[i], replies[i], #[trigger] actions[i], k);
    lemma_run(jobs, replies, actions, k, i);
}

/// While the events can be written, at most one of the end and an error is
/// reported, and nothing is reported after it: after an error there is no
/// further action, and after the end only that of leaving.
pub proof fn law_one_last_report(
    jobs: Seq<ClientJob>,
    replies: Seq<ClientReply>,
    actions: Seq<ClientAction>,
    i: int,
    j: int,
)
    requires
        client_run(jobs, replies, actions),
        forall|k: int|
            0 <= k < replies.len() ==> !(#[trigger] replies[k] matches ClientReply::Sent(Err(_))),
        0 <= i < j < actions.len(),
        actions[i] is Fail || (actions[i] is Emit && actions[i]->Emit_0 is Done),
    ensures
        actions[i] is Emit,
        j == i + 1,
        j == actions.len() - 1,
        actions[j] is Exit,
{
    assert(client_step(jobs[i], replies[i], jobs[i + 1], actions[i]));
    assert(client_step(jobs[i + 1], replies[i + 1], jobs[i + 2], actions[i + 1]));
    assert(!(replies[i + 1] matches ClientReply::Sent(Err(_))));
    if i + 2 < actions.len() {
        assert(client_step(jobs[i + 2], replies[i + 2], jobs[i + 3], actions[i + 2]));
    }
}

/// The words of a command line: the second asks for the child process, the third
/// and the fourth are the address and the password, and all others are slots.
pub proof fn law_words_of_the_command_line(args: Vec<String>, r: Option<ClientMain>)
    requires
        asks_for_client(texts(args@)) ==> args@.len() >= 4,
        call_ensures(ClientMain::from_args, (args,), r),
    ensures
        r is Some == (args@.len() >= 2 && args@[1]@ == "--client"@),
        r is Some ==> {
            let client = r->Some_0;
            &&& client.address@ == args@[2]@
            &&& client.password@ == args@[3]@
            &&& client.slots@.len() == args@.len() - 4
            &&& forall|i: int|
                0 <= i < client.slots@.len() ==> (#[trigger] client.slots@[i])@ == args@[i + 4]@
        },
{
    let all = texts(args@);
    assert(all.len() == args@.len());
    if args@.len() >= 2 {
        assert(all[1] == args@[1]@);
    }
    if r is Some {
        let own = texts(r->Some_0.slots@);
        assert(own == all.skip(4));
        assert(own.len() == r->Some_0.slots@.len());
        assert forall|i: int| 0 <= i < r->Some_0.slots@.len() implies (
        #[trigger] r->Some_0.slots@[i])@ == args@[i + 4]@ by {
            assert(own[i] == r->Some_0.slots@[i]@);
            assert(all.skip(4)[i] == all[i + 4]);
            assert(all[i + 4] == args@[i + 4]@);
        }
    }
}

/// To intern items keeps what they say, word by word and number by number, and
/// leaves the cache with their names beside what it held.
pub proof fn law_interned_items_say_the_same(
    cache: &mut StringCache,
    items: &Vec<RawItem>,
    r: Vec<ReceivedItem>,
    k: int,
)
    requires
        old(cache).wf(),
        call_ensures(intern_items, (cache, items), r),
        0 <= k < items@.len(),
    ensures
        r@.len() == items@.len(),
        r@[k].item_id == items@[k].item_id,
        r@[k].item_name@ == items@[k].item_name@,
        r@[k].sender_id == items@[k].sender_id,
        r@[k].sender_name@ == items@[k].sender_name@,
        r@[k].location_id == items@[k].location_id,
        r@[k].location_name@ == items@[k].location_name@,
        r@[k].location_game@ == items@[k].location_game@,
        r@[k].type_flags@ == items@[k].type_flags@,
        forall|text: Seq<char>| #[trigger] old(cache)@.contains(text) ==> final(cache)@.contains(text),
        final(cache)@.contains(items@[k].item_name@),
        final(cache)@.contains(items@[k].sender_name@),
        final(cache)@.contains(items@[k].location_name@),
        final(cache)@.contains(items@[k].location_game@),
{
    let a = received_view(r@);
    let b = raw_view(items@);
    assert(a.len() == r@.len());
    assert(b.len() == items@.len());
    assert(a[k] == r@[k]@);
    assert(b[k] == items@[k]@);
    lemma_with_names(old(cache)@, b, k);
}

proof fn lemma_with_names(cached: Set<Seq<char>>, items: Seq<ReceivedView>, k: int)
    ensures
        forall|text: Seq<char>| #[trigger]
            cached.contains(text) ==> with_names(cached, items).contains(text),
        0 <= k < items.len() ==> with_names(cached, items).contains(items[k].item_name)
            && with_names(cached, items).contains(items[k].sender_name) && with_names(
            cached,
            items,
        ).contains(items[k].location_name) && with_names(cached, items).contains(
            items[k].location_game,
        ),
    decreases items.len(),
{
    if items.len() > 0 {
        lemma_with_names(cached, items.drop_last(), k);
    }
}

/// Items can be read where nothing is left to hear, or where they have arrived from
/// the first on. An error ends the work, and everything else is passed over.
pub proof fn law_when_items_can_be_read(signal: ClientSignal, r: PollStep)
    requires
        call_ensures(poll_step, (signal,), r),
    ensures
        signal is Error ==> r == PollStep::Failed(signal->Error_0),
        signal is Idle ==> r is Ready,
        signal is ReceivedItems && signal->ReceivedItems_0 == 0 ==> r is Ready,
        signal is ReceivedItems && signal->ReceivedItems_0 != 0 ==> r is Again,
        signal is Connected || signal is Other ==> r is Again,
{
}

/// What each answer leads to. A slot is announced by its place and its name, logged
/// in by its name, read once its items are there, reported with all that was read,
/// and left; and whatever fails is reported in its own words.
pub proof fn law_what_the_child_does_next(
    job: &mut ClientJob,
    cache: &mut StringCache,
    reply: ClientReply,
    action: ClientAction,
)
    requires
        old(job).wf(),
        old(job).expects(reply),
        old(cache).wf(),
        call_ensures(ClientJob::step, (job, cache, reply), action),
    ensures
        final(job).slots == old(job).slots,
        match reply {
            ClientReply::Sent(Err(text)) | ClientReply::Connected(Err(text))
            | ClientReply::Signal(ClientSignal::Error(text)) => action == ClientAction::Fail(text)
                && final(job).phase is Ended,
            ClientReply::Sent(Ok(_)) => {
                &&& old(job).phase is Announcing ==> action is Connect && action->Connect_0@ == old(job).slots@[old(job).at as int]@ && final(job).at == old(job).at
                &&& old(job).phase is Reporting ==> action is Disconnect && final(job).at == old(job).at
                &&& old(job).phase is Finishing ==> action is Exit
            },
            ClientReply::Connected(Ok(_)) => action is Poll && final(job).at == old(job).at,
            ClientReply::Signal(ClientSignal::Idle) => action is ReadItems,
            ClientReply::Signal(ClientSignal::ReceivedItems(first)) => if first == 0 {
                action is ReadItems
            } else {
                action is Poll
            },
            ClientReply::Signal(_) => action is Poll,
            ClientReply::Items(items) => action is Emit && action->Emit_0 is SlotData
                && action->Emit_0->SlotData_0@ == old(job).slots@[old(job).at as int]@
                && action->Emit_0->SlotData_1 == items@.len(),
            ClientReply::Begin => old(job).slots@.len() > 0 ==> final(job).at == 0 && tells_slot(
                action,
                old(job).slots@,
                0,
            ),
            ClientReply::Disconnected => old(job).at + 1 < old(job).slots@.len() ==> final(job).at
                == old(job).at + 1 && tells_slot(action, old(job).slots@, old(job).at + 1),
        },
        reply is Begin && old(job).slots@.len() == 0 ==> action == ClientAction::Emit(
            ConnEvent::Done(None),
        ),
        reply is Disconnected && old(job).at + 1 == old(job).slots@.len() ==> action
            == ClientAction::Emit(ConnEvent::Done(None)),
{
}

/// Whether an action announces a slot: its number from one on, how many there are,
/// and its name.
pub open spec fn tells_slot(action: ClientAction, slots: Seq<String>, at: int) -> bool {
    match action {
        ClientAction::Emit(ConnEvent::Status(text)) => text@ == decimal((at + 1) as nat) + "/"@
            + decimal(slots.len()) + ": "@ + slots[at]@,
        _ => false,
    }
}

/// A report holds every item that was read, in a group with the item's id, and
/// nothing else.
pub proof fn law_report_holds_what_was_read(
    job: &mut ClientJob,
    cache: &mut StringCache,
    items: Vec<RawItem>,
    name: String,
    total: usize,
    groups: Vec<SlotItemGroup>,
)
    requires
        old(job).wf(),
        old(job).phase is Reading,
        old(cache).wf(),
        call_ensures(
            ClientJob::step,
            (job, cache, ClientReply::Items(items)),
            ClientAction::Emit(ConnEvent::SlotData(name, total, groups)),
        ),
    ensures
        total == items@.len(),
        forall|k: int| 0 <= k < items@.len() ==> kept_under_id(groups@, #[trigger] items@[k], k),
        forall|g: int, j: int|
            0 <= g < groups@.len() && 0 <= j < groups@[g].instances@.len() ==> {
                let kept = #[trigger] groups@[g].instances@[j];
                &&& kept.index < items@.len()
                &&& items@[kept.index as int].item_id == groups@[g].id
                &&& keeps_raw(kept, items@[kept.index as int])
            },
        forall|g: int|
            0 <= g < groups@.len() ==> (#[trigger] groups@[g]).instances@.len() > 0
                && groups@[g].name@ == items@[groups@[g].instances@[0].index as int].item_name@,
        forall|g: int, i: int, j: int|
            0 <= g < groups@.len() && 0 <= i < j < groups@[g].instances@.len() ==> (
            #[trigger] groups@[g].instances@[i]).index < (#[trigger] groups@[g].instances@[j]).index,
        forall|g: int, h: int|
            0 <= g < h < groups@.len() ==> (#[trigger] groups@[g]).id != (#[trigger] groups@[h]).id,
{
    let all = raw_view(items@);
    let views = groups_view(groups@);
    assert forall|k: int| 0 <= k < items@.len() implies kept_under_id(
        groups@,
        #[trigger] items@[k],
        k,
    ) by {
        law_item_in_one_group(views, all, k);
        assert(all[k] == items@[k]@);
        let g = choose|g: int|
            0 <= g < views.len() && (#[trigger] views[g]).id == all[k].item_id
                && views[g].instances.contains(instance_of(all[k], k));
        let j = choose|j: int|
            0 <= j < views[g].instances.len() && views[g].instances[j] == instance_of(all[k], k);
        assert(views[g].instances[j] == groups@[g].instances@[j]@);
        assert(groups@[g].instances@[j].index == k);
    }
    assert forall|g: int, j: int|
        0 <= g < groups@.len() && 0 <= j < groups@[g].instances@.len() implies {
        let kept = #[trigger] groups@[g].instances@[j];
        &&& kept.index < items@.len()
        &&& items@[kept.index as int].item_id == groups@[g].id
        &&& keeps_raw(kept, items@[kept.index as int])
    } by {
        lemma_group_view(groups@, all, g, j);
        let at = groups@[g].instances@[j].index as int;
        assert(all[at] == items@[at]@);
    }
    assert forall|g: int| 0 <= g < groups@.len() implies (#[trigger] groups@[g]).instances@.len() > 0
        && groups@[g].name@ == items@[groups@[g].instances@[0].index as int].item_name@ by {
        assert(is_group(views[g], all));
        assert(views[g].instances.len() == groups@[g].instances@.len());
        lemma_group_view(groups@, all, g, 0);
        let first = groups@[g].instances@[0].index as int;
        assert(views[g].instances[0] == groups@[g].instances@[0]@);
        assert(all[first] == items@[first]@);
    }
    assert forall|g: int, i: int, j: int|
        0 <= g < groups@.len() && 0 <= i < j < groups@[g].instances@.len() implies (
    #[trigger] groups@[g].instances@[i]).index < (#[trigger] groups@[g].instances@[j]).index by {
        lemma_group_order(groups@, all, g, i, j);
    }
    law_group_ids_distinct(views, all);
    assert forall|g: int, h: int| 0 <= g < h < groups@.len() implies (#[trigger] groups@[g]).id != (
    #[trigger] groups@[h]).id by {
        assert(views[g].id != views[h].id);
    }
}

/// Whether the item at position `k` is kept in the group of its id.
pub open spec fn kept_under_id(groups: Seq<SlotItemGroup>, item: RawItem, k: int) -> bool {
    exists|g: int, j: int|
        0 <= g < groups.len() && 0 <= j < groups[g].instances@.len() && groups[g].id
            == item.item_id && (#[trigger] groups[g].instances@[j]).index == k
}

/// Whether an entry of an inventory says what the game server says of an item.
pub open spec fn keeps_raw(kept: SlotItemInstance, item: RawItem) -> bool {
    &&& kept.from_id == item.sender_id
    &&& kept.from_name@ == item.sender_name@
    &&& kept.at_id == item.location_id
    &&& kept.at_name@ == item.location_name@
    &&& kept.at_game@ == item.location_game@
    &&& kept.type_flags@ == item.type_flags@
}

} // verus!
