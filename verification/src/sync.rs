//! A task that logs in as every slot of a world in turn and gathers what all of
//! them have received, and the connection that runs it.

use vstd::prelude::*;
use vstd::string::StringExecFns;

use crate::client::{poll_step, raw_view, signal_ready, ClientSignal, PollStep, RawItem};
use crate::items::ReceivedView;
use crate::text::{decimal, push_decimal};
use crate::world::InstanceLocalId;

verus! {

broadcast use vstd::string::group_string_axioms;

/// A slot that is asked for.
#[derive(Debug)]
pub struct SlotRequest {
    pub name: String,
    pub id: InstanceLocalId,
    pub confirmed: usize,
}

/// A world that is asked for.
#[derive(Debug)]
pub struct WorldRequest {
    pub address: String,
    pub password: String,
    pub slots: Vec<SlotRequest>,
    /// Games whose data packages are not to be used, because they are broken.
    pub banished_games: Option<Vec<String>>,
}

/// An item that a slot has received, and when this was found out.
#[derive(Debug)]
pub struct WorldItem {
    pub item: RawItem,
    pub time: u64,
}

/// What a slot has received.
#[derive(Debug)]
pub struct SyncedSlot {
    pub name: String,
    pub id: InstanceLocalId,
    pub ui_data_stale: bool,
    pub confirmed: usize,
    pub game: String,
    pub inventory: Vec<WorldItem>,
}

/// What is said of items, each with the time at which it was found out.
pub open spec fn items_view(items: Seq<WorldItem>) -> Seq<(ReceivedView, u64)> {
    items.map_values(|item: WorldItem| (item.item@, item.time))
}

/// Items that were all found out at one time.
pub open spec fn dated_view(items: Seq<ReceivedView>, time: u64) -> Seq<(ReceivedView, u64)> {
    items.map_values(|item: ReceivedView| (item, time))
}

/// Whether `slot` is the answer to a request.
pub open spec fn answers(
    slot: SyncedSlot,
    request: SlotRequest,
    game: Seq<char>,
    items: Seq<ReceivedView>,
    time: u64,
) -> bool {
    &&& slot.name@ == request.name@
    &&& slot.id == request.id
    &&& !slot.ui_data_stale
    &&& slot.confirmed == request.confirmed
    &&& slot.game@ == game
    &&& items_view(slot.inventory@) == dated_view(items, time)
}

/// Where the task stands.
#[derive(Debug, Clone, Copy, PartialEq, Eq, Structural)]
pub enum SyncPhase {
    Ready,
    /// The slot has been announced.
    Announcing,
    Connecting,
    /// So many games have been banished.
    Banishing(usize),
    Polling,
    Reading,
    Closing,
    Ended,
}

/// The work of the task.
#[derive(Debug)]
pub struct SyncJob {
    pub world: WorldRequest,
    pub time: u64,
    /// The slot that is worked on.
    pub at: usize,
    pub phase: SyncPhase,
    pub result: Vec<SyncedSlot>,
}

/// What the task does next.
#[derive(Debug)]
pub enum SyncAction {
    /// Report a status.
    Status(String),
    /// Log in as the slot at this position.
    Connect(usize),
    /// Leave the data package of a game out.
    Banish(String),
    /// Ask the connection for its next signal.
    Poll,
    /// Read the slot's game and all items that it has received.
    ReadItems,
    /// Close the connection.
    Disconnect,
    /// Report what all slots have received; it is in the job's result.
    Done,
    /// Report an error.
    Fail(String),
}

/// What came of the last action.
#[derive(Debug)]
pub enum SyncReply {
    Begin,
    /// A report has been made, a game has been banished, or a connection has
    /// been closed.
    Finished,
    Connected(Result<(), String>),
    Signal(ClientSignal),
    Items(String, Vec<RawItem>),
}

/// The games that are to be banished.
pub open spec fn banished(world: WorldRequest) -> Seq<String> {
    match world.banished_games {
        Some(games) => games@,
        None => Seq::empty(),
    }
}

/// Whether all items were found out at one time.
pub open spec fn found_out_at(items: Seq<WorldItem>, time: u64) -> bool {
    forall|i: int| 0 <= i < items.len() ==> (#[trigger] items[i]).time == time
}

/// Whether the results are about the first slots, in their order, with what was
/// found out at a time.
pub open spec fn answered(result: Seq<SyncedSlot>, slots: Seq<SlotRequest>, time: u64) -> bool {
    &&& result.len() <= slots.len()
    &&& forall|i: int|
        0 <= i < result.len() ==> {
            &&& (#[trigger] result[i]).name@ == slots[i].name@
            &&& result[i].id == slots[i].id
            &&& !result[i].ui_data_stale
            &&& result[i].confirmed == slots[i].confirmed
            &&& found_out_at(result[i].inventory@, time)
        }
}

impl SyncJob {
    /// Whether a slot is being worked on where one has to be, and the slots
    /// before it have their answers.
    pub open spec fn wf(&self) -> bool {
        &&& answered(self.result@, self.world.slots@, self.time)
        &&& match self.phase {
            SyncPhase::Ready => self.at == 0 && self.result@.len() == 0,
            SyncPhase::Ended => true,
            SyncPhase::Closing => self.at < self.world.slots@.len() && self.result@.len() == self.at
                + 1,
            SyncPhase::Banishing(n) => {
                &&& self.at < self.world.slots@.len()
                &&& self.result@.len() == self.at
                &&& 0 < n <= banished(self.world).len()
            },
            _ => self.at < self.world.slots@.len() && self.result@.len() == self.at,
        }
    }

    /// Whether a reply is an answer to what was done last.
    pub open spec fn expects(&self, reply: SyncReply) -> bool {
        match self.phase {
            SyncPhase::Ready => reply is Begin,
            SyncPhase::Announcing => reply is Finished,
            SyncPhase::Connecting => reply is Connected,
            SyncPhase::Banishing(_) => reply is Finished,
            SyncPhase::Polling => reply is Signal,
            SyncPhase::Reading => reply is Items,
            SyncPhase::Closing => reply is Finished,
            SyncPhase::Ended => false,
        }
    }
}

/// The announcement of a slot.
pub open spec fn slot_status(at: int, total: int, name: Seq<char>) -> Seq<char> {
    "Slot "@ + decimal((at + 1) as nat) + "/"@ + decimal(total as nat) + ": "@ + name
}

/// Whether the job has turned to slot `at`, or to the end where there is none.
pub open spec fn turned_to(job: SyncJob, at: int, action: SyncAction) -> bool {
    if at < job.world.slots@.len() {
        &&& job.at == at
        &&& job.phase == SyncPhase::Announcing
        &&& action is Status
        &&& action->Status_0@ == slot_status(
            at,
            job.world.slots@.len() as int,
            job.world.slots@[at].name@,
        )
    } else {
        job.phase == SyncPhase::Ended && action is Done
    }
}

/// Whether the job has turned to banishing game `n`, or to the signals where
/// there is none.
pub open spec fn turned_to_game(job: SyncJob, n: int, action: SyncAction) -> bool {
    let games = banished(job.world);
    if n < games.len() {
        &&& job.phase == SyncPhase::Banishing((n + 1) as usize)
        &&& action is Banish
        &&& action->Banish_0@ == games[n]@
    } else {
        job.phase == SyncPhase::Polling && action is Poll
    }
}

/// What a step of the task does.
pub open spec fn sync_step(
    pre: SyncJob,
    reply: SyncReply,
    post: SyncJob,
    action: SyncAction,
) -> bool {
    &&& post.world == pre.world
    &&& post.time == pre.time
    &&& match (pre.phase, reply) {
        (SyncPhase::Ready, SyncReply::Begin) => {
            &&& post.result@ == pre.result@
            &&& turned_to(post, 0, action)
        },
        (SyncPhase::Announcing, SyncReply::Finished) => {
            &&& post == (SyncJob { phase: SyncPhase::Connecting, ..pre })
            &&& action == SyncAction::Connect(pre.at)
        },
        (SyncPhase::Connecting, SyncReply::Connected(Err(text))) => {
            &&& post == (SyncJob { phase: SyncPhase::Ended, ..pre })
            &&& action == SyncAction::Fail(text)
        },
        (SyncPhase::Connecting, SyncReply::Connected(Ok(_))) => {
            &&& post == (SyncJob { phase: post.phase, ..pre })
            &&& turned_to_game(post, 0, action)
        },
        (SyncPhase::Banishing(n), SyncReply::Finished) => {
            &&& post == (SyncJob { phase: post.phase, ..pre })
            &&& turned_to_game(post, n as int, action)
        },
        (SyncPhase::Polling, SyncReply::Signal(ClientSignal::Error(text))) => {
            &&& post == (SyncJob { phase: SyncPhase::Ended, ..pre })
            &&& action == SyncAction::Fail(text)
        },
        (SyncPhase::Polling, SyncReply::Signal(signal)) => if signal_ready(signal) {
            &&& post == (SyncJob { phase: SyncPhase::Reading, ..pre })
            &&& action is ReadItems
        } else {
            post == pre && action is Poll
        },
        (SyncPhase::Reading, SyncReply::Items(game, items)) => {
            &&& post == (SyncJob { phase: SyncPhase::Closing, result: post.result, ..pre })
            &&& post.result@.len() == pre.result@.len() + 1
            &&& post.result@.drop_last() == pre.result@
            &&& answers(
                post.result@.last(),
                pre.world.slots@[pre.at as int],
                game@,
                raw_view(items@),
                pre.time,
            )
            &&& action is Disconnect
        },
        (SyncPhase::Closing, SyncReply::Finished) => {
            &&& post.result@ == pre.result@
            &&& turned_to(post, pre.at + 1, action)
        },
        _ => false,
    }
}

/// Dated items have the date.
proof fn lemma_dated(items: Seq<WorldItem>, views: Seq<ReceivedView>, time: u64)
    requires
        items_view(items) == dated_view(views, time),
    ensures
        found_out_at(items, time),
{
    assert(items_view(items).len() == items.len());
    assert(dated_view(views, time).len() == views.len());
    assert forall|i: int| 0 <= i < items.len() implies (#[trigger] items[i]).time == time by {
        assert(items_view(items)[i] == dated_view(views, time)[i]);
    }
}

/// Notes when items were received.
fn dated(items: Vec<RawItem>, time: u64) -> (r: Vec<WorldItem>)
    ensures
        items_view(r@) == dated_view(raw_view(items@), time),
{
    let ghost all = raw_view(items@);
    let mut rest = items;
    // The items from the last to the first.
    let mut back: Vec<RawItem> = Vec::new();
    while rest.len() > 0
        invariant
            rest@.len() + back@.len() == all.len(),
            raw_view(rest@) == all.take(rest@.len() as int),
            forall|i: int| 0 <= i < back@.len() ==> (#[trigger] back@[i])@ == all[all.len() - 1 - i],
        decreases rest@.len(),
    {
        let ghost before = rest@;
        if let Some(item) = rest.pop() {
            assert(raw_view(before)[before.len() - 1] == item@);
            assert(all.take(before.len() as int)[before.len() - 1] == all[before.len() - 1]);
            back.push(item);
            assert(raw_view(rest@) =~= all.take(rest@.len() as int)) by {
                assert forall|i: int| 0 <= i < rest@.len() implies raw_view(rest@)[i] == all[i] by {
                    assert(raw_view(before)[i] == before[i]@);
                    assert(all.take(before.len() as int)[i] == all[i]);
                }
            }
        }
    }
    let mut out: Vec<WorldItem> = Vec::new();
    while back.len() > 0
        invariant
            out@.len() + back@.len() == all.len(),
            forall|i: int| 0 <= i < out@.len() ==> (#[trigger] out@[i]).item@ == all[i],
            forall|i: int| 0 <= i < out@.len() ==> (#[trigger] out@[i]).time == time,
            forall|i: int| 0 <= i < back@.len() ==> (#[trigger] back@[i])@ == all[all.len() - 1 - i],
        decreases back@.len(),
    {
        let ghost before = back@;
        if let Some(item) = back.pop() {
            assert(before[before.len() - 1]@ == all[out@.len() as int]);
            out.push(WorldItem { item, time });
        }
    }
    assert(items_view(out@) =~= dated_view(all, time));
    out
}

impl SyncJob {
    /// The work for a world at a time.
    pub fn new(world: WorldRequest, time: u64) -> (r: Self)
        ensures
            r.wf(),
            r.world == world,
            r.time == time,
            r.phase == SyncPhase::Ready,
    {
        SyncJob { world, time, at: 0, phase: SyncPhase::Ready, result: Vec::new() }
    }

    fn turn_to(&mut self, at: usize) -> (action: SyncAction)
        requires
            old(self).result@.len() == at,
            answered(old(self).result@, old(self).world.slots@, old(self).time),
        ensures
            final(self).wf(),
            final(self).world == old(self).world,
            final(self).time == old(self).time,
            final(self).result@ == old(self).result@,
            turned_to(*final(self), at as int, action),
    {
        if at >= self.world.slots.len() {
            self.phase = SyncPhase::Ended;
            return SyncAction::Done;
        }
        self.at = at;
        self.phase = SyncPhase::Announcing;
        let mut text = "Slot ".to_owned();
        push_decimal(&mut text, (at + 1) as u64);
        text.append("/");
        push_decimal(&mut text, self.world.slots.len() as u64);
        text.append(": ");
        text.append(self.world.slots[at].name.as_str());
        SyncAction::Status(text)
    }

    fn turn_to_game(&mut self, n: usize) -> (action: SyncAction)
        requires
            old(self).at < old(self).world.slots@.len(),
            old(self).result@.len() == old(self).at,
            answered(old(self).result@, old(self).world.slots@, old(self).time),
        ensures
            final(self).wf(),
            *final(self) == (SyncJob { phase: final(self).phase, ..*old(self) }),
            turned_to_game(*final(self), n as int, action),
    {
        if let Some(games) = &self.world.banished_games {
            if n < games.len() {
                let game = games[n].clone();
                self.phase = SyncPhase::Banishing(n + 1);
                return SyncAction::Banish(game);
            }
        }
        self.phase = SyncPhase::Polling;
        SyncAction::Poll
    }

    fn fail(&mut self, text: String) -> (action: SyncAction)
        ensures
            *final(self) == (SyncJob { phase: SyncPhase::Ended, ..*old(self) }),
            action == SyncAction::Fail(text),
    {
        self.phase = SyncPhase::Ended;
        SyncAction::Fail(text)
    }

    /// Takes the reply to the last action, and says what to do next.
    pub fn step(&mut self, reply: SyncReply) -> (action: SyncAction)
        requires
            old(self).wf(),
            old(self).expects(reply),
        ensures
            final(self).wf(),
            sync_step(*old(self), reply, *final(self), action),
    {
        match reply {
            SyncReply::Begin => self.turn_to(0),
            SyncReply::Finished => match self.phase {
                SyncPhase::Announcing => {
                    self.phase = SyncPhase::Connecting;
                    SyncAction::Connect(self.at)
                },
                SyncPhase::Banishing(n) => self.turn_to_game(n),
                _ => {
                    assert(self.at < self.world.slots.len());
                    self.turn_to(self.at + 1)
                },
            },
            SyncReply::Connected(Ok(_)) => self.turn_to_game(0),
            SyncReply::Connected(Err(text)) => self.fail(text),
            SyncReply::Signal(signal) => match poll_step(signal) {
                PollStep::Again => SyncAction::Poll,
                PollStep::Ready => {
                    self.phase = SyncPhase::Reading;
                    SyncAction::ReadItems
                },
                PollStep::Failed(text) => self.fail(text),
            },
            SyncReply::Items(game, items) => {
                let slot = &self.world.slots[self.at];
                let synced = SyncedSlot {
                    name: slot.name.clone(),
                    id: slot.id,
                    ui_data_stale: false,
                    confirmed: slot.confirmed,
                    game,
                    inventory: dated(items, self.time),
                };
                let ghost before = self.result@;
                self.result.push(synced);
                assert(self.result@.drop_last() =~= before);
                proof {
                    lemma_dated(synced.inventory@, raw_view(items@), self.time);
                }
                self.phase = SyncPhase::Closing;
                SyncAction::Disconnect
            },
        }
    }
}

/// When everything is done, every slot has its answer, in the order in which
/// the slots were asked for, and none of the answers is stale.
pub proof fn law_done_answers_all(
    pre: SyncJob,
    reply: SyncReply,
    post: SyncJob,
    action: SyncAction,
)
    requires
        pre.wf(),
        pre.expects(reply),
        sync_step(pre, reply, post, action),
        action is Done,
    ensures
        post.result@.len() == pre.world.slots@.len(),
        answered(post.result@, pre.world.slots@, pre.time),
{
}

/// Whether each job comes from the one before it by a step with a reply that it
/// expects, and the actions are those of the steps.
pub open spec fn sync_run(
    jobs: Seq<SyncJob>,
    replies: Seq<SyncReply>,
    actions: Seq<SyncAction>,
) -> bool {
    &&& jobs.len() == actions.len() + 1
    &&& replies.len() == actions.len()
    &&& forall|i: int|
        0 <= i < actions.len() ==> {
            &&& jobs[i].wf()
            &&& jobs[i].expects(replies[i])
            &&& sync_step(jobs[i], replies[i], jobs[i + 1], #[trigger] actions[i])
        }
}

/// Whether `slot` says what was read while `job` worked on slot `k`.
pub open spec fn read_for(job: SyncJob, reply: SyncReply, slot: SyncedSlot, k: int) -> bool {
    &&& job.phase == SyncPhase::Reading
    &&& job.at == k
    &&& reply is Items
    &&& answers(
        slot,
        job.world.slots@[k],
        reply->Items_0@,
        raw_view(reply->Items_1@),
        job.time,
    )
}

proof fn lemma_run(
    jobs: Seq<SyncJob>,
    replies: Seq<SyncReply>,
    actions: Seq<SyncAction>,
    n: int,
    k: int,
)
    requires
        sync_run(jobs, replies, actions),
        jobs[0].phase == SyncPhase::Ready,
        0 <= n < actions.len(),
        0 <= k < jobs[n].result@.len(),
    ensures
        exists|i: int|
            0 <= i < n && read_for(#[trigger] jobs[i], replies[i], jobs[n].result@[k], k),
    decreases n,
{
    assert(sync_step(jobs[n], replies[n], jobs[n + 1], actions[n]));
    if n == 0 {
        assert(jobs[0].wf());
    } else {
        let pre = jobs[n - 1];
        let post = jobs[n];
        assert(sync_step(pre, replies[n - 1], post, actions[n - 1]));
        if k < pre.result@.len() {
            lemma_run(jobs, replies, actions, n - 1, k);
            let i = choose|i: int|
                0 <= i < n - 1 && read_for(#[trigger] jobs[i], replies[i], pre.result@[k], k);
            if pre.phase == SyncPhase::Reading {
                assert(post.result@.drop_last()[k] == post.result@[k]);
            }
            assert(read_for(jobs[i], replies[i], post.result@[k], k));
        } else {
            assert(read_for(jobs[n - 1], replies[n - 1], post.result@[k], k));
        }
    }
}

proof fn lemma_request_stays(
    jobs: Seq<SyncJob>,
    replies: Seq<SyncReply>,
    actions: Seq<SyncAction>,
    n: int,
)
    requires
        sync_run(jobs, replies, actions),
        0 <= n <= actions.len(),
    ensures
        jobs[n].world == jobs[0].world,
        jobs[n].time == jobs[0].time,
    decreases n,
{
    if n > 0 {
        lemma_request_stays(jobs, replies, actions, n - 1);
        assert(sync_step(jobs[n - 1], replies[n - 1], jobs[n], actions[n - 1]));
    }
}

/// When everything is done, the answer for each slot holds the game and the
/// items that were read while the task was logged in as that slot, with the time
/// of the task.
pub proof fn law_answers_are_what_was_read(
    jobs: Seq<SyncJob>,
    replies: Seq<SyncReply>,
    actions: Seq<SyncAction>,
    k: int,
)
    requires
        sync_run(jobs, replies, actions),
        jobs[0].phase == SyncPhase::Ready,
        actions.len() > 0,
        actions.last() is Done,
        0 <= k < jobs[0].world.slots@.len(),
    ensures
        jobs.last().result@.len() == jobs[0].world.slots@.len(),
        exists|i: int|
            0 <= i < replies.len() && (#[trigger] replies[i]) is Items && jobs[i].at == k && answers(
                jobs.last().result@[k],
                jobs[0].world.slots@[k],
                replies[i]->Items_0@,
                raw_view(replies[i]->Items_1@),
                jobs[0].time,
            ),
{
    let n = actions.len() - 1;
    lemma_request_stays(jobs, replies, actions, n);
    assert(sync_step(jobs[n], replies[n], jobs[n + 1], actions[n]));
    law_done_answers_all(jobs[n], replies[n], jobs[n + 1], actions[n]);
    lemma_run(jobs, replies, actions, n, k);
    let i = choose|i: int|
        0 <= i < n && read_for(#[trigger] jobs[i], replies[i], jobs[n].result@[k], k);
    lemma_request_stays(jobs, replies, actions, i);
    assert(replies[i] is Items);
}

/// The task stops with the gathered results or with an error, and only then.
pub proof fn law_how_a_step_ends(
    pre: SyncJob,
    reply: SyncReply,
    post: SyncJob,
    action: SyncAction,
)
    requires
        pre.wf(),
        pre.expects(reply),
        sync_step(pre, reply, post, action),
    ensures
        (post.phase == SyncPhase::Ended) == (action is Done || action is Fail),
{
}

/// Only the last action of a run reports the results or an error: at most one of
/// them is reported, and nothing after it.
pub proof fn law_one_last_report(
    jobs: Seq<SyncJob>,
    replies: Seq<SyncReply>,
    actions: Seq<SyncAction>,
    i: int,
)
    requires
        sync_run(jobs, replies, actions),
        0 <= i < actions.len(),
        actions[i] is Done || actions[i] is Fail,
    ensures
        i == actions.len() - 1,
{
    assert(sync_step(jobs[i], replies[i], jobs[i + 1], actions[i]));
    law_how_a_step_ends(jobs[i], replies[i], jobs[i + 1], actions[i]);
    if i + 1 < actions.len() {
        assert(sync_step(jobs[i + 1], replies[i + 1], jobs[i + 2], actions[i + 1]));
    }
}

/// A message of the task, or why there is none.
#[derive(Debug)]
pub enum SyncMessage {
    Status(String),
    Done(Result<Vec<SyncedSlot>, String>),
    /// There is none at the moment.
    Empty,
    /// There will be none any more.
    Closed,
}

/// A connection: whether its task runs, and its last status with whether it is
/// an error.
#[derive(Debug)]
pub struct Connection {
    pub running: bool,
    pub status: (bool, String),
}

impl Connection {
    /// A connection whose task has been started.
    pub fn new() -> (r: Self)
        ensures
            r.running,
            !r.status.0,
            r.status.1@ == "Starting up\u{2026}"@,
    {
        Connection { running: true, status: (false, "Starting up\u{2026}".to_owned()) }
    }

    /// Whether the task runs.
    pub fn is_running(&self) -> (r: bool)
        ensures
            r == self.running,
    {
        self.running
    }

    /// Takes over that the task has been stopped, and whether it had finished
    /// before.
    pub fn cancel(&mut self, had_finished: bool)
        ensures
            !final(self).running,
            if old(self).running && !had_finished {
                final(self).status.0 && final(self).status.1@ == "Cancelled"@
            } else {
                final(self).status == old(self).status
            },
    {
        if self.running {
            self.running = false;
            if !had_finished {
                self.status = (true, "Cancelled".to_owned());
            }
        }
    }

    /// Takes over a message. Returns whether to ask for another, and what the
    /// slots have received where this is the message.
    pub fn ui_update(&mut self, message: SyncMessage) -> (r: (bool, Option<Vec<SyncedSlot>>))
        ensures
            r.0 == (message is Status || message is Done),
            match message {
                SyncMessage::Status(text) => {
                    &&& final(self).status == (false, text)
                    &&& final(self).running == old(self).running
                    &&& r.1 is None
                },
                SyncMessage::Done(Ok(slots)) => {
                    &&& !final(self).status.0
                    &&& final(self).status.1@ == "Done!"@
                    &&& !final(self).running
                    &&& r.1 == Some(slots)
                },
                SyncMessage::Done(Err(text)) => {
                    &&& final(self).status == (true, text)
                    &&& !final(self).running
                    &&& r.1 is None
                },
                SyncMessage::Closed => {
                    &&& r.1 is None
                    &&& final(self).running == old(self).running
                    &&& if old(self).running {
                        final(self).status.0 && final(self).status.1@ == "Task channel closed!"@
                    } else {
                        final(self).status == old(self).status
                    }
                },
                SyncMessage::Empty => r.1 is None && *final(self) == *old(self),
            },
    {
        match message {
            SyncMessage::Status(text) => {
                self.status = (false, text);
                (true, None)
            },
            SyncMessage::Done(Ok(slots)) => {
                self.status = (false, "Done!".to_owned());
                self.running = false;
                (true, Some(slots))
            },
            SyncMessage::Done(Err(text)) => {
                self.status = (true, text);
                self.running = false;
                (true, None)
            },
            SyncMessage::Closed => {
                if self.running {
                    self.status = (true, "Task channel closed!".to_owned());
                }
                (false, None)
            },
            SyncMessage::Empty => (false, None),
        }
    }
}

/// What each answer leads to. A slot is announced by its place and its name and
/// logged in; every banished game is left out, in order; the items are read once
/// they are there; and whatever fails is reported in its own words.
pub proof fn law_what_the_task_does_next(job: &mut SyncJob, reply: SyncReply, action: SyncAction)
    requires
        old(job).wf(),
        old(job).expects(reply),
        call_ensures(SyncJob::step, (job, reply), action),
    ensures
        final(job).world == old(job).world,
        final(job).time == old(job).time,
        match reply {
            SyncReply::Connected(Err(text)) | SyncReply::Signal(ClientSignal::Error(text)) => action
                == SyncAction::Fail(text) && final(job).phase is Ended,
            SyncReply::Signal(ClientSignal::Idle) => action is ReadItems,
            SyncReply::Signal(ClientSignal::ReceivedItems(first)) => if first == 0 {
                action is ReadItems
            } else {
                action is Poll
            },
            SyncReply::Signal(_) => action is Poll,
            SyncReply::Begin => tells_slot(action, old(job).world.slots@, 0) || (action is Done
                && old(job).world.slots@.len() == 0),
            SyncReply::Items(_, _) => action is Disconnect,
            SyncReply::Connected(Ok(_)) => leaves_out(action, old(job).world, 0),
            SyncReply::Finished => match old(job).phase {
                SyncPhase::Announcing => action == SyncAction::Connect(old(job).at),
                SyncPhase::Banishing(n) => leaves_out(action, old(job).world, n as int),
                _ => tells_slot(action, old(job).world.slots@, old(job).at + 1) || (action is Done
                    && old(job).world.slots@.len() == old(job).at + 1),
            },
        },
{
}

/// Whether an action announces a slot: its number from one on, how many there are,
/// and its name.
pub open spec fn tells_slot(action: SyncAction, slots: Seq<SlotRequest>, at: int) -> bool {
    match action {
        SyncAction::Status(text) => at < slots.len() && text@ == "Slot "@ + decimal((at + 1) as nat)
            + "/"@ + decimal(slots.len()) + ": "@ + slots[at].name@,
        _ => false,
    }
}

/// Whether an action leaves banished game `n` out, or asks for signals where there
/// is none.
pub open spec fn leaves_out(action: SyncAction, world: WorldRequest, n: int) -> bool {
    match world.banished_games {
        Some(games) => if n < games@.len() {
            action is Banish && action->Banish_0@ == games@[n]@
        } else {
            action is Poll
        },
        None => action is Poll,
    }
}

/// What is read for a slot is kept item by item: under the slot's own name, number
/// and confirmation, up to date, with the game that was read and with the task's
/// time for each item.
pub proof fn law_what_was_read_is_kept(
    job: &mut SyncJob,
    game: String,
    items: Vec<RawItem>,
    action: SyncAction,
)
    requires
        old(job).wf(),
        old(job).phase is Reading,
        call_ensures(SyncJob::step, (job, SyncReply::Items(game, items)), action),
    ensures
        final(job).result@.len() == old(job).result@.len() + 1,
        forall|i: int|
            0 <= i < old(job).result@.len() ==> #[trigger] final(job).result@[i] == old(job).result@[i],
        ({
            let slot = final(job).result@[old(job).result@.len() as int];
            let request = old(job).world.slots@[old(job).at as int];
            &&& slot.name@ == request.name@
            &&& slot.id == request.id
            &&& slot.confirmed == request.confirmed
            &&& !slot.ui_data_stale
            &&& slot.game@ == game@
            &&& slot.inventory@.len() == items@.len()
            &&& forall|k: int|
                0 <= k < items@.len() ==> {
                    let kept = #[trigger] slot.inventory@[k];
                    &&& kept.time == old(job).time
                    &&& kept.item.item_id == items@[k].item_id
                    &&& kept.item.item_name@ == items@[k].item_name@
                    &&& kept.item.sender_id == items@[k].sender_id
                    &&& kept.item.sender_name@ == items@[k].sender_name@
                    &&& kept.item.location_id == items@[k].location_id
                    &&& kept.item.location_name@ == items@[k].location_name@
                    &&& kept.item.location_game@ == items@[k].location_game@
                    &&& kept.item.type_flags@ == items@[k].type_flags@
                }
        }),
{
    let before = old(job).result@;
    let after = final(job).result@;
    assert forall|i: int| 0 <= i < before.len() implies #[trigger] after[i] == before[i] by {
        assert(after.drop_last()[i] == after[i]);
    }
    let slot = after[before.len() as int];
    let a = items_view(slot.inventory@);
    let b = dated_view(raw_view(items@), old(job).time);
    assert(a.len() == slot.inventory@.len());
    assert(b.len() == items@.len());
    assert forall|k: int| 0 <= k < items@.len() implies {
        let kept = #[trigger] slot.inventory@[k];
        &&& kept.time == old(job).time
        &&& kept.item@ == items@[k]@
    } by {
        assert(a[k] == (slot.inventory@[k].item@, slot.inventory@[k].time));
        assert(b[k] == (items@[k]@, old(job).time));
    }
}

/// A task begins with nothing gathered.
pub proof fn law_task_begins(world: WorldRequest, time: u64, job: SyncJob)
    requires
        call_ensures(SyncJob::new, (world, time), job),
    ensures
        job.world == world,
        job.time == time,
        job.result@.len() == 0,
        job.phase is Ready,
{
}

/// What a message of the task does: a status is shown, the end stops the task and
/// hands on what was gathered or shows the error, and a task that ends without a
/// word is an error too.
pub proof fn law_what_a_message_does(
    conn: &mut Connection,
    message: SyncMessage,
    r: (bool, Option<Vec<SyncedSlot>>),
)
    requires
        call_ensures(Connection::ui_update, (conn, message), r),
    ensures
        r.0 == (message is Status || message is Done),
        message is Status ==> r.1 is None && final(conn).running == old(conn).running && !final(conn).status.0 && final(conn).status.1@ == message->Status_0@,
        message is Done ==> !final(conn).running,
        message is Done && message->Done_0 is Ok ==> r.1 == Some(message->Done_0->Ok_0) && !final(conn).status.0 && final(conn).status.1@ == "Done!"@,
        message is Done && message->Done_0 is Err ==> r.1 is None && final(conn).status.0 && final(conn).status.1@ == message->Done_0->Err_0@,
        message is Closed && old(conn).running ==> final(conn).status.0 && final(conn).status.1@
            == "Task channel closed!"@,
        message is Closed && !old(conn).running ==> final(conn).status == old(conn).status,
        message is Closed || message is Empty ==> r.1 is None && final(conn).running == old(conn).running,
        message is Empty ==> final(conn).status == old(conn).status,
{
}

/// A task that is stopped before it has finished is shown as cancelled, and one
/// that has finished keeps what it has said.
pub proof fn law_cancelled_is_shown(
    fresh: Connection,
    conn: &mut Connection,
    had_finished: bool,
    before: bool,
    after: bool,
)
    requires
        call_ensures(Connection::new, (), fresh),
        call_ensures(Connection::is_running, (old(conn),), before),
        call_ensures(Connection::cancel, (conn, had_finished), ()),
        call_ensures(Connection::is_running, (final(conn),), after),
    ensures
        fresh.running,
        !fresh.status.0,
        fresh.status.1@ == "Starting up\u{2026}"@,
        !after,
        before && !had_finished ==> final(conn).status.0 && final(conn).status.1@ == "Cancelled"@,
        !before || had_finished ==> final(conn).status == old(conn).status,
{
}

} // verus!
