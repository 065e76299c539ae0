//! The worker that asks the web host what the slots of a world have received.

use vstd::prelude::*;
use vstd::string::StringExecFns;

use crate::client::reports;
use crate::conn::ConnEvent;
use crate::data::{active_names, texts, SlotItemGroup, WorldFile};
use crate::istr::{Istr, StringCache};
use crate::items::group_items;
use crate::lookup::{
    all_known, all_names, inventory_of, items_failure, lemma_failure, lemma_inventory_of,
    lemma_names_by_id, lists_name, resolve_items, resolved_items, AllNames, GameTables, LookupError, PackageStore,
};
use crate::room::{
    api_address, authority_with, ends_in_path, parsed_url, quote, quoted, room_at, slashes, GameData,
    PartialGameData, PlayerItemsReceived, RoomAddress, RoomStatus, StaticTracker, Tracker,
};
use crate::tables::{walks, TextSet};
use crate::text::{decimal, push_decimal};

verus! {

broadcast use vstd::string::group_string_axioms;

/// Where the worker stands. A number is the position that is worked on.
#[derive(Debug, Clone, Copy, PartialEq, Eq, Structural)]
pub enum RoomPhase {
    Ready,
    StatusAnnounced,
    StatusRequested,
    ListAnnounced,
    ListRequested,
    ListReceived,
    LoadAnnounced(usize),
    LoadRequested(usize),
    DownloadAnnounced(usize),
    DownloadRequested(usize),
    StorePending(usize),
    Storing(usize),
    TablesAnnounced,
    TrackerAnnounced,
    TrackerRequested,
    ResolveAnnounced,
    /// A slot has been reported; the number is the entry to go on with.
    Reported(usize),
    DoneAnnounced,
    Ended,
}

/// The work for one refresh.
pub struct RoomJob {
    pub phase: RoomPhase,
    pub address: RoomAddress,
    /// The names of the slots that are asked for.
    pub slots: Vec<String>,
    pub tracker_id: String,
    pub last_port: u16,
    pub players: Vec<(Istr, Istr)>,
    /// The data packages of the room.
    pub listed: Vec<(Istr, PartialGameData)>,
    /// The data packages that are at hand.
    pub packages: PackageStore,
    /// The data packages that were not in the cache, with their checksums.
    pub missing: Vec<(Istr, String)>,
    pub tables: GameTables,
    /// The names of the slots that have not been found yet.
    pub search: TextSet,
    pub entries: Vec<PlayerItemsReceived>,
}

/// What the worker does next.
#[derive(Debug)]
pub enum RoomAction {
    /// Report an event.
    Emit(ConnEvent),
    /// Fetch the state of the room from this address.
    FetchStatus(String),
    /// Fetch the list of data packages from this address.
    FetchList(String),
    /// Ask whether the user has cancelled.
    PollCancel,
    /// Look for the data package of a game with a checksum in the cache.
    LoadPackage(Istr, String),
    /// Fetch a data package from this address.
    FetchPackage(String),
    /// Write the data package of a game to the cache.
    StorePackage(Istr),
    /// Fetch what the players have received from this address.
    FetchTracker(String),
    /// Everything is done, or the user has cancelled.
    Finish,
    /// Report this error, and stop.
    Fail(ConnEvent),
    /// The host's answers do not fit together: panic with the error's message.
    Crash(LookupError),
}

/// What came of the last action.
#[derive(Debug)]
pub enum RoomReply {
    Begin,
    /// Whether the event could be sent.
    Sent(bool),
    Status(Result<RoomStatus, String>),
    List(Result<StaticTracker, String>),
    Cancelled(bool),
    /// What the cache holds in the place of the package, if it can be read.
    Loaded(Option<GameData>),
    Package(Result<GameData, String>),
    Stored,
    Tracker(Result<Tracker, String>),
}

impl RoomJob {
    /// Whether the positions that are worked on exist, and only slots that were
    /// asked for are looked for.
    pub open spec fn wf(&self) -> bool {
        &&& self.packages.wf()
        &&& self.tables.wf()
        &&& match self.phase {
            RoomPhase::LoadAnnounced(i) | RoomPhase::LoadRequested(i) => i < self.listed@.len(),
            RoomPhase::DownloadAnnounced(j) | RoomPhase::DownloadRequested(j) => j
                < self.missing@.len(),
            RoomPhase::StorePending(j) | RoomPhase::Storing(j) => j < self.missing@.len()
                && self.packages@.contains_key(self.missing@[j as int].0@),
            RoomPhase::Reported(k) => k <= self.entries@.len() && self.search@.subset_of(
                texts(self.slots@).to_set(),
            ),
            _ => true,
        }
    }

    /// Whether a reply is an answer to what was done last.
    pub open spec fn expects(&self, reply: RoomReply) -> bool {
        match self.phase {
            RoomPhase::Ready => reply is Begin,
            RoomPhase::StatusAnnounced => reply is Sent,
            RoomPhase::StatusRequested => reply is Status,
            RoomPhase::ListAnnounced => reply is Sent,
            RoomPhase::ListRequested => reply is List,
            RoomPhase::ListReceived => reply is Cancelled,
            RoomPhase::LoadAnnounced(_) => reply is Sent,
            RoomPhase::LoadRequested(_) => reply is Loaded,
            RoomPhase::DownloadAnnounced(_) => reply is Sent,
            RoomPhase::DownloadRequested(_) => reply is Package,
            RoomPhase::StorePending(_) => reply is Cancelled,
            RoomPhase::Storing(_) => reply is Stored,
            RoomPhase::TablesAnnounced => reply is Sent,
            RoomPhase::TrackerAnnounced => reply is Sent,
            RoomPhase::TrackerRequested => reply is Tracker,
            RoomPhase::ResolveAnnounced => reply is Sent,
            RoomPhase::Reported(_) => reply is Sent,
            RoomPhase::DoneAnnounced => reply is Sent,
            RoomPhase::Ended => false,
        }
    }
}

/// Whether an action reports a status.
pub open spec fn announces(action: RoomAction, text: Seq<char>) -> bool {
    action is Emit && action->Emit_0 is Status && action->Emit_0->Status_0@ == text
}

/// Whether an action stops with an error.
pub open spec fn fails(action: RoomAction, text: Seq<char>) -> bool {
    action is Fail && action->Fail_0 is Error && action->Fail_0->Error_0@ == text
}

/// The status while data packages are looked for in the cache.
pub open spec fn loading_text(i: int, total: int) -> Seq<char> {
    "Loading cached data packages "@ + decimal(i as nat) + "/"@ + decimal(total as nat)
}

/// The status while data packages are downloaded.
pub open spec fn downloading_text(j: int, total: int, game: Seq<char>) -> Seq<char> {
    "Downloading data package "@ + decimal(j as nat) + "/"@ + decimal(total as nat) + ": "@ + game
}

/// Texts in quotes, separated by commas.
pub open spec fn quoted_list(names: Seq<Seq<char>>) -> Seq<char>
    decreases names.len(),
{
    if names.len() == 0 {
        Seq::empty()
    } else if names.len() == 1 {
        quoted(names[0])
    } else {
        quoted_list(names.drop_last()) + ", "@ + quoted(names.last())
    }
}

/// The complaint about slots that are not in the room.
pub open spec fn not_found_text(names: Seq<Seq<char>>) -> Seq<char> {
    "Some slots were not found: {"@ + quoted_list(names) + "}"@
}

/// Whether the job has turned to the download of package `j`, or to the lookup
/// tables where there is none.
pub open spec fn at_download(job: RoomJob, j: int, action: RoomAction) -> bool {
    if j < job.missing@.len() {
        if job.packages@.contains_key(job.missing@[j].0@) {
            &&& job.phase == RoomPhase::StorePending(j as usize)
            &&& action is PollCancel
        } else {
            &&& job.phase == RoomPhase::DownloadAnnounced(j as usize)
            &&& announces(
                action,
                downloading_text(j, job.missing@.len() as int, job.missing@[j].0@),
            )
        }
    } else {
        &&& job.phase == RoomPhase::TablesAnnounced
        &&& announces(action, "Building lookup tables"@)
    }
}

/// Whether the job has turned to cached package `i`, or to the downloads where
/// there is none.
pub open spec fn at_load(job: RoomJob, i: int, action: RoomAction) -> bool {
    if i < job.listed@.len() {
        &&& job.phase == RoomPhase::LoadAnnounced(i as usize)
        &&& announces(action, loading_text(i, job.listed@.len() as int))
    } else {
        at_download(job, 0, action)
    }
}

/// What comes of the entries of a tracker from one on.
pub enum Resolution {
    /// An entry is about an unknown number.
    Unknown(LookupError),
    /// The entry at this position is about a slot that is asked for.
    Found(int),
    /// No entry is about a slot that is asked for.
    NotFound,
}

/// Looks for the next entry about a slot whose name is in `search`.
pub open spec fn resolution(
    players: Seq<(Istr, Istr)>,
    tables: AllNames,
    search: Set<Seq<char>>,
    entries: Seq<PlayerItemsReceived>,
    k: int,
) -> Resolution
    decreases entries.len() - k,
{
    if k < 0 || k >= entries.len() {
        Resolution::NotFound
    } else {
        let entry = entries[k];
        if entry.player >= players.len() {
            Resolution::Unknown(
                LookupError::Player { index: entry.player as usize, len: players.len() as usize },
            )
        } else if !search.contains(players[entry.player as int].0@) {
            resolution(players, tables, search, entries, k + 1)
        } else if !tables.contains_key(players[entry.player as int].1@) {
            Resolution::Unknown(LookupError::Entry)
        } else {
            match items_failure(
                players,
                tables,
                tables[players[entry.player as int].1@].0,
                entry.items@,
            ) {
                Some(error) => Resolution::Unknown(error),
                None => Resolution::Found(k),
            }
        }
    }
}

/// Whether the job has turned to the entries from `k` on, with the slots
/// `search` still to be found.
pub open spec fn at_entry(
    job: RoomJob,
    search: Set<Seq<char>>,
    k: int,
    action: RoomAction,
) -> bool {
    match resolution(job.players@, job.tables@, search, job.entries@, k) {
        Resolution::Unknown(error) => job.phase == RoomPhase::Ended && action == RoomAction::Crash(
            error,
        ),
        Resolution::Found(at) => {
            let player = job.players@[job.entries@[at].player as int];
            &&& job.phase == RoomPhase::Reported((at + 1) as usize)
            &&& job.search@ == search.remove(player.0@)
            &&& action is Emit
            &&& reports(
                action->Emit_0,
                player.0@,
                resolved_items(
                    job.players@,
                    job.tables@,
                    job.tables@[player.1@].0,
                    job.entries@[at].items@,
                ),
            )
        },
        Resolution::NotFound => if search == Set::<Seq<char>>::empty() {
            match parsed_url(job.address.url@) {
                Ok(_) => {
                    &&& job.phase == RoomPhase::DoneAnnounced
                    &&& action is Emit
                    &&& action->Emit_0 is Done
                    &&& action->Emit_0->Done_0 is Some
                    &&& action->Emit_0->Done_0->Some_0@ == authority_with(
                        job.address.url@,
                        RoomAddress::client_scheme(job.last_port),
                        job.last_port,
                    )
                },
                Err(message) => job.phase == RoomPhase::Ended && fails(action, message),
            }
        } else {
            &&& job.phase == RoomPhase::Ended
            &&& exists|names: Seq<String>| #[trigger]
                walks(names, search) && fails(action, not_found_text(texts(names)))
        },
    }
}

/// What a step of the worker does.
pub open spec fn room_step(
    pre: RoomJob,
    reply: RoomReply,
    post: RoomJob,
    action: RoomAction,
) -> bool {
    match (pre.phase, reply) {
        (RoomPhase::Ready, RoomReply::Begin) => {
            &&& post == (RoomJob { phase: RoomPhase::StatusAnnounced, ..pre })
            &&& announces(action, "Fetching room status"@)
        },
        (_, RoomReply::Sent(false)) => {
            &&& post == (RoomJob { phase: RoomPhase::Ended, ..pre })
            &&& fails(action, "sending on a closed channel"@)
        },
        (_, RoomReply::Status(Err(text))) => {
            &&& post == (RoomJob { phase: RoomPhase::Ended, ..pre })
            &&& action == RoomAction::Fail(ConnEvent::Error(text))
        },
        (_, RoomReply::List(Err(text))) => {
            &&& post == (RoomJob { phase: RoomPhase::Ended, ..pre })
            &&& action == RoomAction::Fail(ConnEvent::Error(text))
        },
        (_, RoomReply::Package(Err(text))) => {
            &&& post == (RoomJob { phase: RoomPhase::Ended, ..pre })
            &&& action == RoomAction::Fail(ConnEvent::Error(text))
        },
        (_, RoomReply::Tracker(Err(text))) => {
            &&& post == (RoomJob { phase: RoomPhase::Ended, ..pre })
            &&& action == RoomAction::Fail(ConnEvent::Error(text))
        },
        (_, RoomReply::Cancelled(true)) => {
            &&& post == (RoomJob { phase: RoomPhase::Ended, ..pre })
            &&& action is Finish
        },
        (RoomPhase::StatusAnnounced, RoomReply::Sent(true)) => {
            &&& post == (RoomJob { phase: RoomPhase::StatusRequested, ..pre })
            &&& action is FetchStatus
            &&& action->FetchStatus_0@ == api_address(
                pre.address.scheme@,
                pre.address.host@,
                "room_status"@,
                pre.address.room_id@,
            )
        },
        (RoomPhase::StatusRequested, RoomReply::Status(Ok(status))) => {
            &&& post == (RoomJob {
                phase: RoomPhase::ListAnnounced,
                tracker_id: status.tracker,
                last_port: status.last_port,
                players: status.players,
                ..pre
            })
            &&& announces(action, "Fetching data package list"@)
        },
        (RoomPhase::ListAnnounced, RoomReply::Sent(true)) => {
            &&& post == (RoomJob { phase: RoomPhase::ListRequested, ..pre })
            &&& action is FetchList
            &&& action->FetchList_0@ == api_address(
                pre.address.scheme@,
                pre.address.host@,
                "static_tracker"@,
                pre.tracker_id@,
            )
        },
        (RoomPhase::ListRequested, RoomReply::List(Ok(list))) => {
            &&& post == (RoomJob {
                phase: RoomPhase::ListReceived,
                listed: list.datapackage,
                ..pre
            })
            &&& action is PollCancel
        },
        (RoomPhase::ListReceived, RoomReply::Cancelled(false)) => {
            &&& post == (RoomJob { phase: post.phase, ..pre })
            &&& at_load(post, 0, action)
        },
        (RoomPhase::LoadAnnounced(i), RoomReply::Sent(true)) => {
            &&& post == (RoomJob { phase: RoomPhase::LoadRequested(i), ..pre })
            &&& action is LoadPackage
            &&& action->LoadPackage_0@ == pre.listed@[i as int].0@
            &&& action->LoadPackage_1@ == pre.listed@[i as int].1.checksum@
        },
        (RoomPhase::LoadRequested(i), RoomReply::Loaded(found)) => {
            let game = pre.listed@[i as int].0@;
            let checksum = pre.listed@[i as int].1.checksum@;
            &&& post == (RoomJob {
                phase: post.phase,
                packages: post.packages,
                missing: post.missing,
                ..pre
            })
            &&& if found is Some && found->Some_0.checksum@ == checksum {
                &&& post.packages@ == pre.packages@.insert(game, found->Some_0)
                &&& post.missing@ == pre.missing@
            } else {
                &&& post.packages@ == pre.packages@
                &&& post.missing@.len() == pre.missing@.len() + 1
                &&& post.missing@.drop_last() == pre.missing@
                &&& post.missing@.last().0@ == game
                &&& post.missing@.last().1@ == checksum
            }
            &&& at_load(post, i + 1, action)
        },
        (RoomPhase::DownloadAnnounced(j), RoomReply::Sent(true)) => {
            &&& post == (RoomJob { phase: RoomPhase::DownloadRequested(j), ..pre })
            &&& action is FetchPackage
            &&& action->FetchPackage_0@ == api_address(
                pre.address.scheme@,
                pre.address.host@,
                "datapackage"@,
                pre.missing@[j as int].1@,
            )
        },
        (RoomPhase::DownloadRequested(j), RoomReply::Package(Ok(data))) => {
            &&& post == (RoomJob {
                phase: RoomPhase::StorePending(j),
                packages: post.packages,
                ..pre
            })
            &&& post.packages@ == pre.packages@.insert(pre.missing@[j as int].0@, data)
            &&& action is PollCancel
        },
        (RoomPhase::StorePending(j), RoomReply::Cancelled(false)) => {
            &&& post == (RoomJob { phase: RoomPhase::Storing(j), ..pre })
            &&& action is StorePackage
            &&& action->StorePackage_0@ == pre.missing@[j as int].0@
        },
        (RoomPhase::Storing(j), RoomReply::Stored) => {
            &&& post == (RoomJob { phase: post.phase, ..pre })
            &&& at_download(post, j + 1, action)
        },
        (RoomPhase::TablesAnnounced, RoomReply::Sent(true)) => {
            &&& post == (RoomJob {
                phase: RoomPhase::TrackerAnnounced,
                packages: post.packages,
                tables: post.tables,
                ..pre
            })
            &&& post.packages@ == Map::<Seq<char>, GameData>::empty()
            &&& post.tables@ == all_names(pre.packages@)
            &&& announces(action, "Fetching tracker data"@)
        },
        (RoomPhase::TrackerAnnounced, RoomReply::Sent(true)) => {
            &&& post == (RoomJob { phase: RoomPhase::TrackerRequested, ..pre })
            &&& action is FetchTracker
            &&& action->FetchTracker_0@ == api_address(
                pre.address.scheme@,
                pre.address.host@,
                "tracker"@,
                pre.tracker_id@,
            )
        },
        (RoomPhase::TrackerRequested, RoomReply::Tracker(Ok(tracker))) => {
            &&& post == (RoomJob {
                phase: RoomPhase::ResolveAnnounced,
                entries: tracker.player_items_received,
                ..pre
            })
            &&& announces(action, "Resolving items"@)
        },
        (RoomPhase::ResolveAnnounced, RoomReply::Sent(true)) => {
            &&& post == (RoomJob {
                phase: post.phase,
                players: post.players,
                search: post.search,
                ..pre
            })
            &&& post.players@.len() == pre.players@.len() + 1
            &&& post.players@[0].0@ == "Server"@
            &&& post.players@[0].1@ == "Archipelago"@
            &&& post.players@.skip(1) == pre.players@
            &&& at_entry(post, texts(pre.slots@).to_set(), 0, action)
        },
        (RoomPhase::Reported(k), RoomReply::Sent(true)) => {
            &&& post == (RoomJob { phase: post.phase, search: post.search, ..pre })
            &&& at_entry(post, pre.search@, k as int, action)
        },
        (RoomPhase::DoneAnnounced, RoomReply::Sent(true)) => {
            &&& post == (RoomJob { phase: RoomPhase::Ended, ..pre })
            &&& action is Finish
        },
        _ => false,
    }
}

/// The complaint about slots that are not in the room.
pub fn not_found_message(names: &Vec<String>) -> (r: String)
    ensures
        r@ == not_found_text(texts(names@)),
{
    let ghost all = texts(names@);
    let mut out = "Some slots were not found: {".to_owned();
    let ghost head = out@;
    let mut i: usize = 0;
    assert(out@ =~= head + quoted_list(all.take(0)));
    while i < names.len()
        invariant
            i <= names@.len(),
            all == texts(names@),
            out@ == head + quoted_list(all.take(i as int)),
        decreases names@.len() - i,
    {
        if i > 0 {
            out.append(", ");
        }
        let shown = quote(names[i].as_str());
        out.append(shown.as_str());
        assert(all.take(i + 1).drop_last() =~= all.take(i as int));
        i += 1;
        assert(out@ =~= head + quoted_list(all.take(i as int)));
    }
    assert(all.take(i as int) =~= all);
    out.append("}");
    out
}

/// Whether a job is the work for a world whose address leads to a room, before
/// anything is done.
pub open spec fn starts_at(
    job: RoomJob,
    world: WorldFile,
    room: (Seq<char>, Seq<char>, Seq<char>),
) -> bool {
    &&& job.wf()
    &&& job.phase == RoomPhase::Ready
    &&& job.address.url@ == world.address@
    &&& job.address.scheme@ == room.0
    &&& job.address.host@ == room.1
    &&& job.address.room_id@ == room.2
    &&& texts(job.slots@) == active_names(world.slots@)
    &&& job.packages@ == Map::<Seq<char>, GameData>::empty()
    &&& job.missing@ == Seq::<(Istr, String)>::empty()
}

impl RoomJob {
    /// The work for a world, or the error to report where its address is not the
    /// address of a room.
    pub fn new(world: &WorldFile) -> (r: Result<Self, ConnEvent>)
        ensures
            r is Ok && ends_in_path(world.address@) ==> forall|n: nat| #![trigger slashes(n)]
                room_at(world.address@ + slashes(n)) == room_at(world.address@),
            match room_at(world.address@) {
                Ok(room) => r is Ok && starts_at(r->Ok_0, *world, room),
                Err(message) => r is Err && r->Err_0 is Error && r->Err_0->Error_0@ == message,
            },
    {
        let address = match RoomAddress::parse(world.address.as_str()) {
            Ok(address) => address,
            Err(message) => {
                return Err(ConnEvent::Error(message));
            },
        };
        Ok(
            RoomJob {
                phase: RoomPhase::Ready,
                address,
                slots: world.active_slots(),
                tracker_id: String::new(),
                last_port: 0,
                players: Vec::new(),
                listed: Vec::new(),
                packages: PackageStore::new(),
                missing: Vec::new(),
                tables: GameTables::new(),
                search: TextSet::new(),
                entries: Vec::new(),
            },
        )
    }

    fn go_download(&mut self, j: usize) -> (action: RoomAction)
        requires
            old(self).packages.wf(),
            old(self).tables.wf(),
        ensures
            *final(self) == (RoomJob { phase: final(self).phase, ..*old(self) }),
            final(self).wf(),
            at_download(*final(self), j as int, action),
    {
        if j >= self.missing.len() {
            self.phase = RoomPhase::TablesAnnounced;
            return RoomAction::Emit(ConnEvent::Status("Building lookup tables".to_owned()));
        }
        match self.packages.get(&self.missing[j].0) {
            Some(_) => {
                self.phase = RoomPhase::StorePending(j);
                RoomAction::PollCancel
            },
            None => {
                let mut text = "Downloading data package ".to_owned();
                push_decimal(&mut text, j as u64);
                text.append("/");
                push_decimal(&mut text, self.missing.len() as u64);
                text.append(": ");
                text.append(self.missing[j].0.as_ref());
                self.phase = RoomPhase::DownloadAnnounced(j);
                RoomAction::Emit(ConnEvent::Status(text))
            },
        }
    }

    fn go_load(&mut self, i: usize) -> (action: RoomAction)
        requires
            old(self).packages.wf(),
            old(self).tables.wf(),
        ensures
            *final(self) == (RoomJob { phase: final(self).phase, ..*old(self) }),
            final(self).wf(),
            at_load(*final(self), i as int, action),
    {
        if i >= self.listed.len() {
            return self.go_download(0);
        }
        let mut text = "Loading cached data packages ".to_owned();
        push_decimal(&mut text, i as u64);
        text.append("/");
        push_decimal(&mut text, self.listed.len() as u64);
        self.phase = RoomPhase::LoadAnnounced(i);
        RoomAction::Emit(ConnEvent::Status(text))
    }

    fn loaded(&mut self, i: usize, found: Option<GameData>)
        requires
            old(self).wf(),
            i < old(self).listed@.len(),
        ensures
            *final(self) == (RoomJob {
                packages: final(self).packages,
                missing: final(self).missing,
                ..*old(self)
            }),
            final(self).packages.wf(),
            if found is Some && found->Some_0.checksum@ == old(self).listed@[i as int].1.checksum@ {
                &&& final(self).packages@ == old(self).packages@.insert(
                    old(self).listed@[i as int].0@,
                    found->Some_0,
                )
                &&& final(self).missing@ == old(self).missing@
            } else {
                &&& final(self).packages@ == old(self).packages@
                &&& final(self).missing@.len() == old(self).missing@.len() + 1
                &&& final(self).missing@.drop_last() == old(self).missing@
                &&& final(self).missing@.last().0@ == old(self).listed@[i as int].0@
                &&& final(self).missing@.last().1@ == old(self).listed@[i as int].1.checksum@
            },
    {
        if let Some(data) = found {
            if crate::cache::package_is_good(&data, self.listed[i].1.checksum.as_str()) {
                self.packages.insert(&self.listed[i].0, data);
                return ;
            }
        }
        let ghost before = self.missing@;
        self.missing.push((self.listed[i].0.clone(), self.listed[i].1.checksum.clone()));
        assert(self.missing@.drop_last() =~= before);
    }
}

impl RoomJob {
    /// Reports the slot that an entry is about.
    fn report(&mut self, k: usize) -> (action: RoomAction)
        requires
            old(self).packages.wf(),
            old(self).tables.wf(),
            k < old(self).entries@.len(),
            old(self).entries@[k as int].player < old(self).players@.len(),
            old(self).search@.subset_of(texts(old(self).slots@).to_set()),
        ensures
            *final(self) == (RoomJob { phase: final(self).phase, ..*old(self) }),
            final(self).wf(),
            ({
                let items = old(self).entries@[k as int].items@;
                let player = old(self).players@[old(self).entries@[k as int].player as int];
                let names = old(self).tables@[player.1@].0;
                let failure = if !old(self).tables@.contains_key(player.1@) {
                    Some(LookupError::Entry)
                } else {
                    items_failure(old(self).players@, old(self).tables@, names, items)
                };
                match failure {
                    Some(error) => final(self).phase == RoomPhase::Ended && action
                        == RoomAction::Crash(error),
                    None => {
                        &&& final(self).phase == RoomPhase::Reported((k + 1) as usize)
                        &&& action is Emit
                        &&& reports(
                            action->Emit_0,
                            player.0@,
                            resolved_items(old(self).players@, old(self).tables@, names, items),
                        )
                    },
                }
            }),
    {
        let player: usize = self.entries[k].player as usize;
        let names = match self.tables.get(&self.players[player].1) {
            Some(names) => names,
            None => {
                self.phase = RoomPhase::Ended;
                return RoomAction::Crash(LookupError::Entry);
            },
        };
        match resolve_items(&self.players, &self.tables, &names.items, &self.entries[k].items) {
            Ok(items) => {
                let groups = group_items(&items);
                let name = self.players[player].0.as_ref().to_owned();
                assert(k < self.entries.len());
                self.phase = RoomPhase::Reported(k + 1);
                RoomAction::Emit(ConnEvent::SlotData(name, items.len(), groups))
            },
            Err(error) => {
                self.phase = RoomPhase::Ended;
                RoomAction::Crash(error)
            },
        }
    }

    /// Turns to the entries from `from` on.
    fn go_entry(&mut self, from: usize) -> (action: RoomAction)
        requires
            old(self).packages.wf(),
            old(self).tables.wf(),
            from <= old(self).entries@.len(),
            old(self).search@.subset_of(texts(old(self).slots@).to_set()),
        ensures
            *final(self) == (RoomJob {
                phase: final(self).phase,
                search: final(self).search,
                ..*old(self)
            }),
            final(self).wf(),
            at_entry(*final(self), old(self).search@, from as int, action),
    {
        let ghost start = *self;
        let ghost found = resolution(
            self.players@,
            self.tables@,
            self.search@,
            self.entries@,
            from as int,
        );
        let mut k: usize = from;
        while k < self.entries.len()
            invariant
                k <= self.entries@.len(),
                self.packages.wf(),
                self.tables.wf(),
                start.search@.subset_of(texts(start.slots@).to_set()),
                start == *old(self),
                *self == (RoomJob { search: self.search, ..start }),
                self.search@ == start.search@,
                found == resolution(
                    start.players@,
                    start.tables@,
                    start.search@,
                    start.entries@,
                    from as int,
                ),
                found == resolution(
                    self.players@,
                    self.tables@,
                    self.search@,
                    self.entries@,
                    k as int,
                ),
            decreases self.entries@.len() - k,
        {
            let player: usize = self.entries[k].player as usize;
            if player >= self.players.len() {
                let len = self.players.len();
                self.phase = RoomPhase::Ended;
                return RoomAction::Crash(LookupError::Player { index: player, len });
            }
            if self.search.remove(self.players[player].0.as_ref()) {
                return self.report(k);
            }
            assert(self.search@ =~= start.search@);
            k += 1;
        }
        assert(found is NotFound);
        let left = self.search.walk();
        if left.len() > 0 {
            self.phase = RoomPhase::Ended;
            proof {
                assert(texts(left@)[0] == left@[0]@);
                assert(left@.map_values(|s: String| s@)[0] == left@[0]@);
                assert(left@.map_values(|s: String| s@).to_set().contains(left@[0]@));
                assert(walks(left@, start.search@));
            }
            return RoomAction::Fail(ConnEvent::Error(not_found_message(&left)));
        }
        assert(left@.map_values(|s: String| s@) =~= Seq::empty());
        assert(self.search@ =~= Set::empty());
        match self.address.client_address(self.last_port) {
            Ok(address) => {
                self.phase = RoomPhase::DoneAnnounced;
                RoomAction::Emit(ConnEvent::Done(Some(address)))
            },
            Err(message) => {
                self.phase = RoomPhase::Ended;
                RoomAction::Fail(ConnEvent::Error(message))
            },
        }
    }
}

impl RoomJob {
    fn finish(&mut self, action: RoomAction) -> (r: RoomAction)
        requires
            old(self).packages.wf(),
            old(self).tables.wf(),
        ensures
            *final(self) == (RoomJob { phase: RoomPhase::Ended, ..*old(self) }),
            final(self).wf(),
            r == action,
    {
        self.phase = RoomPhase::Ended;
        action
    }

    fn announce(&mut self, phase: RoomPhase, text: &str) -> (action: RoomAction)
        ensures
            *final(self) == (RoomJob { phase, ..*old(self) }),
            announces(action, text@),
    {
        self.phase = phase;
        RoomAction::Emit(ConnEvent::Status(text.to_owned()))
    }

    /// Starts to look for the slots among the entries.
    fn start_search(&mut self, cache: &mut StringCache) -> (action: RoomAction)
        requires
            old(self).packages.wf(),
            old(self).tables.wf(),
            old(cache).wf(),
        ensures
            final(self).wf(),
            final(cache).wf(),
            final(cache)@ == old(cache)@.insert("Server"@).insert("Archipelago"@),
            room_step(
                (RoomJob { phase: RoomPhase::ResolveAnnounced, ..*old(self) }),
                RoomReply::Sent(true),
                *final(self),
                action,
            ),
    {
        let mut search = TextSet::new();
        let ghost all = texts(self.slots@);
        let mut i: usize = 0;
        assert(all.take(0).to_set() =~= Set::empty());
        while i < self.slots.len()
            invariant
                i <= self.slots@.len(),
                all == texts(self.slots@),
                search@ == all.take(i as int).to_set(),
            decreases self.slots@.len() - i,
        {
            search.insert(self.slots[i].as_str());
            assert(all.take(i + 1).to_set() =~= all.take(i as int).to_set().insert(all[i as int]))
                by {
                assert(all.take(i + 1) =~= all.take(i as int).push(all[i as int]));
                all.take(i as int).lemma_push_to_set_commute(all[i as int]);
            }
            i += 1;
        }
        assert(all.take(i as int) =~= all);
        self.search = search;
        let server = Istr::new(cache, "Server");
        let game = Istr::new(cache, "Archipelago");
        let ghost before = self.players@;
        self.players.insert(0, (server, game));
        assert(self.players@.skip(1) =~= before);
        self.go_entry(0)
    }

    /// Takes the reply to the last action, and says what to do next.
    pub fn step(&mut self, cache: &mut StringCache, reply: RoomReply) -> (action: RoomAction)
        requires
            old(self).wf(),
            old(self).expects(reply),
            old(cache).wf(),
        ensures
            final(self).wf(),
            final(cache).wf(),
            final(cache)@ == (if old(self).phase == RoomPhase::ResolveAnnounced && reply
                == RoomReply::Sent(true) {
                old(cache)@.insert("Server"@).insert("Archipelago"@)
            } else {
                old(cache)@
            }),
            room_step(*old(self), reply, *final(self), action),
    {
        match reply {
            RoomReply::Begin => self.announce(RoomPhase::StatusAnnounced, "Fetching room status"),
            RoomReply::Sent(false) => self.finish(
                RoomAction::Fail(ConnEvent::Error("sending on a closed channel".to_owned())),
            ),
            RoomReply::Sent(true) => self.sent(cache),
            RoomReply::Status(Ok(status)) => {
                self.tracker_id = status.tracker;
                self.last_port = status.last_port;
                self.players = status.players;
                self.announce(RoomPhase::ListAnnounced, "Fetching data package list")
            },
            RoomReply::Status(Err(text)) => self.finish(
                RoomAction::Fail(ConnEvent::Error(text)),
            ),
            RoomReply::List(Ok(list)) => {
                self.listed = list.datapackage;
                self.phase = RoomPhase::ListReceived;
                RoomAction::PollCancel
            },
            RoomReply::List(Err(text)) => self.finish(
                RoomAction::Fail(ConnEvent::Error(text)),
            ),
            RoomReply::Cancelled(true) => self.finish(RoomAction::Finish),
            RoomReply::Cancelled(false) => match self.phase {
                RoomPhase::StorePending(j) => {
                    self.phase = RoomPhase::Storing(j);
                    RoomAction::StorePackage(self.missing[j].0.clone())
                },
                _ => self.go_load(0),
            },
            RoomReply::Loaded(found) => match self.phase {
                RoomPhase::LoadRequested(i) => {
                    self.loaded(i, found);
                    assert(i < self.listed.len());
                    self.go_load(i + 1)
                },
                _ => RoomAction::Finish,
            },
            RoomReply::Package(Ok(data)) => match self.phase {
                RoomPhase::DownloadRequested(j) => {
                    self.packages.insert(&self.missing[j].0, data);
                    self.phase = RoomPhase::StorePending(j);
                    RoomAction::PollCancel
                },
                _ => RoomAction::Finish,
            },
            RoomReply::Package(Err(text)) => self.finish(
                RoomAction::Fail(ConnEvent::Error(text)),
            ),
            RoomReply::Stored => match self.phase {
                RoomPhase::Storing(j) => {
                    assert(j < self.missing.len());
                    self.go_download(j + 1)
                },
                _ => RoomAction::Finish,
            },
            RoomReply::Tracker(Ok(tracker)) => {
                self.entries = tracker.player_items_received;
                self.announce(RoomPhase::ResolveAnnounced, "Resolving items")
            },
            RoomReply::Tracker(Err(text)) => self.finish(
                RoomAction::Fail(ConnEvent::Error(text)),
            ),
        }
    }

    /// Goes on after an event has been sent.
    fn sent(&mut self, cache: &mut StringCache) -> (action: RoomAction)
        requires
            old(self).wf(),
            old(self).expects(RoomReply::Sent(true)),
            old(cache).wf(),
        ensures
            final(self).wf(),
            final(cache).wf(),
            final(cache)@ == (if old(self).phase == RoomPhase::ResolveAnnounced {
                old(cache)@.insert("Server"@).insert("Archipelago"@)
            } else {
                old(cache)@
            }),
            room_step(*old(self), RoomReply::Sent(true), *final(self), action),
    {
        match self.phase {
            RoomPhase::StatusAnnounced => {
                self.phase = RoomPhase::StatusRequested;
                RoomAction::FetchStatus(
                    self.address.api_url("room_status", self.address.room_id.as_str()),
                )
            },
            RoomPhase::ListAnnounced => {
                self.phase = RoomPhase::ListRequested;
                RoomAction::FetchList(
                    self.address.api_url("static_tracker", self.tracker_id.as_str()),
                )
            },
            RoomPhase::LoadAnnounced(i) => {
                self.phase = RoomPhase::LoadRequested(i);
                RoomAction::LoadPackage(
                    self.listed[i].0.clone(),
                    self.listed[i].1.checksum.clone(),
                )
            },
            RoomPhase::DownloadAnnounced(j) => {
                self.phase = RoomPhase::DownloadRequested(j);
                RoomAction::FetchPackage(
                    self.address.api_url("datapackage", self.missing[j].1.as_str()),
                )
            },
            RoomPhase::TablesAnnounced => {
                let mut packages = PackageStore::new();
                std::mem::swap(&mut packages, &mut self.packages);
                self.tables = GameTables::build(packages);
                self.announce(RoomPhase::TrackerAnnounced, "Fetching tracker data")
            },
            RoomPhase::TrackerAnnounced => {
                self.phase = RoomPhase::TrackerRequested;
                RoomAction::FetchTracker(
                    self.address.api_url("tracker", self.tracker_id.as_str()),
                )
            },
            RoomPhase::ResolveAnnounced => self.start_search(cache),
            RoomPhase::Reported(k) => self.go_entry(k),
            _ => self.finish(RoomAction::Finish),
        }
    }
}

/// Starts to work on the room that the address of a world leads to: the job and
/// its first action. Where the address leads to no room, nothing but the error is
/// to be reported. Slashes at the end of the address make no difference.
pub fn connect(world: &WorldFile, cache: &mut StringCache) -> (r: Result<
    (RoomJob, RoomAction),
    ConnEvent,
>)
    requires
        old(cache).wf(),
    ensures
        final(cache).wf(),
        final(cache)@ == old(cache)@,
        match room_at(world.address@) {
            Ok(room) => {
                &&& r is Ok
                &&& r->Ok_0.0.wf()
                &&& announces(r->Ok_0.1, "Fetching room status"@)
                &&& exists|start: RoomJob| #[trigger]
                    starts_at(start, *world, room) && room_step(
                        start,
                        RoomReply::Begin,
                        r->Ok_0.0,
                        r->Ok_0.1,
                    )
            },
            Err(message) => r is Err && r->Err_0 is Error && r->Err_0->Error_0@ == message,
        },
        r is Ok && ends_in_path(world.address@) ==> forall|n: nat| #![trigger slashes(n)]
            room_at(world.address@ + slashes(n)) == room_at(world.address@),
{
    match RoomJob::new(world) {
        Ok(job) => {
            let mut job = job;
            let ghost start = job;
            let action = job.step(cache, RoomReply::Begin);
            assert(starts_at(start, *world, room_at(world.address@)->Ok_0));
            Ok((job, action))
        },
        Err(error) => Err(error),
    }
}

/// An entry that is found is not before `k`, and its slot is asked for.
proof fn lemma_found(
    players: Seq<(Istr, Istr)>,
    tables: AllNames,
    search: Set<Seq<char>>,
    entries: Seq<PlayerItemsReceived>,
    k: int,
)
    requires
        0 <= k,
    ensures
        resolution(players, tables, search, entries, k) matches Resolution::Found(at) ==> {
            &&& k <= at < entries.len()
            &&& entries[at].player < players.len()
            &&& search.contains(players[entries[at].player as int].0@)
        },
    decreases entries.len() - k,
{
    if k < entries.len() {
        lemma_found(players, tables, search, entries, k + 1);
    }
}

/// Only slots that were asked for are reported, and no slot is reported twice:
/// once reported, it is looked for no more.
pub proof fn law_slot_reported_once(
    pre: RoomJob,
    reply: RoomReply,
    post: RoomJob,
    action: RoomAction,
)
    requires
        pre.wf(),
        pre.expects(reply),
        room_step(pre, reply, post, action),
        action is Emit,
        action->Emit_0 is SlotData,
    ensures
        texts(pre.slots@).contains(action->Emit_0->SlotData_0@),
        pre.phase is Reported ==> pre.search@.contains(action->Emit_0->SlotData_0@),
        !post.search@.contains(action->Emit_0->SlotData_0@),
        pre.phase is Reported ==> post.search@.subset_of(pre.search@),
{
    match pre.phase {
        RoomPhase::ResolveAnnounced => {
            lemma_found(
                post.players@,
                post.tables@,
                texts(pre.slots@).to_set(),
                post.entries@,
                0,
            );
        },
        RoomPhase::Reported(k) => {
            lemma_found(post.players@, post.tables@, pre.search@, post.entries@, k as int);
        },
        _ => {},
    }
}

/// The end is announced only when every slot that was asked for has been
/// found.
pub proof fn law_done_means_all_found(
    pre: RoomJob,
    reply: RoomReply,
    post: RoomJob,
    action: RoomAction,
)
    requires
        pre.wf(),
        pre.expects(reply),
        room_step(pre, reply, post, action),
        action is Emit,
        action->Emit_0 is Done,
    ensures
        pre.phase is Reported ==> pre.search@ == Set::<Seq<char>>::empty(),
        !(pre.phase is Reported) ==> pre.phase is ResolveAnnounced && pre.slots@.len() == 0,
{
    if pre.phase is ResolveAnnounced {
        if pre.slots@.len() > 0 {
            assert(texts(pre.slots@)[0] == pre.slots@[0]@);
            assert(texts(pre.slots@).to_set().contains(pre.slots@[0]@));
        }
    }
}

/// A data package that the cache holds under another checksum is downloaded,
/// and one that it holds under the right checksum is not.
pub proof fn law_cached_package_used(
    pre: RoomJob,
    found: GameData,
    post: RoomJob,
    action: RoomAction,
)
    requires
        pre.wf(),
        pre.phase is LoadRequested,
        room_step(pre, RoomReply::Loaded(Some(found)), post, action),
    ensures
        ({
            let entry = pre.listed@[pre.phase->LoadRequested_0 as int];
            if found.checksum@ == entry.1.checksum@ {
                &&& post.packages@ == pre.packages@.insert(entry.0@, found)
                &&& post.missing@ == pre.missing@
            } else {
                &&& post.packages@ == pre.packages@
                &&& post.missing@.len() == pre.missing@.len() + 1
                &&& post.missing@.drop_last() == pre.missing@
                &&& post.missing@.last().0@ == entry.0@
                &&& post.missing@.last().1@ == entry.1.checksum@
            }
        }),
{
}

/// Whether each job comes from the one before it by a step with a reply that it
/// expects, and the actions are those of the steps.
pub open spec fn room_run(
    jobs: Seq<RoomJob>,
    replies: Seq<RoomReply>,
    actions: Seq<RoomAction>,
) -> bool {
    &&& jobs.len() == actions.len() + 1
    &&& replies.len() == actions.len()
    &&& forall|i: int|
        0 <= i < actions.len() ==> {
            &&& jobs[i].wf()
            &&& jobs[i].expects(replies[i])
            &&& room_step(jobs[i], replies[i], jobs[i + 1], #[trigger] actions[i])
        }
}

/// Whether an action reports a slot with the items of an entry about it, as the
/// job resolves them.
pub open spec fn reports_slot(job: RoomJob, action: RoomAction, name: Seq<char>) -> bool {
    &&& action is Emit
    &&& exists|at: int|
        0 <= at < job.entries@.len() && reports_entry(
            job,
            action->Emit_0,
            name,
            #[trigger] job.entries@[at],
        )
}

/// Whether an event reports a slot with the items of an entry about it.
pub open spec fn reports_entry(
    job: RoomJob,
    event: ConnEvent,
    name: Seq<char>,
    entry: PlayerItemsReceived,
) -> bool {
    let player = job.players@[entry.player as int];
    &&& entry.player < job.players@.len()
    &&& player.0@ == name
    &&& reports(
        event,
        name,
        resolved_items(job.players@, job.tables@, job.tables@[player.1@].0, entry.items@),
    )
}

/// Whether one of the first `n` steps reports a slot.
pub open spec fn reported(
    jobs: Seq<RoomJob>,
    actions: Seq<RoomAction>,
    name: Seq<char>,
    n: int,
) -> bool {
    exists|i: int| 0 <= i < n && reports_slot(jobs[i + 1], #[trigger] actions[i], name)
}

/// A slot that is looked for no more after a step has been reported in it.
proof fn lemma_reported_now(
    pre: RoomJob,
    reply: RoomReply,
    post: RoomJob,
    action: RoomAction,
    name: Seq<char>,
)
    requires
        pre.wf(),
        pre.expects(reply),
        room_step(pre, reply, post, action),
        post.phase is Reported,
        pre.phase is Reported ==> pre.search@.contains(name),
        texts(pre.slots@).contains(name),
        !post.search@.contains(name),
    ensures
        reports_slot(post, action, name),
{
    let (search, k) = match pre.phase {
        RoomPhase::Reported(k) => (pre.search@, k as int),
        _ => (texts(pre.slots@).to_set(), 0),
    };
    lemma_found(post.players@, post.tables@, search, post.entries@, k);
    let found = resolution(post.players@, post.tables@, search, post.entries@, k);
    assert(found is Found);
    let entry = post.entries@[found->Found_0];
    assert(reports_entry(post, action->Emit_0, name, entry));
}

/// After `n` steps of a run the slots are the same, and every slot that was asked
/// for is still looked for or has been reported.
proof fn lemma_run(
    jobs: Seq<RoomJob>,
    replies: Seq<RoomReply>,
    actions: Seq<RoomAction>,
    name: Seq<char>,
    n: int,
)
    requires
        room_run(jobs, replies, actions),
        jobs[0].phase == RoomPhase::Ready,
        texts(jobs[0].slots@).contains(name),
        0 <= n <= actions.len(),
    ensures
        jobs[n].slots == jobs[0].slots,
        jobs[n].phase is Reported ==> jobs[n].search@.contains(name) || reported(
            jobs,
            actions,
            name,
            n,
        ),
    decreases n,
{
    if n > 0 {
        lemma_run(jobs, replies, actions, name, n - 1);
        let pre = jobs[n - 1];
        let post = jobs[n];
        let action = actions[n - 1];
        assert(room_step(pre, replies[n - 1], post, action));
        if post.phase is Reported && !post.search@.contains(name) {
            if pre.phase is Reported && !pre.search@.contains(name) {
                assert(reported(jobs, actions, name, n - 1));
            } else {
                lemma_reported_now(pre, replies[n - 1], post, action, name);
                assert(reports_slot(jobs[n - 1 + 1], action, name));
            }
        }
    }
}

/// When the end is announced, every slot that was asked for has been reported,
/// with the items that an entry about it stands for.
pub proof fn law_all_slots_reported(
    jobs: Seq<RoomJob>,
    replies: Seq<RoomReply>,
    actions: Seq<RoomAction>,
    name: Seq<char>,
)
    requires
        room_run(jobs, replies, actions),
        jobs[0].phase == RoomPhase::Ready,
        texts(jobs[0].slots@).contains(name),
        actions.len() > 0,
        actions.last() is Emit,
        actions.last()->Emit_0 is Done,
    ensures
        reported(jobs, actions, name, actions.len() as int),
{
    let n = actions.len() - 1;
    lemma_run(jobs, replies, actions, name, n);
    assert(room_step(jobs[n], replies[n], jobs[n + 1], actions[n]));
    law_done_means_all_found(jobs[n], replies[n], jobs[n + 1], actions[n]);
}

/// Once a slot has been reported, it is looked for no more.
proof fn lemma_not_looked_for(
    jobs: Seq<RoomJob>,
    replies: Seq<RoomReply>,
    actions: Seq<RoomAction>,
    i: int,
    n: int,
)
    requires
        room_run(jobs, replies, actions),
        0 <= i < n <= actions.len(),
        actions[i] is Emit,
        actions[i]->Emit_0 is SlotData,
    ensures
        jobs[n].phase is Reported || jobs[n].phase == RoomPhase::DoneAnnounced || jobs[n].phase
            == RoomPhase::Ended,
        jobs[n].phase is Reported ==> !jobs[n].search@.contains(actions[i]->Emit_0->SlotData_0@),
    decreases n,
{
    let pre = jobs[n - 1];
    assert(room_step(pre, replies[n - 1], jobs[n], actions[n - 1]));
    if n - 1 == i {
        law_slot_reported_once(pre, replies[i], jobs[n], actions[i]);
    } else {
        lemma_not_looked_for(jobs, replies, actions, i, n - 1);
    }
}

/// No slot is reported twice.
pub proof fn law_no_slot_reported_again(
    jobs: Seq<RoomJob>,
    replies: Seq<RoomReply>,
    actions: Seq<RoomAction>,
    i: int,
    j: int,
)
    requires
        room_run(jobs, replies, actions),
        0 <= i < j < actions.len(),
        actions[i] is Emit,
        actions[i]->Emit_0 is SlotData,
        actions[j] is Emit,
        actions[j]->Emit_0 is SlotData,
    ensures
        actions[i]->Emit_0->SlotData_0@ != actions[j]->Emit_0->SlotData_0@,
{
    lemma_not_looked_for(jobs, replies, actions, i, j);
    assert(room_step(jobs[j], replies[j], jobs[j + 1], actions[j]));
    law_slot_reported_once(jobs[j], replies[j], jobs[j + 1], actions[j]);
}

/// Whether an action is the last report of a worker: the end, or an error.
pub open spec fn last_report(action: RoomAction) -> bool {
    action is Fail || (action is Emit && action->Emit_0 is Done)
}

/// An error is reported only where the worker stops, an error is all that is
/// reported then, and after the end it only remains to stop.
pub proof fn law_how_a_step_ends(
    pre: RoomJob,
    reply: RoomReply,
    post: RoomJob,
    action: RoomAction,
)
    requires
        pre.wf(),
        pre.expects(reply),
        room_step(pre, reply, post, action),
    ensures
        (post.phase == RoomPhase::Ended) == (action is Fail || action is Finish || action is Crash),
        (post.phase == RoomPhase::DoneAnnounced) == (action is Emit && action->Emit_0 is Done),
        action is Emit ==> !(action->Emit_0 is Error),
        action is Fail ==> action->Fail_0 is Error,
        pre.phase == RoomPhase::DoneAnnounced && reply == RoomReply::Sent(true) ==> action is Finish,
{
}

/// While there is someone to report to, at most one of the end and an error is
/// reported, and nothing is reported after it: after an error there is no
/// further action, and after the end only that of stopping.
pub proof fn law_one_last_report(
    jobs: Seq<RoomJob>,
    replies: Seq<RoomReply>,
    actions: Seq<RoomAction>,
    i: int,
    j: int,
)
    requires
        room_run(jobs, replies, actions),
        forall|k: int|
            0 <= k < replies.len() ==> #[trigger] replies[k] != RoomReply::Sent(false),
        0 <= i < j < actions.len(),
        last_report(actions[i]),
    ensures
        actions[i] is Emit,
        j == i + 1,
        j == actions.len() - 1,
        actions[j] is Finish,
{
    assert(room_step(jobs[i], replies[i], jobs[i + 1], actions[i]));
    law_how_a_step_ends(jobs[i], replies[i], jobs[i + 1], actions[i]);
    assert(room_step(jobs[i + 1], replies[i + 1], jobs[i + 2], actions[i + 1]));
    assert(replies[i + 1] != RoomReply::Sent(false));
    law_how_a_step_ends(jobs[i + 1], replies[i + 1], jobs[i + 2], actions[i + 1]);
    if i + 2 < actions.len() {
        assert(room_step(jobs[i + 2], replies[i + 2], jobs[i + 3], actions[i + 2]));
    }
}

/// A worker that stops without an error, and was not cancelled, has reported the
/// end just before.
pub proof fn law_an_end_is_reported(
    jobs: Seq<RoomJob>,
    replies: Seq<RoomReply>,
    actions: Seq<RoomAction>,
)
    requires
        room_run(jobs, replies, actions),
        jobs[0].phase == RoomPhase::Ready,
        forall|k: int|
            0 <= k < replies.len() ==> #[trigger] replies[k] != RoomReply::Cancelled(true),
        actions.len() > 0,
        actions.last() is Finish,
    ensures
        actions.len() > 1,
        actions[actions.len() - 2] is Emit,
        actions[actions.len() - 2]->Emit_0 is Done,
{
    let n = actions.len() - 1;
    assert(room_step(jobs[n], replies[n], jobs[n + 1], actions[n]));
    assert(replies[n] != RoomReply::Cancelled(true));
    assert(jobs[n].phase == RoomPhase::DoneAnnounced);
    assert(room_step(jobs[n - 1], replies[n - 1], jobs[n], actions[n - 1]));
    law_how_a_step_ends(jobs[n - 1], replies[n - 1], jobs[n], actions[n - 1]);
}

/// What an entry of the resolved tracker is about, and that it can be resolved.
proof fn lemma_found_known(
    players: Seq<(Istr, Istr)>,
    tables: AllNames,
    search: Set<Seq<char>>,
    entries: Seq<PlayerItemsReceived>,
    k: int,
)
    requires
        0 <= k,
    ensures
        resolution(players, tables, search, entries, k) matches Resolution::Found(at) ==> {
            let player = players[entries[at].player as int];
            &&& k <= at < entries.len()
            &&& entries[at].player < players.len()
            &&& search.contains(player.0@)
            &&& tables.contains_key(player.1@)
            &&& forall|i: int|
                0 <= i < entries[at].items@.len() ==> all_known(
                    players,
                    tables,
                    tables[player.1@].0,
                    #[trigger] entries[at].items@[i],
                )
            &&& forall|i: int|
                k <= i < at ==> (#[trigger] entries[i]).player < players.len() && !search.contains(
                    players[entries[i].player as int].0@,
                )
        },
    decreases entries.len() - k,
{
    if k < entries.len() {
        lemma_found_known(players, tables, search, entries, k + 1);
        let entry = entries[k];
        if entry.player < players.len() && search.contains(players[entry.player as int].0@) {
            let player = players[entry.player as int];
            if tables.contains_key(player.1@) {
                lemma_failure(players, tables, tables[player.1@].0, entry.items@);
            }
        }
    }
}

/// A report of a slot is the inventory that the numbers of one entry make: the
/// entry of the player with that name, read with the tables of the player's game.
/// It is the first entry from the one on that the job had come to whose player is
/// looked for.
pub proof fn law_report_is_the_entrys_inventory(
    job: &mut RoomJob,
    cache: &mut StringCache,
    reply: RoomReply,
    name: String,
    total: usize,
    groups: Vec<SlotItemGroup>,
)
    requires
        old(job).wf(),
        old(job).expects(reply),
        call_ensures(
            RoomJob::step,
            (job, cache, reply),
            RoomAction::Emit(ConnEvent::SlotData(name, total, groups)),
        ),
    ensures
        final(job).entries@ == old(job).entries@,
        final(job).tables@ == old(job).tables@,
        exists|at: int|
            0 <= at < old(job).entries@.len() && {
                let entry = #[trigger] old(job).entries@[at];
                let players = final(job).players@;
                let game = players[entry.player as int].1@;
                &&& entry.player < players.len()
                &&& players[entry.player as int].0@ == name@
                &&& total == entry.items@.len()
                &&& final(job).tables@.contains_key(game)
                &&& inventory_of(
                    players,
                    final(job).tables@,
                    final(job).tables@[game].0,
                    entry.items@,
                    groups@,
                )
                &&& forall|i: int|
                    0 <= i < entry.items@.len() ==> all_known(
                        players,
                        final(job).tables@,
                        final(job).tables@[game].0,
                        #[trigger] entry.items@[i],
                    )
                &&& final(job).phase == RoomPhase::Reported((at + 1) as usize)
            },
{
    let pre = *old(job);
    let post = *final(job);
    let (search, k) = match pre.phase {
        RoomPhase::Reported(k) => (pre.search@, k as int),
        _ => (texts(pre.slots@).to_set(), 0),
    };
    lemma_found_known(post.players@, post.tables@, search, post.entries@, k);
    let found = resolution(post.players@, post.tables@, search, post.entries@, k);
    assert(found is Found);
    let at = found->Found_0;
    let entry = post.entries@[at];
    let game = post.players@[entry.player as int].1@;
    lemma_inventory_of(
        post.players@,
        post.tables@,
        post.tables@[game].0,
        entry.items@,
        groups@,
    );
    assert(entry == old(job).entries@[at]);
}

/// The players of a tracker are numbered from one on in the order of the room's
/// list; the number zero is the server's.
pub proof fn law_server_comes_first(
    job: &mut RoomJob,
    cache: &mut StringCache,
    action: RoomAction,
)
    requires
        old(job).wf(),
        old(job).phase == RoomPhase::ResolveAnnounced,
        call_ensures(RoomJob::step, (job, cache, RoomReply::Sent(true)), action),
    ensures
        final(job).players@.len() == old(job).players@.len() + 1,
        final(job).players@[0].0@ == "Server"@,
        final(job).players@[0].1@ == "Archipelago"@,
        forall|i: int|
            0 <= i < old(job).players@.len() ==> final(job).players@[i + 1] == (
            #[trigger] old(job).players@[i]),
{
    assert forall|i: int| 0 <= i < old(job).players@.len() implies final(job).players@[i + 1] == (
    #[trigger] old(job).players@[i]) by {
        assert(final(job).players@.skip(1)[i] == final(job).players@[i + 1]);
    }
}

/// The lookup tables are those of the packages: of the games that there are
/// packages of, items by the list of items and locations by that of locations.
pub proof fn law_tables_are_those_of_the_packages(
    job: &mut RoomJob,
    cache: &mut StringCache,
    action: RoomAction,
    game: Seq<char>,
    id: i64,
)
    requires
        old(job).wf(),
        old(job).phase == RoomPhase::TablesAnnounced,
        call_ensures(RoomJob::step, (job, cache, RoomReply::Sent(true)), action),
    ensures
        final(job).tables@.contains_key(game) == old(job).packages@.contains_key(game),
        final(job).tables@.contains_key(game) ==> {
            let items = old(job).packages@[game].item_name_to_id@;
            let locations = old(job).packages@[game].location_name_to_id@;
            let names = final(job).tables@[game];
            &&& names.0.contains_key(id) ==> lists_name(items, id, names.0[id])
            &&& !names.0.contains_key(id) ==> forall|i: int|
                0 <= i < items.len() ==> (#[trigger] items[i]).1 != id
            &&& names.1.contains_key(id) ==> lists_name(locations, id, names.1[id])
            &&& !names.1.contains_key(id) ==> forall|i: int|
                0 <= i < locations.len() ==> (#[trigger] locations[i]).1 != id
        },
{
    if old(job).packages@.contains_key(game) {
        lemma_names_by_id(old(job).packages@[game].item_name_to_id@, id);
        lemma_names_by_id(old(job).packages@[game].location_name_to_id@, id);
    }
}

/// What the host or the network complains about is what is reported, word by
/// word; a user who cancels gets no report; and where nobody listens any more,
/// the worker stops.
pub proof fn law_how_failures_are_reported(
    job: &mut RoomJob,
    cache: &mut StringCache,
    reply: RoomReply,
    action: RoomAction,
)
    requires
        old(job).wf(),
        old(job).expects(reply),
        call_ensures(RoomJob::step, (job, cache, reply), action),
    ensures
        match reply {
            RoomReply::Status(Err(text)) => action == RoomAction::Fail(ConnEvent::Error(text)),
            RoomReply::List(Err(text)) => action == RoomAction::Fail(ConnEvent::Error(text)),
            RoomReply::Package(Err(text)) => action == RoomAction::Fail(ConnEvent::Error(text)),
            RoomReply::Tracker(Err(text)) => action == RoomAction::Fail(ConnEvent::Error(text)),
            RoomReply::Cancelled(true) => action is Finish,
            RoomReply::Sent(false) => action is Fail && action->Fail_0 is Error
                && action->Fail_0->Error_0@ == "sending on a closed channel"@,
            RoomReply::Status(Ok(_)) | RoomReply::List(Ok(_)) | RoomReply::Package(Ok(_))
            | RoomReply::Tracker(Ok(_)) | RoomReply::Cancelled(false) | RoomReply::Loaded(_)
            | RoomReply::Stored => !(action is Fail) && !(action is Finish) && !(action is Crash),
            _ => true,
        },
        action is Fail || action is Crash || action is Finish ==> final(job).phase
            == RoomPhase::Ended,
        action is Crash ==> reply == RoomReply::Sent(true) && (old(job).phase is ResolveAnnounced
            || old(job).phase is Reported),
{
}

/// Whether an action reports exactly this status.
pub open spec fn says_status(action: RoomAction, text: Seq<char>) -> bool {
    match action {
        RoomAction::Emit(ConnEvent::Status(said)) => said@ == text,
        _ => false,
    }
}

/// What is said while the worker goes on.
pub proof fn law_what_is_announced(
    job: &mut RoomJob,
    cache: &mut StringCache,
    reply: RoomReply,
    action: RoomAction,
)
    requires
        old(job).wf(),
        old(job).expects(reply),
        call_ensures(RoomJob::step, (job, cache, reply), action),
    ensures
        match final(job).phase {
            RoomPhase::StatusAnnounced => says_status(action, "Fetching room status"@),
            RoomPhase::ListAnnounced => says_status(action, "Fetching data package list"@),
            RoomPhase::LoadAnnounced(i) => says_status(
                action,
                "Loading cached data packages "@ + decimal(i as nat) + "/"@ + decimal(
                    final(job).listed@.len(),
                ),
            ),
            RoomPhase::DownloadAnnounced(j) => says_status(
                action,
                "Downloading data package "@ + decimal(j as nat) + "/"@ + decimal(
                    final(job).missing@.len(),
                ) + ": "@ + final(job).missing@[j as int].0@,
            ),
            RoomPhase::TablesAnnounced => says_status(action, "Building lookup tables"@),
            RoomPhase::TrackerAnnounced => says_status(action, "Fetching tracker data"@),
            RoomPhase::ResolveAnnounced => says_status(action, "Resolving items"@),
            _ => true,
        },
        action is Emit && action->Emit_0 is Status ==> final(job).phase is StatusAnnounced
            || final(job).phase is ListAnnounced || final(job).phase is LoadAnnounced
            || final(job).phase is DownloadAnnounced || final(job).phase is TablesAnnounced
            || final(job).phase is TrackerAnnounced || final(job).phase is ResolveAnnounced,
{
    assert(final(job).listed.len() <= usize::MAX);
    assert(final(job).missing.len() <= usize::MAX);
}

/// One more name in the complaint about slots that were not found is one more
/// quoted name behind the others.
pub proof fn law_complaint_names_all(
    names: &Vec<String>,
    more: &Vec<String>,
    a: String,
    b: String,
)
    requires
        more@.len() == names@.len() + 1,
        more@.drop_last() == names@,
        call_ensures(not_found_message, (names,), a),
        call_ensures(not_found_message, (more,), b),
    ensures
        names@.len() == 0 ==> a@ == "Some slots were not found: {"@ + "}"@,
        b@ == a@.drop_last() + (if names@.len() == 0 {
            ""@
        } else {
            ", "@
        }) + quoted(more@.last()@) + "}"@,
{
    let x = texts(names@);
    let y = texts(more@);
    let head = "Some slots were not found: {"@;
    reveal_strlit("}");
    reveal_strlit("");
    assert(y.drop_last() =~= x);
    assert(y.last() == more@.last()@);
    assert(a@.drop_last() =~= head + quoted_list(x));
    if names@.len() == 0 {
        assert(quoted_list(x) =~= Seq::<char>::empty());
        assert(a@ =~= head + "}"@);
        assert(b@ =~= a@.drop_last() + ""@ + quoted(more@.last()@) + "}"@);
    } else {
        assert(b@ =~= a@.drop_last() + ", "@ + quoted(more@.last()@) + "}"@);
    }
}

/// A refresh begins with the room that the world's address leads to and with the
/// active slots of the world, in their order, and with no package at hand; or it
/// does not begin, and says why.
pub proof fn law_refresh_begins(
    world: &WorldFile,
    names: Vec<String>,
    room: Result<RoomAddress, String>,
    address: &str,
    job: Result<RoomJob, ConnEvent>,
    cache: &mut StringCache,
    started: Result<(RoomJob, RoomAction), ConnEvent>,
)
    requires
        address@ == world.address@,
        call_ensures(WorldFile::active_slots, (world,), names),
        call_ensures(RoomAddress::parse, (address,), room),
        call_ensures(RoomJob::new, (world,), job),
        old(cache).wf(),
        call_ensures(connect, (world, cache), started),
    ensures
        job is Ok == room is Ok,
        started is Ok == room is Ok,
        room is Err ==> job->Err_0 is Error && job->Err_0->Error_0@ == room->Err_0@
            && started->Err_0 is Error && started->Err_0->Error_0@ == room->Err_0@,
        room is Ok ==> {
            let begun = job->Ok_0;
            &&& begun.phase is Ready
            &&& begun.address.url@ == world.address@
            &&& begun.address.scheme@ == room->Ok_0.scheme@
            &&& begun.address.host@ == room->Ok_0.host@
            &&& begun.address.room_id@ == room->Ok_0.room_id@
            &&& begun.slots@.len() == names@.len()
            &&& forall|i: int|
                0 <= i < names@.len() ==> (#[trigger] begun.slots@[i])@ == names@[i]@
            &&& begun.missing@.len() == 0
            &&& forall|game: Seq<char>| !(#[trigger] begun.packages@.contains_key(game))
            &&& started->Ok_0.0.phase is StatusAnnounced
            &&& started->Ok_0.0.address.url@ == world.address@
            &&& started->Ok_0.0.address.room_id@ == room->Ok_0.room_id@
            &&& says_status(started->Ok_0.1, "Fetching room status"@)
            &&& started->Ok_0.0.slots@.len() == names@.len()
            &&& forall|i: int|
                0 <= i < names@.len() ==> (#[trigger] started->Ok_0.0.slots@[i])@ == names@[i]@
        },
{
    if room is Ok {
        let start = choose|start: RoomJob| #[trigger]
            starts_at(start, *world, room_at(world.address@)->Ok_0) && room_step(
                start,
                RoomReply::Begin,
                started->Ok_0.0,
                started->Ok_0.1,
            );
        let own = texts(names@);
        assert(own.len() == names@.len());
        assert(texts(job->Ok_0.slots@).len() == job->Ok_0.slots@.len());
        assert(texts(start.slots@).len() == start.slots@.len());
        assert forall|i: int| 0 <= i < names@.len() implies (#[trigger] job->Ok_0.slots@[i])@
            == names@[i]@ by {
            assert(texts(job->Ok_0.slots@)[i] == own[i]);
            assert(own[i] == names@[i]@);
        }
        assert forall|i: int| 0 <= i < names@.len() implies (
        #[trigger] started->Ok_0.0.slots@[i])@ == names@[i]@ by {
            assert(texts(start.slots@)[i] == own[i]);
            assert(own[i] == names@[i]@);
        }
    }
}

/// Whether an entry is passed over: it is about a player of the room who is not
/// looked for.
pub open spec fn passed_over(
    players: Seq<(Istr, Istr)>,
    search: Set<Seq<char>>,
    entry: PlayerItemsReceived,
) -> bool {
    entry.player < players.len() && !search.contains(players[entry.player as int].0@)
}

/// Where the entries from `k` on stop to be passed over.
spec fn stop_at(
    players: Seq<(Istr, Istr)>,
    search: Set<Seq<char>>,
    entries: Seq<PlayerItemsReceived>,
    k: int,
) -> int
    decreases entries.len() - k,
{
    if k < 0 || k >= entries.len() || !passed_over(players, search, entries[k]) {
        k
    } else {
        stop_at(players, search, entries, k + 1)
    }
}

proof fn lemma_stop_at(
    players: Seq<(Istr, Istr)>,
    tables: AllNames,
    search: Set<Seq<char>>,
    entries: Seq<PlayerItemsReceived>,
    k: int,
)
    requires
        0 <= k <= entries.len(),
    ensures
        ({
            let at = stop_at(players, search, entries, k);
            &&& k <= at <= entries.len()
            &&& forall|i: int|
                k <= i < at ==> passed_over(players, search, #[trigger] entries[i])
            &&& at < entries.len() ==> !passed_over(players, search, entries[at])
            &&& resolution(players, tables, search, entries, k) == resolution(
                players,
                tables,
                search,
                entries,
                at,
            )
        }),
    decreases entries.len() - k,
{
    if k < entries.len() && passed_over(players, search, entries[k]) {
        lemma_stop_at(players, tables, search, entries, k + 1);
    }
}

/// Whether an action is what the entry that is not passed over leads to: the
/// report of its player, or a crash where it or one of its items refers to what
/// is not known.
pub open spec fn entry_decides(
    players: Seq<(Istr, Istr)>,
    tables: AllNames,
    entry: PlayerItemsReceived,
    action: RoomAction,
) -> bool {
    let player = players[entry.player as int];
    if entry.player >= players.len() {
        action == RoomAction::Crash(
            LookupError::Player { index: entry.player as usize, len: players.len() as usize },
        )
    } else if !tables.contains_key(player.1@) {
        action == RoomAction::Crash(LookupError::Entry)
    } else if forall|i: int|
        0 <= i < entry.items@.len() ==> all_known(
            players,
            tables,
            tables[player.1@].0,
            #[trigger] entry.items@[i],
        ) {
        match action {
            RoomAction::Emit(ConnEvent::SlotData(name, total, groups)) => name@ == player.0@
                && total == entry.items@.len() && inventory_of(
                players,
                tables,
                tables[player.1@].0,
                entry.items@,
                groups@,
            ),
            _ => false,
        }
    } else {
        exists|i: int|
            0 <= i < entry.items@.len() && !all_known(
                players,
                tables,
                tables[player.1@].0,
                #[trigger] entry.items@[i],
            ) && action == RoomAction::Crash(
                if entry.items@[i].2 < players.len() {
                    LookupError::Entry
                } else {
                    LookupError::Player {
                        index: entry.items@[i].2 as usize,
                        len: players.len() as usize,
                    }
                },
            ) && forall|j: int|
                0 <= j < i ==> all_known(
                    players,
                    tables,
                    tables[player.1@].0,
                    #[trigger] entry.items@[j],
                )
    }
}

/// Whether an action is what the end of the entries leads to: the end where all
/// slots have been found, and else the complaint about exactly those that have not.
pub open spec fn end_decides(job: RoomJob, left: Set<Seq<char>>, action: RoomAction) -> bool {
    if forall|name: Seq<char>| !(#[trigger] left.contains(name)) {
        match parsed_url(job.address.url@) {
            Ok(_) => action is Emit && action->Emit_0 is Done,
            Err(message) => action is Fail && action->Fail_0 is Error
                && action->Fail_0->Error_0@ == message,
        }
    } else {
        exists|names: Seq<String>|
            #![trigger names.len()]
            action is Fail && action->Fail_0 is Error && action->Fail_0->Error_0@
                == "Some slots were not found: {"@ + quoted_list(texts(names)) + "}"@ && (forall|
                i: int,
            |
                0 <= i < names.len() ==> left.contains((#[trigger] names[i])@)) && (forall|
                name: Seq<char>,
            | #[trigger]
                left.contains(name) ==> exists|i: int|
                    0 <= i < names.len() && (#[trigger] names[i])@ == name) && (forall|
                i: int,
                j: int,
            |
                0 <= i < j < names.len() ==> (#[trigger] names[i])@ != (#[trigger] names[j])@)
    }
}

/// How the entries of a tracker are worked through: from the one on that the job
/// had come to, entries about players who are not looked for are passed over, and
/// the first other one decides, or the end of the entries. At first all slots are
/// looked for, and a slot that has been reported is looked for no more.
pub proof fn law_how_entries_are_worked_through(
    job: &mut RoomJob,
    cache: &mut StringCache,
    action: RoomAction,
)
    requires
        old(job).wf(),
        old(job).phase is ResolveAnnounced || old(job).phase is Reported,
        call_ensures(RoomJob::step, (job, cache, RoomReply::Sent(true)), action),
    ensures
        ({
            let left = if old(job).phase is Reported {
                old(job).search@
            } else {
                texts(old(job).slots@).to_set()
            };
            let k = match old(job).phase {
                RoomPhase::Reported(k) => k as int,
                _ => 0,
            };
            let players = final(job).players@;
            let entries = old(job).entries@;
            exists|at: int|
                k <= at <= entries.len() && (forall|i: int|
                    k <= i < at ==> passed_over(players, left, #[trigger] entries[i])) && if at
                    < entries.len() {
                    &&& !passed_over(players, left, #[trigger] entries[at])
                    &&& entry_decides(players, final(job).tables@, entries[at], action)
                    &&& action is Emit ==> final(job).phase == RoomPhase::Reported(
                        (at + 1) as usize,
                    ) && final(job).search@ == left.remove(players[entries[at].player as int].0@)
                } else {
                    end_decides(*final(job), left, action)
                }
        }),
{
    let pre = *old(job);
    let post = *final(job);
    let (search, k) = match pre.phase {
        RoomPhase::Reported(k) => (pre.search@, k as int),
        _ => (texts(pre.slots@).to_set(), 0),
    };
    let players = post.players@;
    let tables = post.tables@;
    let entries = pre.entries@;
    lemma_stop_at(players, tables, search, entries, k);
    let at = stop_at(players, search, entries, k);
    if at < entries.len() {
        let entry = entries[at];
        if entry.player < players.len() {
            let player = players[entry.player as int];
            if tables.contains_key(player.1@) {
                lemma_failure(players, tables, tables[player.1@].0, entry.items@);
                if items_failure(players, tables, tables[player.1@].0, entry.items@) is None {
                    lemma_inventory_of(
                        players,
                        tables,
                        tables[player.1@].0,
                        entry.items@,
                        action->Emit_0->SlotData_2@,
                    );
                }
            }
        }
        assert(entry_decides(players, tables, entries[at], action));
    } else {
        assert(resolution(players, tables, search, entries, k) is NotFound);
        if forall|name: Seq<char>| !(#[trigger] search.contains(name)) {
            assert(search =~= Set::<Seq<char>>::empty());
        } else {
            assert(search != Set::<Seq<char>>::empty());
            let names = choose|names: Seq<String>| #[trigger]
                walks(names, search) && fails(action, not_found_text(texts(names)));
            lemma_walks(names, search);
            assert(names.len() == names.len());
        }
        assert(end_decides(post, search, action));
    }
}

proof fn lemma_walks(names: Seq<String>, set: Set<Seq<char>>)
    requires
        walks(names, set),
    ensures
        forall|i: int| 0 <= i < names.len() ==> set.contains((#[trigger] names[i])@),
        forall|name: Seq<char>| #[trigger]
            set.contains(name) ==> exists|i: int|
                0 <= i < names.len() && (#[trigger] names[i])@ == name,
        forall|i: int, j: int|
            0 <= i < j < names.len() ==> (#[trigger] names[i])@ != (#[trigger] names[j])@,
{
    let found = names.map_values(|s: String| s@);
    assert(found.to_set() == set);
    assert forall|i: int| 0 <= i < names.len() implies set.contains((#[trigger] names[i])@) by {
        assert(found[i] == names[i]@);
        assert(found.contains(found[i]));
    }
    assert forall|name: Seq<char>| #[trigger] set.contains(name) implies exists|i: int|
        0 <= i < names.len() && (#[trigger] names[i])@ == name by {
        assert(found.contains(name));
        let i = choose|i: int| 0 <= i < found.len() && found[i] == name;
        assert(names[i]@ == name);
    }
    assert forall|i: int, j: int| 0 <= i < j < names.len() implies (#[trigger] names[i])@ != (
    #[trigger] names[j])@ by {
        assert(found[i] == names[i]@);
        assert(found[j] == names[j]@);
    }
}

/// The user is asked whether to go on after the list has come and before anything
/// is written to the cache; and a package is downloaded only where there is none at
/// hand for its game.
pub proof fn law_nothing_is_done_in_vain(
    job: &mut RoomJob,
    cache: &mut StringCache,
    reply: RoomReply,
    action: RoomAction,
)
    requires
        old(job).wf(),
        old(job).expects(reply),
        call_ensures(RoomJob::step, (job, cache, reply), action),
    ensures
        reply is List && reply->List_0 is Ok ==> action is PollCancel,
        reply is Package && reply->Package_0 is Ok ==> action is PollCancel,
        action is StorePackage || action is LoadPackage ==> reply == RoomReply::Cancelled(false)
            || reply == RoomReply::Sent(true),
        action is StorePackage ==> reply == RoomReply::Cancelled(false),
        final(job).phase is DownloadAnnounced ==> !final(job).packages@.contains_key(
            final(job).missing@[final(job).phase->DownloadAnnounced_0 as int].0@,
        ),
        action is FetchPackage ==> old(job).phase is DownloadAnnounced && final(job).packages@ == old(job).packages@,
{
    assert(final(job).missing.len() <= usize::MAX);
}

} // verus!
