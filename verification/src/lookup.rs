//! Lookup tables from the data packages of a room, and the items that a
//! tracker's numbers stand for.

use vstd::prelude::*;
use vstd::string::StringExecFns;

use crate::data::{groups_view, SlotItemGroup, SlotItemInstance};
use crate::istr::Istr;
use crate::items::{
    group_items, instance_of, is_group, is_grouping, law_group_ids_distinct, law_item_in_one_group,
    lemma_group_order, lemma_group_view, received_view, ReceivedItem, ReceivedView,
};
use crate::room::GameData;
use crate::tables::{IdTable, TextTable};
use crate::text::{decimal, push_decimal};

verus! {

broadcast use vstd::string::group_string_axioms;

/// The name of each id; of several names for one id the last is taken.
pub open spec fn names_by_id(pairs: Seq<(Istr, i64)>) -> Map<i64, Seq<char>>
    decreases pairs.len(),
{
    if pairs.len() == 0 {
        Map::empty()
    } else {
        names_by_id(pairs.drop_last()).insert(pairs.last().1, pairs.last().0@)
    }
}

/// A table from ids to names.
pub struct NameTable {
    table: IdTable,
    names: Vec<Istr>,
}

impl View for NameTable {
    type V = Map<i64, Seq<char>>;

    closed spec fn view(&self) -> Map<i64, Seq<char>> {
        Map::new(
            |id: i64| self.table@.contains_key(id),
            |id: i64| self.names@[self.table@[id] as int]@,
        )
    }
}

impl NameTable {
    /// Every position of the table is one of a name.
    pub closed spec fn wf(&self) -> bool {
        forall|id: i64| #[trigger]
            self.table@.contains_key(id) ==> self.table@[id] < self.names@.len()
    }

    /// The table of the given names.
    pub fn build(pairs: &Vec<(Istr, i64)>) -> (r: Self)
        ensures
            r.wf(),
            r@ == names_by_id(pairs@),
    {
        let mut r = NameTable { table: IdTable::new(), names: Vec::new() };
        let mut i: usize = 0;
        assert(r@ =~= names_by_id(pairs@.take(0)));
        while i < pairs.len()
            invariant
                i <= pairs@.len(),
                r.wf(),
                r@ == names_by_id(pairs@.take(i as int)),
                r.names@.len() == i,
            decreases pairs@.len() - i,
        {
            let ghost before = r;
            assert(pairs@.take(i + 1).drop_last() =~= pairs@.take(i as int));
            r.names.push(pairs[i].0.clone());
            r.table.insert(pairs[i].1, i);
            i += 1;
            assert(r@ =~= before@.insert(pairs@[i - 1].1, pairs@[i - 1].0@));
        }
        assert(pairs@.take(i as int) =~= pairs@);
        r
    }

    /// The name of an id.
    pub fn get(&self, id: i64) -> (r: Option<&Istr>)
        requires
            self.wf(),
        ensures
            r is Some == self@.contains_key(id),
            r matches Some(name) ==> name@ == self@[id],
    {
        match self.table.get(id) {
            Some(at) => {
                assert(self.table@.contains_key(id));
                Some(&self.names[at])
            },
            None => None,
        }
    }
}

/// The data packages that are at hand, by the name of their game.
pub struct PackageStore {
    table: TextTable,
    entries: Vec<GameData>,
}

impl View for PackageStore {
    type V = Map<Seq<char>, GameData>;

    closed spec fn view(&self) -> Map<Seq<char>, GameData> {
        Map::new(
            |game: Seq<char>| self.table@.contains_key(game),
            |game: Seq<char>| self.entries@[self.table@[game] as int],
        )
    }
}

impl PackageStore {
    /// Every position of the table is one of a package, and no two games share
    /// one.
    pub closed spec fn wf(&self) -> bool {
        &&& forall|game: Seq<char>| #[trigger]
            self.table@.contains_key(game) ==> self.table@[game] < self.entries@.len()
        &&& forall|a: Seq<char>, b: Seq<char>|
            self.table@.contains_key(a) && self.table@.contains_key(b) && a != b
                ==> #[trigger] self.table@[a] != #[trigger] self.table@[b]
    }

    /// No package is at hand.
    pub fn new() -> (r: Self)
        ensures
            r.wf(),
            r@ == Map::<Seq<char>, GameData>::empty(),
    {
        let r = PackageStore { table: TextTable::new(), entries: Vec::new() };
        assert(r@ =~= Map::<Seq<char>, GameData>::empty());
        r
    }

    /// Takes over a package, in place of the one that the game had.
    pub fn insert(&mut self, game: &Istr, data: GameData)
        requires
            old(self).wf(),
        ensures
            final(self).wf(),
            final(self)@ == old(self)@.insert(game@, data),
    {
        let ghost before = *self;
        match self.table.get(game.as_ref()) {
            Some(at) => {
                assert(self.table@.contains_key(game@));
                self.entries.set(at, data);
                assert forall|g: Seq<char>| self.table@.contains_key(g) && g
                    != game@ implies #[trigger] self@[g] == before@[g] by {
                    assert(before.table@[g] != before.table@[game@]);
                }
            },
            None => {
                let at: usize = self.entries.len();
                self.entries.push(data);
                self.table.insert(game.as_ref(), at);
            },
        }
        assert(self@ =~= before@.insert(game@, data));
    }

    /// The package of a game.
    pub fn get(&self, game: &Istr) -> (r: Option<&GameData>)
        requires
            self.wf(),
        ensures
            r is Some == self@.contains_key(game@),
            r matches Some(data) ==> *data == self@[game@],
    {
        match self.table.get(game.as_ref()) {
            Some(at) => {
                assert(self.table@.contains_key(game@));
                Some(&self.entries[at])
            },
            None => None,
        }
    }
}

/// The names of a game's items and of its locations.
pub struct GameNames {
    pub items: NameTable,
    pub locations: NameTable,
}

/// What the names of a game are: items, then locations.
pub open spec fn game_names(data: GameData) -> (Map<i64, Seq<char>>, Map<i64, Seq<char>>) {
    (names_by_id(data.item_name_to_id@), names_by_id(data.location_name_to_id@))
}

/// The names of all games.
pub open spec fn all_names(packages: Map<Seq<char>, GameData>) -> Map<
    Seq<char>,
    (Map<i64, Seq<char>>, Map<i64, Seq<char>>),
> {
    packages.map_values(|data: GameData| game_names(data))
}

/// The lookup tables of all games.
pub struct GameTables {
    table: TextTable,
    games: Vec<GameNames>,
}

impl View for GameTables {
    type V = Map<Seq<char>, (Map<i64, Seq<char>>, Map<i64, Seq<char>>)>;

    closed spec fn view(&self) -> Map<Seq<char>, (Map<i64, Seq<char>>, Map<i64, Seq<char>>)> {
        Map::new(
            |game: Seq<char>| self.table@.contains_key(game),
            |game: Seq<char>|
                (
                    self.games@[self.table@[game] as int].items@,
                    self.games@[self.table@[game] as int].locations@,
                ),
        )
    }
}

impl GameTables {
    /// Every position of the table is one of a game, and its tables are sound.
    pub closed spec fn wf(&self) -> bool {
        &&& forall|game: Seq<char>| #[trigger]
            self.table@.contains_key(game) ==> self.table@[game] < self.games@.len()
        &&& forall|g: int|
            0 <= g < self.games@.len() ==> (#[trigger] self.games@[g]).items.wf()
                && self.games@[g].locations.wf()
    }

    /// The tables of no game.
    pub fn new() -> (r: Self)
        ensures
            r.wf(),
            r@ == Map::<Seq<char>, (Map<i64, Seq<char>>, Map<i64, Seq<char>>)>::empty(),
    {
        let r = GameTables { table: TextTable::new(), games: Vec::new() };
        assert(r@ =~= Map::<Seq<char>, (Map<i64, Seq<char>>, Map<i64, Seq<char>>)>::empty());
        r
    }

    /// The tables of the given packages.
    pub fn build(packages: PackageStore) -> (r: Self)
        requires
            packages.wf(),
        ensures
            r.wf(),
            r@ == all_names(packages@),
    {
        let mut games: Vec<GameNames> = Vec::new();
        let mut i: usize = 0;
        while i < packages.entries.len()
            invariant
                i <= packages.entries@.len(),
                games@.len() == i,
                forall|g: int|
                    0 <= g < i ==> {
                        &&& (#[trigger] games@[g]).items.wf()
                        &&& games@[g].locations.wf()
                        &&& games@[g].items@ == names_by_id(packages.entries@[g].item_name_to_id@)
                        &&& games@[g].locations@ == names_by_id(
                            packages.entries@[g].location_name_to_id@,
                        )
                    },
            decreases packages.entries@.len() - i,
        {
            let data = &packages.entries[i];
            games.push(
                GameNames {
                    items: NameTable::build(&data.item_name_to_id),
                    locations: NameTable::build(&data.location_name_to_id),
                },
            );
            i += 1;
        }
        let ghost known = packages@;
        let r = GameTables { table: packages.table, games };
        assert(r@ =~= all_names(known));
        r
    }

    /// The names of a game.
    pub fn get(&self, game: &Istr) -> (r: Option<&GameNames>)
        requires
            self.wf(),
        ensures
            r is Some == self@.contains_key(game@),
            r matches Some(names) ==> {
                &&& names.items.wf()
                &&& names.locations.wf()
                &&& (names.items@, names.locations@) == self@[game@]
            },
    {
        match self.table.get(game.as_ref()) {
            Some(at) => {
                assert(self.table@.contains_key(game@));
                Some(&self.games[at])
            },
            None => None,
        }
    }
}

/// A number in a tracker that nothing is known of.
#[derive(Debug, Clone, Copy, PartialEq, Eq, Structural)]
pub enum LookupError {
    /// There is no player with this number.
    Player { index: usize, len: usize },
    /// There is no such game, item or location.
    Entry,
}

impl LookupError {
    /// The message of the error.
    pub open spec fn text(self) -> Seq<char> {
        match self {
            LookupError::Player { index, len } => "index out of bounds: the len is "@ + decimal(
                len as nat,
            ) + " but the index is "@ + decimal(index as nat),
            LookupError::Entry => "no entry found for key"@,
        }
    }

    /// The message of the error.
    pub fn message(&self) -> (r: String)
        ensures
            r@ == self.text(),
    {
        match self {
            LookupError::Player { index, len } => {
                let mut out = "index out of bounds: the len is ".to_owned();
                push_decimal(&mut out, *len as u64);
                out.append(" but the index is ");
                push_decimal(&mut out, *index as u64);
                out
            },
            LookupError::Entry => "no entry found for key".to_owned(),
        }
    }
}

/// The names of all games: items, then locations.
pub type AllNames = Map<Seq<char>, (Map<i64, Seq<char>>, Map<i64, Seq<char>>)>;

/// Why an item of a tracker (item, location, sender, flags) cannot be resolved,
/// if it cannot.
pub open spec fn item_failure(
    players: Seq<(Istr, Istr)>,
    tables: AllNames,
    item_names: Map<i64, Seq<char>>,
    item: (i64, i64, u32, u8),
) -> Option<LookupError> {
    if item.2 >= players.len() {
        Some(LookupError::Player { index: item.2 as usize, len: players.len() as usize })
    } else if !tables.contains_key(players[item.2 as int].1@) || !item_names.contains_key(item.0)
        || !tables[players[item.2 as int].1@].1.contains_key(item.1) {
        Some(LookupError::Entry)
    } else {
        None
    }
}

/// The failure of the first item that cannot be resolved, if there is one.
pub open spec fn items_failure(
    players: Seq<(Istr, Istr)>,
    tables: AllNames,
    item_names: Map<i64, Seq<char>>,
    items: Seq<(i64, i64, u32, u8)>,
) -> Option<LookupError>
    decreases items.len(),
{
    if items.len() == 0 {
        None
    } else {
        match items_failure(players, tables, item_names, items.drop_last()) {
            Some(error) => Some(error),
            None => item_failure(players, tables, item_names, items.last()),
        }
    }
}

/// The three lowest flags: progression, useful, trap.
pub open spec fn flag_bits(flags: u8) -> Seq<bool> {
    seq![flags & 1 != 0, flags & 2 != 0, flags & 4 != 0]
}

/// The item that the numbers of a tracker stand for. The location belongs to
/// the game of the sender.
pub open spec fn resolved(
    players: Seq<(Istr, Istr)>,
    tables: AllNames,
    item_names: Map<i64, Seq<char>>,
    item: (i64, i64, u32, u8),
) -> ReceivedView {
    let sender = players[item.2 as int];
    ReceivedView {
        item_id: item.0 as int,
        item_name: item_names[item.0],
        sender_id: item.2 as int,
        sender_name: sender.0@,
        location_id: item.1 as int,
        location_name: tables[sender.1@].1[item.1],
        location_game: sender.1@,
        type_flags: flag_bits(item.3),
    }
}

/// The items that the numbers of a tracker stand for.
pub open spec fn resolved_items(
    players: Seq<(Istr, Istr)>,
    tables: AllNames,
    item_names: Map<i64, Seq<char>>,
    items: Seq<(i64, i64, u32, u8)>,
) -> Seq<ReceivedView> {
    items.map_values(|item: (i64, i64, u32, u8)| resolved(players, tables, item_names, item))
}

fn resolve_item(
    players: &Vec<(Istr, Istr)>,
    tables: &GameTables,
    item_names: &NameTable,
    item: (i64, i64, u32, u8),
) -> (r: Result<ReceivedItem, LookupError>)
    requires
        tables.wf(),
        item_names.wf(),
    ensures
        match item_failure(players@, tables@, item_names@, item) {
            Some(error) => r == Err::<ReceivedItem, LookupError>(error),
            None => r is Ok && r->Ok_0@ == resolved(players@, tables@, item_names@, item),
        },
{
    let at: usize = item.2 as usize;
    if at >= players.len() {
        return Err(LookupError::Player { index: at, len: players.len() });
    }
    let sender = &players[at];
    let names = match tables.get(&sender.1) {
        Some(names) => names,
        None => {
            return Err(LookupError::Entry);
        },
    };
    let item_name = match item_names.get(item.0) {
        Some(name) => name.clone(),
        None => {
            return Err(LookupError::Entry);
        },
    };
    let location_name = match names.locations.get(item.1) {
        Some(name) => name.clone(),
        None => {
            return Err(LookupError::Entry);
        },
    };
    let flags: u8 = item.3;
    let type_flags: [bool; 3] = [flags & 1 != 0, flags & 2 != 0, flags & 4 != 0];
    assert(type_flags@ =~= flag_bits(flags));
    Ok(
        ReceivedItem {
            item_id: item.0,
            item_name,
            sender_id: item.2,
            sender_name: sender.0.clone(),
            location_id: item.1,
            location_name,
            location_game: sender.1.clone(),
            type_flags,
        },
    )
}

/// Resolves the items that a player has received, or says what is unknown of
/// the first one that cannot be resolved.
pub fn resolve_items(
    players: &Vec<(Istr, Istr)>,
    tables: &GameTables,
    item_names: &NameTable,
    items: &Vec<(i64, i64, u32, u8)>,
) -> (r: Result<Vec<ReceivedItem>, LookupError>)
    requires
        tables.wf(),
        item_names.wf(),
    ensures
        match items_failure(players@, tables@, item_names@, items@) {
            Some(error) => r == Err::<Vec<ReceivedItem>, LookupError>(error),
            None => r is Ok && received_view(r->Ok_0@) == resolved_items(
                players@,
                tables@,
                item_names@,
                items@,
            ),
        },
{
    let mut out: Vec<ReceivedItem> = Vec::new();
    let mut i: usize = 0;
    let ghost all = resolved_items(players@, tables@, item_names@, items@);
    assert(received_view(out@) =~= all.take(0));
    while i < items.len()
        invariant
            tables.wf(),
            item_names.wf(),
            i <= items@.len(),
            all == resolved_items(players@, tables@, item_names@, items@),
            items_failure(players@, tables@, item_names@, items@.take(i as int)) is None,
            out@.len() == i,
            received_view(out@) == all.take(i as int),
        decreases items@.len() - i,
    {
        let ghost prior = out@;
        assert(items@.take(i + 1).drop_last() =~= items@.take(i as int));
        match resolve_item(players, tables, item_names, items[i]) {
            Ok(item) => {
                out.push(item);
                assert(out@ == prior.push(item));
                assert(item@ == all[i as int]);
            },
            Err(error) => {
                proof {
                    lemma_failure_stays(
                        players@,
                        tables@,
                        item_names@,
                        items@,
                        i + 1,
                        items@.len() as int,
                    );
                    assert(items@.take(items@.len() as int) =~= items@);
                }
                return Err(error);
            },
        }
        i += 1;
        assert(received_view(out@) =~= received_view(prior).push(all[i - 1]));
        assert(received_view(out@) =~= all.take(i as int));
    }
    assert(items@.take(i as int) =~= items@);
    assert(all.take(i as int) =~= all);
    Ok(out)
}

/// A failure among the first items is the failure of all.
proof fn lemma_failure_stays(
    players: Seq<(Istr, Istr)>,
    tables: AllNames,
    item_names: Map<i64, Seq<char>>,
    items: Seq<(i64, i64, u32, u8)>,
    n: int,
    m: int,
)
    requires
        0 <= n <= m <= items.len(),
        items_failure(players, tables, item_names, items.take(n)) is Some,
    ensures
        items_failure(players, tables, item_names, items.take(m)) == items_failure(
            players,
            tables,
            item_names,
            items.take(n),
        ),
    decreases m - n,
{
    if n < m {
        lemma_failure_stays(players, tables, item_names, items, n, m - 1);
        assert(items.take(m).drop_last() =~= items.take(m - 1));
    }
}

/// A table names an id exactly where the list does, and by the last name that the
/// list has for it.
pub proof fn law_table_names_ids(pairs: &Vec<(Istr, i64)>, table: NameTable, id: i64, r: Option<&Istr>)
    requires
        call_ensures(NameTable::build, (pairs,), table),
        call_ensures(NameTable::get, (&table, id), r),
    ensures
        match r {
            Some(name) => exists|i: int|
                0 <= i < pairs@.len() && (#[trigger] pairs@[i]).1 == id && pairs@[i].0@ == name@ && (
                forall|j: int| i < j < pairs@.len() ==> (#[trigger] pairs@[j]).1 != id),
            None => forall|i: int| 0 <= i < pairs@.len() ==> (#[trigger] pairs@[i]).1 != id,
        },
{
    lemma_names_by_id(pairs@, id);
}

pub(crate) proof fn lemma_names_by_id(pairs: Seq<(Istr, i64)>, id: i64)
    ensures
        if names_by_id(pairs).contains_key(id) {
            exists|i: int|
                0 <= i < pairs.len() && (#[trigger] pairs[i]).1 == id && pairs[i].0@ == names_by_id(
                    pairs,
                )[id] && (forall|j: int| i < j < pairs.len() ==> (#[trigger] pairs[j]).1 != id)
        } else {
            forall|i: int| 0 <= i < pairs.len() ==> (#[trigger] pairs[i]).1 != id
        },
    decreases pairs.len(),
{
    if pairs.len() > 0 {
        let rest = pairs.drop_last();
        let last = pairs.len() - 1;
        lemma_names_by_id(rest, id);
        if pairs[last].1 == id {
            assert(pairs[last].0@ == names_by_id(pairs)[id]);
        } else if names_by_id(rest).contains_key(id) {
            let i = choose|i: int|
                0 <= i < rest.len() && (#[trigger] rest[i]).1 == id && rest[i].0@ == names_by_id(
                    rest,
                )[id] && (forall|j: int| i < j < rest.len() ==> (#[trigger] rest[j]).1 != id);
            assert(pairs[i] == rest[i]);
            assert forall|j: int| i < j < pairs.len() implies (#[trigger] pairs[j]).1 != id by {
                if j < last {
                    assert(rest[j] == pairs[j]);
                }
            }
        } else {
            assert forall|i: int| 0 <= i < pairs.len() implies (#[trigger] pairs[i]).1 != id by {
                if i < last {
                    assert(rest[i] == pairs[i]);
                }
            }
        }
    }
}

/// Whether a list has a name for an id.
pub open spec fn lists_name(pairs: Seq<(Istr, i64)>, id: i64, name: Seq<char>) -> bool {
    exists|i: int| 0 <= i < pairs.len() && (#[trigger] pairs[i]).1 == id && pairs[i].0@ == name
}

/// The tables know the games that there are packages of. They name the items of
/// a game by its package's list of items, and its locations by its list of
/// locations.
pub proof fn law_tables_name_items_and_locations(
    packages: PackageStore,
    tables: GameTables,
    game: &Istr,
    names: Option<&GameNames>,
    id: i64,
    item: Option<&Istr>,
    location: Option<&Istr>,
)
    requires
        call_ensures(GameTables::build, (packages,), tables),
        call_ensures(GameTables::get, (&tables, game), names),
        names is Some ==> call_ensures(NameTable::get, (&names->Some_0.items, id), item),
        names is Some ==> call_ensures(NameTable::get, (&names->Some_0.locations, id), location),
    ensures
        names is Some == packages@.contains_key(game@),
        names is Some ==> {
            let items = packages@[game@].item_name_to_id@;
            let locations = packages@[game@].location_name_to_id@;
            &&& item is Some ==> lists_name(items, id, item->Some_0@)
            &&& item is None ==> forall|i: int| 0 <= i < items.len() ==> (#[trigger] items[i]).1 != id
            &&& location is Some ==> lists_name(locations, id, location->Some_0@)
            &&& location is None ==> forall|i: int|
                0 <= i < locations.len() ==> (#[trigger] locations[i]).1 != id
            &&& item is Some == tables@[game@].0.contains_key(id)
            &&& item is Some ==> tables@[game@].0[id] == item->Some_0@
            &&& location is Some == tables@[game@].1.contains_key(id)
            &&& location is Some ==> tables@[game@].1[id] == location->Some_0@
        },
{
    if packages@.contains_key(game@) {
        lemma_names_by_id(packages@[game@].item_name_to_id@, id);
        lemma_names_by_id(packages@[game@].location_name_to_id@, id);
    }
}

/// A package that is put into a store is found under its game, and under every
/// other game is found what was found there before.
pub proof fn law_stored_package_found(
    store: &mut PackageStore,
    game: &Istr,
    data: GameData,
    other: &Istr,
    before: Option<&GameData>,
    after: Option<&GameData>,
)
    requires
        call_ensures(PackageStore::get, (old(store), other), before),
        call_ensures(PackageStore::insert, (store, game, data), ()),
        call_ensures(PackageStore::get, (final(store), other), after),
    ensures
        other@ == game@ ==> after is Some && *after->Some_0 == data,
        other@ != game@ ==> after is Some == before is Some,
        other@ != game@ && after is Some ==> *after->Some_0 == *before->Some_0,
{
}

/// Whether everything that an item of a tracker (item, location, sender, flags)
/// refers to is known.
pub open spec fn all_known(
    players: Seq<(Istr, Istr)>,
    tables: AllNames,
    item_names: Map<i64, Seq<char>>,
    item: (i64, i64, u32, u8),
) -> bool {
    &&& item.2 < players.len()
    &&& item_names.contains_key(item.0)
    &&& tables.contains_key(players[item.2 as int].1@)
    &&& tables[players[item.2 as int].1@].1.contains_key(item.1)
}

pub(crate) proof fn lemma_failure(
    players: Seq<(Istr, Istr)>,
    tables: AllNames,
    item_names: Map<i64, Seq<char>>,
    items: Seq<(i64, i64, u32, u8)>,
)
    ensures
        match items_failure(players, tables, item_names, items) {
            None => forall|k: int|
                0 <= k < items.len() ==> all_known(players, tables, item_names, #[trigger] items[k]),
            Some(error) => exists|k: int|
                0 <= k < items.len() && !all_known(
                    players,
                    tables,
                    item_names,
                    #[trigger] items[k],
                ) && Some(error) == item_failure(players, tables, item_names, items[k]) && forall|
                    i: int,
                |
                    0 <= i < k ==> all_known(players, tables, item_names, #[trigger] items[i]),
        },
    decreases items.len(),
{
    if items.len() > 0 {
        let rest = items.drop_last();
        let last = items.len() - 1;
        lemma_failure(players, tables, item_names, rest);
        match items_failure(players, tables, item_names, rest) {
            Some(error) => {
                let k = choose|k: int|
                    0 <= k < rest.len() && !all_known(
                        players,
                        tables,
                        item_names,
                        #[trigger] rest[k],
                    ) && Some(error) == item_failure(players, tables, item_names, rest[k])
                        && forall|i: int|
                        0 <= i < k ==> all_known(players, tables, item_names, #[trigger] rest[i]);
                assert(items[k] == rest[k]);
                assert forall|i: int| 0 <= i < k implies all_known(
                    players,
                    tables,
                    item_names,
                    #[trigger] items[i],
                ) by {
                    assert(rest[i] == items[i]);
                }
            },
            None => {
                assert forall|i: int| 0 <= i < last implies all_known(
                    players,
                    tables,
                    item_names,
                    #[trigger] items[i],
                ) by {
                    assert(rest[i] == items[i]);
                }
                assert(items[last] == items.last());
            },
        }
    }
}

/// Items are resolved exactly where everything that they refer to is known. Else
/// the first one for which this does not hold decides on the error.
pub proof fn law_resolved_where_all_is_known(
    players: &Vec<(Istr, Istr)>,
    tables: &GameTables,
    item_names: &NameTable,
    items: &Vec<(i64, i64, u32, u8)>,
    r: Result<Vec<ReceivedItem>, LookupError>,
)
    requires
        call_ensures(resolve_items, (players, tables, item_names, items), r),
    ensures
        match r {
            Ok(_) => forall|k: int|
                0 <= k < items@.len() ==> all_known(
                    players@,
                    tables@,
                    item_names@,
                    #[trigger] items@[k],
                ),
            Err(error) => exists|k: int|
                0 <= k < items@.len() && !all_known(
                    players@,
                    tables@,
                    item_names@,
                    #[trigger] items@[k],
                ) && error == (if items@[k].2 < players@.len() {
                    LookupError::Entry
                } else {
                    LookupError::Player { index: items@[k].2 as usize, len: players@.len() as usize }
                }) && forall|i: int|
                    0 <= i < k ==> all_known(players@, tables@, item_names@, #[trigger] items@[i]),
        },
{
    lemma_failure(players@, tables@, item_names@, items@);
}

/// Whether bit `k` of a number is set.
pub open spec fn has_bit(flags: u8, k: int) -> bool {
    if k == 0 {
        flags % 2 == 1
    } else if k == 1 {
        flags / 2 % 2 == 1
    } else {
        flags / 4 % 2 == 1
    }
}

proof fn lemma_flag_bits(flags: u8)
    ensures
        flag_bits(flags).len() == 3,
        flag_bits(flags)[0] == has_bit(flags, 0),
        flag_bits(flags)[1] == has_bit(flags, 1),
        flag_bits(flags)[2] == has_bit(flags, 2),
{
    assert(flags & 1 != 0 <==> flags % 2 == 1) by (bit_vector);
    assert(flags & 2 != 0 <==> flags / 2 % 2 == 1) by (bit_vector);
    assert(flags & 4 != 0 <==> flags / 4 % 2 == 1) by (bit_vector);
}

/// Whether an item says what the numbers of a tracker (item, location, sender,
/// flags) stand for. The first number is that of the item, the second that of the
/// location, which is one of the sender's game; the lowest flag is for
/// progression, the next for useful items and the third for traps.
pub open spec fn stands_for(
    players: Seq<(Istr, Istr)>,
    tables: AllNames,
    item_names: Map<i64, Seq<char>>,
    item: (i64, i64, u32, u8),
    received: ReceivedItem,
) -> bool {
    &&& received.item_id == item.0
    &&& received.item_name@ == item_names[item.0]
    &&& received.location_id == item.1
    &&& received.location_name@ == tables[players[item.2 as int].1@].1[item.1]
    &&& received.sender_id == item.2
    &&& received.sender_name@ == players[item.2 as int].0@
    &&& received.location_game@ == players[item.2 as int].1@
    &&& received.type_flags@[0] == has_bit(item.3, 0)
    &&& received.type_flags@[1] == has_bit(item.3, 1)
    &&& received.type_flags@[2] == has_bit(item.3, 2)
}

/// Every item that is resolved says what its numbers stand for, and stands where
/// they stood.
pub proof fn law_numbers_resolved(
    players: &Vec<(Istr, Istr)>,
    tables: &GameTables,
    item_names: &NameTable,
    items: &Vec<(i64, i64, u32, u8)>,
    r: Result<Vec<ReceivedItem>, LookupError>,
)
    requires
        call_ensures(resolve_items, (players, tables, item_names, items), r),
        r is Ok,
    ensures
        r->Ok_0@.len() == items@.len(),
        forall|k: int|
            0 <= k < items@.len() ==> stands_for(
                players@,
                tables@,
                item_names@,
                items@[k],
                #[trigger] r->Ok_0@[k],
            ),
{
    let got = r->Ok_0@;
    let all = resolved_items(players@, tables@, item_names@, items@);
    assert(received_view(got).len() == all.len());
    assert forall|k: int| 0 <= k < items@.len() implies stands_for(
        players@,
        tables@,
        item_names@,
        items@[k],
        #[trigger] got[k],
    ) by {
        assert(received_view(got)[k] == got[k]@);
        assert(all[k] == resolved(players@, tables@, item_names@, items@[k]));
        lemma_flag_bits(items@[k].3);
    }
}

/// Whether `groups` are the inventory that the items of a tracker's entry make:
/// each item is kept in the group of its first number, which is the group's id
/// and by which the group is named, and items with different first numbers are
/// in different groups.
pub open spec fn inventory_of(
    players: Seq<(Istr, Istr)>,
    tables: AllNames,
    item_names: Map<i64, Seq<char>>,
    items: Seq<(i64, i64, u32, u8)>,
    groups: Seq<SlotItemGroup>,
) -> bool {
    &&& forall|k: int| 0 <= k < items.len() ==> kept_somewhere(groups, #[trigger] items[k], k)
    &&& forall|g: int, j: int|
        0 <= g < groups.len() && 0 <= j < groups[g].instances@.len() ==> {
            let kept = #[trigger] groups[g].instances@[j];
            &&& kept.index < items.len()
            &&& items[kept.index as int].0 == groups[g].id
            &&& made_of(players, tables, items[kept.index as int], kept)
        }
    &&& forall|g: int|
        0 <= g < groups.len() ==> (#[trigger] groups[g]).instances@.len() > 0 && groups[g].name@
            == item_names[groups[g].id]
    &&& forall|g: int, i: int, j: int|
        0 <= g < groups.len() && 0 <= i < j < groups[g].instances@.len() ==> (
        #[trigger] groups[g].instances@[i]).index < (#[trigger] groups[g].instances@[j]).index
    &&& forall|g: int, h: int|
        0 <= g < h < groups.len() ==> (#[trigger] groups[g]).id != (#[trigger] groups[h]).id
}

/// Whether the item at position `k` is kept in the group of its first number.
pub open spec fn kept_somewhere(
    groups: Seq<SlotItemGroup>,
    item: (i64, i64, u32, u8),
    k: int,
) -> bool {
    exists|g: int, j: int|
        0 <= g < groups.len() && 0 <= j < groups[g].instances@.len() && groups[g].id == item.0 && (
        #[trigger] groups[g].instances@[j]).index == k
}

/// Whether an entry of an inventory says what the numbers of a tracker say.
pub open spec fn made_of(
    players: Seq<(Istr, Istr)>,
    tables: AllNames,
    item: (i64, i64, u32, u8),
    kept: SlotItemInstance,
) -> bool {
    &&& kept.at_id == item.1
    &&& kept.at_name@ == tables[players[item.2 as int].1@].1[item.1]
    &&& kept.from_id == item.2
    &&& kept.from_name@ == players[item.2 as int].0@
    &&& kept.at_game@ == players[item.2 as int].1@
    &&& kept.type_flags@[0] == has_bit(item.3, 0)
    &&& kept.type_flags@[1] == has_bit(item.3, 1)
    &&& kept.type_flags@[2] == has_bit(item.3, 2)
}

/// From the numbers of a tracker to an inventory: items are grouped by their
/// first number, and nothing else.
pub proof fn law_numbers_grouped(
    players: &Vec<(Istr, Istr)>,
    tables: &GameTables,
    item_names: &NameTable,
    items: &Vec<(i64, i64, u32, u8)>,
    received: Vec<ReceivedItem>,
    groups: Vec<SlotItemGroup>,
)
    requires
        call_ensures(
            resolve_items,
            (players, tables, item_names, items),
            Ok::<Vec<ReceivedItem>, LookupError>(received),
        ),
        call_ensures(group_items, (&received,), groups),
    ensures
        inventory_of(players@, tables@, item_names@, items@, groups@),
{
    lemma_inventory_of(players@, tables@, item_names@, items@, groups@);
}

/// A grouping of resolved items is the inventory of their numbers.
pub proof fn lemma_inventory_of(
    players: Seq<(Istr, Istr)>,
    tables: AllNames,
    item_names: Map<i64, Seq<char>>,
    items: Seq<(i64, i64, u32, u8)>,
    groups: Seq<SlotItemGroup>,
)
    requires
        is_grouping(groups_view(groups), resolved_items(players, tables, item_names, items)),
    ensures
        inventory_of(players, tables, item_names, items, groups),
{
    let all = resolved_items(players, tables, item_names, items);
    let views = groups_view(groups);
    assert forall|k: int| 0 <= k < items.len() implies kept_somewhere(
        groups,
        #[trigger] items[k],
        k,
    ) by {
        law_item_in_one_group(views, all, k);
        assert(all[k] == resolved(players, tables, item_names, items[k]));
        let g = choose|g: int|
            0 <= g < views.len() && (#[trigger] views[g]).id == all[k].item_id
                && views[g].instances.contains(instance_of(all[k], k));
        let j = choose|j: int|
            0 <= j < views[g].instances.len() && views[g].instances[j] == instance_of(all[k], k);
        assert(views[g].instances[j] == groups[g].instances@[j]@);
        assert(groups[g].instances@[j].index == k);
    }
    assert forall|g: int, j: int|
        0 <= g < groups.len() && 0 <= j < groups[g].instances@.len() implies {
        let kept = #[trigger] groups[g].instances@[j];
        &&& kept.index < items.len()
        &&& items[kept.index as int].0 == groups[g].id
        &&& made_of(players, tables, items[kept.index as int], kept)
    } by {
        lemma_group_view(groups, all, g, j);
        let kept = groups[g].instances@[j];
        assert(all[kept.index as int] == resolved(
            players,
            tables,
            item_names,
            items[kept.index as int],
        ));
        lemma_flag_bits(items[kept.index as int].3);
    }
    assert forall|g: int| 0 <= g < groups.len() implies (#[trigger] groups[g]).instances@.len() > 0
        && groups[g].name@ == item_names[groups[g].id] by {
        assert(is_group(views[g], all));
        assert(views[g].instances.len() == groups[g].instances@.len());
        lemma_group_view(groups, all, g, 0);
        let first = groups[g].instances@[0].index as int;
        assert(views[g].instances[0] == groups[g].instances@[0]@);
        assert(all[first] == resolved(players, tables, item_names, items[first]));
    }
    assert forall|g: int, i: int, j: int|
        0 <= g < groups.len() && 0 <= i < j < groups[g].instances@.len() implies (
    #[trigger] groups[g].instances@[i]).index < (#[trigger] groups[g].instances@[j]).index by {
        lemma_group_order(groups, all, g, i, j);
    }
    law_group_ids_distinct(views, all);
    assert forall|g: int, h: int| 0 <= g < h < groups.len() implies (#[trigger] groups[g]).id != (
    #[trigger] groups[h]).id by {
        assert(views[g].id != views[h].id);
    }
}

/// What is said of a number that nothing is known of.
pub proof fn law_lookup_errors_say_why(error: &LookupError, r: String)
    requires
        call_ensures(LookupError::message, (error,), r),
    ensures
        error is Entry ==> r@ == "no entry found for key"@,
        error is Player ==> r@ == "index out of bounds: the len is "@ + decimal(
            error->Player_len as nat,
        ) + " but the index is "@ + decimal(error->Player_index as nat),
{
}

} // verus!
