//! The world file: its slots, what they have received, and where it is kept.

use vstd::prelude::*;
use vstd::string::StringExecFns;

use crate::istr::Istr;
use crate::text::{chars_of, decimal, push_decimal, text_between};

verus! {

broadcast use vstd::string::group_string_axioms;

/// How a world is reached.
#[derive(Debug, Clone, Copy, PartialEq, Eq)]
pub enum WorldConnType {
    Client,
    Room,
}

impl Default for WorldConnType {
    fn default() -> (r: Self)
        ensures
            r == WorldConnType::Room,
    {
        WorldConnType::Room
    }
}

/// One received item.
#[derive(Debug, Clone)]
pub struct SlotItemInstance {
    pub index: usize,
    pub from_id: u32,
    pub from_name: Istr,
    pub at_id: i64,
    pub at_name: Istr,
    pub at_game: Istr,
    pub type_flags: [bool; 3],
}

/// All received items with the same id.
#[derive(Debug, Clone)]
pub struct SlotItemGroup {
    pub id: i64,
    pub name: Istr,
    pub instances: Vec<SlotItemInstance>,
}

/// What a [`SlotItemInstance`] says.
pub struct InstanceView {
    pub index: int,
    pub from_id: int,
    pub from_name: Seq<char>,
    pub at_id: int,
    pub at_name: Seq<char>,
    pub at_game: Seq<char>,
    pub type_flags: Seq<bool>,
}

/// What a [`SlotItemGroup`] says.
pub struct GroupView {
    pub id: int,
    pub name: Seq<char>,
    pub instances: Seq<InstanceView>,
}

impl View for SlotItemInstance {
    type V = InstanceView;

    open spec fn view(&self) -> InstanceView {
        InstanceView {
            index: self.index as int,
            from_id: self.from_id as int,
            from_name: self.from_name@,
            at_id: self.at_id as int,
            at_name: self.at_name@,
            at_game: self.at_game@,
            type_flags: self.type_flags@,
        }
    }
}

impl View for SlotItemGroup {
    type V = GroupView;

    open spec fn view(&self) -> GroupView {
        GroupView {
            id: self.id as int,
            name: self.name@,
            instances: self.instances@.map_values(|i: SlotItemInstance| i@),
        }
    }
}

/// What a list of groups says.
pub open spec fn groups_view(groups: Seq<SlotItemGroup>) -> Seq<GroupView> {
    groups.map_values(|g: SlotItemGroup| g@)
}

/// A slot of a world.
#[derive(Debug)]
pub struct WorldFileSlot {
    pub name: String,
    pub active: bool,
    pub confirmed: usize,
    pub total_items: usize,
    pub inventory: Vec<SlotItemGroup>,
}

impl Default for WorldFileSlot {
    fn default() -> (r: Self)
        ensures
            r.name@ == Seq::<char>::empty(),
            r.active,
            r.confirmed == 0,
            r.total_items == 0,
            r.inventory@ == Seq::<SlotItemGroup>::empty(),
    {
        WorldFileSlot {
            name: String::new(),
            active: true,
            confirmed: 0,
            total_items: 0,
            inventory: Vec::new(),
        }
    }
}

/// Whether `copy` is what a connection needs of `slot`: its name and whether
/// it is active, and no progress.
pub open spec fn slot_for_connection(slot: WorldFileSlot, copy: WorldFileSlot) -> bool {
    &&& copy.name@ == slot.name@
    &&& copy.active == slot.active
    &&& copy.confirmed == 0
    &&& copy.total_items == 0
    &&& copy.inventory@ == Seq::<SlotItemGroup>::empty()
}

impl WorldFileSlot {
    /// The part of the slot that a connection needs.
    pub fn clone_for_connection(&self) -> (r: Self)
        ensures
            slot_for_connection(*self, r),
    {
        let mut copy = WorldFileSlot::default();
        copy.name = self.name.clone();
        copy.active = self.active;
        copy
    }

    /// How many items have arrived since the last confirmation.
    pub fn new_items(&self) -> (r: usize)
        ensures
            r == if self.total_items > self.confirmed {
                self.total_items - self.confirmed
            } else {
                0
            },
    {
        if self.total_items > self.confirmed {
            self.total_items - self.confirmed
        } else {
            0
        }
    }
}

/// A world: how to reach it, and its slots.
#[derive(Debug)]
pub struct WorldFile {
    pub name: String,
    pub conn_type: WorldConnType,
    pub address: String,
    pub password: String,
    pub slots: Vec<WorldFileSlot>,
}

/// Whether a world is the one that a new file starts with.
pub open spec fn is_default_world(world: WorldFile) -> bool {
    &&& world.name@ == Seq::<char>::empty()
    &&& world.conn_type == WorldConnType::Room
    &&& world.address@ == Seq::<char>::empty()
    &&& world.password@ == Seq::<char>::empty()
    &&& world.slots@ == Seq::<WorldFileSlot>::empty()
}

impl Default for WorldFile {
    fn default() -> (r: Self)
        ensures
            is_default_world(r),
    {
        WorldFile {
            name: String::new(),
            conn_type: WorldConnType::default(),
            address: String::new(),
            password: String::new(),
            slots: Vec::new(),
        }
    }
}

/// Whether `copy` is what a connection needs of `world`.
pub open spec fn world_for_connection(world: WorldFile, copy: WorldFile) -> bool {
    &&& copy.name@ == world.name@
    &&& copy.conn_type == world.conn_type
    &&& copy.address@ == world.address@
    &&& copy.password@ == world.password@
    &&& copy.slots@.len() == world.slots@.len()
    &&& forall|i: int|
        0 <= i < world.slots@.len() ==> slot_for_connection(
            world.slots@[i],
            #[trigger] copy.slots@[i],
        )
}

/// The names of the active slots, in order.
pub open spec fn active_names(slots: Seq<WorldFileSlot>) -> Seq<Seq<char>>
    decreases slots.len(),
{
    if slots.len() == 0 {
        Seq::empty()
    } else if slots.last().active {
        active_names(slots.drop_last()).push(slots.last().name@)
    } else {
        active_names(slots.drop_last())
    }
}

/// Whether any slot is active.
pub open spec fn any_active(slots: Seq<WorldFileSlot>) -> bool {
    exists|i: int| 0 <= i < slots.len() && (#[trigger] slots[i]).active
}

/// The texts of a list of strings.
pub open spec fn texts(list: Seq<String>) -> Seq<Seq<char>> {
    list.map_values(|s: String| s@)
}

/// The texts of a list that has grown by one.
pub proof fn lemma_texts_push(list: Seq<String>, s: String)
    ensures
        texts(list.push(s)) == texts(list).push(s@),
{
    assert(texts(list.push(s)) =~= texts(list).push(s@));
}

impl WorldFile {
    /// The part of the world that a connection needs: everything but what the
    /// slots have received.
    pub fn clone_for_connection(&self) -> (r: Self)
        ensures
            world_for_connection(*self, r),
    {
        let mut slots: Vec<WorldFileSlot> = Vec::new();
        let mut i: usize = 0;
        while i < self.slots.len()
            invariant
                i <= self.slots@.len(),
                slots@.len() == i,
                forall|k: int|
                    0 <= k < i ==> slot_for_connection(self.slots@[k], #[trigger] slots@[k]),
            decreases self.slots@.len() - i,
        {
            slots.push(self.slots[i].clone_for_connection());
            i += 1;
        }
        WorldFile {
            name: self.name.clone(),
            conn_type: self.conn_type,
            address: self.address.clone(),
            password: self.password.clone(),
            slots,
        }
    }

    /// The names of the active slots, in order.
    pub fn active_slots(&self) -> (r: Vec<String>)
        ensures
            texts(r@) == active_names(self.slots@),
    {
        let mut names: Vec<String> = Vec::new();
        let mut i: usize = 0;
        assert(texts(names@) =~= active_names(self.slots@.take(0)));
        while i < self.slots.len()
            invariant
                i <= self.slots@.len(),
                texts(names@) == active_names(self.slots@.take(i as int)),
            decreases self.slots@.len() - i,
        {
            let ghost prior = names@;
            assert(self.slots@.take(i + 1).drop_last() =~= self.slots@.take(i as int));
            if self.slots[i].active {
                names.push(self.slots[i].name.clone());
                assert(texts(names@) =~= texts(prior).push(self.slots@[i as int].name@));
            }
            i += 1;
        }
        assert(self.slots@.take(i as int) =~= self.slots@);
        names
    }

    /// Whether a refresh would have any slot to ask for.
    pub fn has_active_slot(&self) -> (r: bool)
        ensures
            r == any_active(self.slots@),
    {
        let mut i: usize = 0;
        while i < self.slots.len()
            invariant
                i <= self.slots@.len(),
                forall|k: int| 0 <= k < i ==> !(#[trigger] self.slots@[k]).active,
            decreases self.slots@.len() - i,
        {
            if self.slots[i].active {
                return true;
            }
            i += 1;
        }
        false
    }
}

/// What a connection copies of a world names the same active slots.
pub proof fn law_connection_copy_keeps_active(world: WorldFile, copy: WorldFile)
    requires
        world_for_connection(world, copy),
    ensures
        active_names(copy.slots@) == active_names(world.slots@),
{
    lemma_active_names_agree(world.slots@, copy.slots@);
}

proof fn lemma_active_names_agree(a: Seq<WorldFileSlot>, b: Seq<WorldFileSlot>)
    requires
        a.len() == b.len(),
        forall|i: int| 0 <= i < a.len() ==> slot_for_connection(a[i], #[trigger] b[i]),
    ensures
        active_names(a) == active_names(b),
    decreases a.len(),
{
    if a.len() > 0 {
        assert(slot_for_connection(a[a.len() - 1], b[b.len() - 1]));
        assert forall|i: int| 0 <= i < a.drop_last().len() implies slot_for_connection(
            a.drop_last()[i],
            #[trigger] b.drop_last()[i],
        ) by {
            assert(b.drop_last()[i] == b[i]);
        }
        lemma_active_names_agree(a.drop_last(), b.drop_last());
    }
}

/// The platform family that a path belongs to.
#[derive(Debug, Clone, Copy, PartialEq, Eq)]
pub enum PathFamily {
    Unix,
    Windows,
    Wasm,
}

/// A file path: text where it is text, and otherwise what the platform stores.
#[derive(Debug, Clone)]
pub enum NativePath {
    Text(String),
    Unix(Vec<u8>),
    Windows(Vec<u16>),
    Wasm(Vec<u8>),
}

/// The character that marks stored text.
pub open spec fn text_marker() -> char {
    '@'
}

/// The character that marks a stored path of a platform family.
pub open spec fn family_marker(family: PathFamily) -> char {
    match family {
        PathFamily::Unix => 'A',
        PathFamily::Windows => 'B',
        PathFamily::Wasm => 'C',
    }
}

/// The little-endian bytes of 16-bit units, in order.
pub open spec fn le_bytes(units: Seq<u16>) -> Seq<u8> {
    Seq::new(
        2 * units.len(),
        |i: int|
            if i % 2 == 0 {
                (units[i / 2] % 256) as u8
            } else {
                (units[i / 2] / 256) as u8
            },
    )
}

/// What [`z85::encode`] makes of bytes.
pub uninterp spec fn z85_text(bytes: Seq<u8>) -> Seq<char>;

/// What [`z85::decode`] makes of the bytes of a text: the decoded bytes, or
/// the message of its error.
pub uninterp spec fn z85_bytes(text: Seq<u8>) -> Result<Seq<u8>, Seq<char>>;

/// `z85::encode`: the text is a function of the bytes alone, and `z85::decode`
/// gives the bytes back.
#[verifier::external_body]
pub(crate) fn z85_encode(bytes: &Vec<u8>) -> (r: String)
    ensures
        r@ == z85_text(bytes@),
        (z85_bytes(vstd::utf8::encode_utf8(r@)) == Ok::<Seq<u8>, Seq<char>>(bytes@)),
{
    z85::encode(bytes)
}

/// `z85::decode`: the outcome is a function of the text's bytes alone. An error
/// is turned into its message.
#[verifier::external_body]
pub(crate) fn z85_decode(text: &str) -> (r: Result<Vec<u8>, String>)
    ensures
        match z85_bytes(vstd::utf8::encode_utf8(text@)) {
            Ok(bytes) => r is Ok && r->Ok_0@ == bytes,
            Err(message) => r is Err && r->Err_0@ == message,
        },
{
    z85::decode(text.as_bytes()).map_err(|err| err.to_string())
}

/// What a path is stored as.
pub open spec fn encoded_path(path: NativePath) -> Seq<char> {
    match path {
        NativePath::Text(text) => text@.push(text_marker()),
        NativePath::Unix(bytes) => z85_text(bytes@).push(family_marker(PathFamily::Unix)),
        NativePath::Windows(units) => z85_text(le_bytes(units@)).push(
            family_marker(PathFamily::Windows),
        ),
        NativePath::Wasm(bytes) => z85_text(bytes@).push(family_marker(PathFamily::Wasm)),
    }
}

fn units_to_bytes(units: &Vec<u16>) -> (r: Vec<u8>)
    ensures
        r@ == le_bytes(units@),
{
    let mut out: Vec<u8> = Vec::new();
    let mut i: usize = 0;
    while i < units.len()
        invariant
            i <= units@.len(),
            out@ == le_bytes(units@.take(i as int)),
        decreases units@.len() - i,
    {
        out.push((units[i] % 256) as u8);
        out.push((units[i] / 256) as u8);
        i += 1;
        assert(out@ =~= le_bytes(units@.take(i as int)));
    }
    assert(units@.take(i as int) =~= units@);
    out
}

/// Packs a path into a text that can be stored.
pub fn encode_path(path: &NativePath) -> (r: String)
    ensures
        r@ == encoded_path(*path),
{
    match path {
        NativePath::Text(text) => {
            let mut out = text.clone();
            out.push('@');
            out
        },
        NativePath::Unix(bytes) => {
            let mut out = z85_encode(bytes);
            out.push('A');
            out
        },
        NativePath::Windows(units) => {
            let bytes = units_to_bytes(units);
            let mut out = z85_encode(&bytes);
            out.push('B');
            out
        },
        NativePath::Wasm(bytes) => {
            let mut out = z85_encode(bytes);
            out.push('C');
            out
        },
    }
}

/// Why a stored path cannot be read.
#[derive(Debug, Clone, Copy, PartialEq, Eq)]
pub enum DecodePathError {
    Empty,
    InvalidType(u8),
}

impl DecodePathError {
    /// The message of the error.
    pub open spec fn text(self) -> Seq<char> {
        match self {
            DecodePathError::Empty => "empty decode path"@,
            DecodePathError::InvalidType(tag) => "invalid decode type Some("@ + decimal(tag as nat)
                + ")"@,
        }
    }

    /// The message of the error.
    pub fn message(&self) -> (r: String)
        ensures
            r@ == self.text(),
    {
        match self {
            DecodePathError::Empty => "empty decode path".to_owned(),
            DecodePathError::InvalidType(tag) => {
                let mut out = "invalid decode type Some(".to_owned();
                push_decimal(&mut out, *tag as u64);
                out.append(")");
                out
            },
        }
    }
}

/// What a stored text means: a path, or why it is none. Undefined for a text
/// that the reading platform family has stored as raw units.
pub open spec fn decoded_path(stored: Seq<char>) -> Result<Seq<char>, DecodePathError> {
    if stored.len() == 0 {
        Err(DecodePathError::Empty)
    } else if stored.last() == text_marker() {
        Ok(stored.drop_last())
    } else {
        Err(DecodePathError::InvalidType(vstd::utf8::encode_utf8(stored).last()))
    }
}

/// Whether a stored text holds raw units of the platform family, which cannot
/// be read back.
pub open spec fn stored_raw(stored: Seq<char>, family: PathFamily) -> bool {
    stored.len() > 0 && stored.last() == family_marker(family)
}

/// Whether a stored text holds raw units of the platform family.
pub fn is_stored_raw(stored: &str, family: PathFamily) -> (r: bool)
    ensures
        r == stored_raw(stored@, family),
{
    let chars = chars_of(stored);
    if chars.len() == 0 {
        return false;
    }
    let last = chars[chars.len() - 1];
    match family {
        PathFamily::Unix => last == 'A',
        PathFamily::Windows => last == 'B',
        PathFamily::Wasm => last == 'C',
    }
}

proof fn lemma_encoding_nonempty(text: Seq<char>)
    requires
        text.len() > 0,
    ensures
        vstd::utf8::encode_utf8(text).len() > 0,
{
    reveal_with_fuel(vstd::utf8::encode_utf8, 2);
}

/// Unpacks a stored path. Raw units of the reader's own platform family cannot
/// be unpacked and must not be asked for.
pub fn decode_path(path: &str, family: PathFamily) -> (r: Result<String, DecodePathError>)
    requires
        !stored_raw(path@, family),
    ensures
        match decoded_path(path@) {
            Ok(text) => r is Ok && r->Ok_0@ == text,
            Err(error) => r == Err::<String, DecodePathError>(error),
        },
{
    let chars = chars_of(path);
    if chars.len() == 0 {
        return Err(DecodePathError::Empty);
    }
    let tail: usize = chars.len() - 1;
    if chars[tail] == '@' {
        assert(chars@.subrange(0, tail as int) =~= path@.drop_last());
        return Ok(text_between(&chars, 0, tail));
    }
    let bytes = path.as_bytes();
    proof {
        lemma_encoding_nonempty(path@);
    }
    Err(DecodePathError::InvalidType(bytes[bytes.len() - 1]))
}

/// A path that is text comes back from its stored form on every platform.
pub proof fn law_text_path_round_trip(text: String, family: PathFamily)
    ensures
        !stored_raw(encoded_path(NativePath::Text(text)), family),
        decoded_path(encoded_path(NativePath::Text(text))) == Ok::<Seq<char>, DecodePathError>(
            text@,
        ),
{
    assert(text@.push(text_marker()).drop_last() =~= text@);
}

/// Which slots are active, and in which order their names come: exactly the names
/// of active slots, one for each of them, in the order of the slots.
pub proof fn law_active_slots_in_order(world: &WorldFile, names: Vec<String>)
    requires
        call_ensures(WorldFile::active_slots, (world,), names),
    ensures
        exists|at: Seq<int>|
            #![trigger at.len()]
            at.len() == names@.len() && (forall|i: int|
                0 <= i < at.len() ==> 0 <= #[trigger] at[i] < world.slots@.len()
                    && world.slots@[at[i]].active && world.slots@[at[i]].name@ == names@[i]@) && (
            forall|i: int, j: int| 0 <= i < j < at.len() ==> #[trigger] at[i] < #[trigger] at[j])
                && (forall|k: int|
                0 <= k < world.slots@.len() && (#[trigger] world.slots@[k]).active ==> at.contains(
                    k,
                )),
{
    let at = active_places(world.slots@);
    lemma_active_places(world.slots@);
    let own = texts(names@);
    assert(own.len() == names@.len());
    assert(at.len() == names@.len());
    assert forall|i: int| 0 <= i < at.len() implies 0 <= #[trigger] at[i] < world.slots@.len()
        && world.slots@[at[i]].active && world.slots@[at[i]].name@ == names@[i]@ by {
        assert(own[i] == names@[i]@);
        assert(active_names(world.slots@)[i] == own[i]);
    }
}

/// The places of the active slots.
spec fn active_places(slots: Seq<WorldFileSlot>) -> Seq<int>
    decreases slots.len(),
{
    if slots.len() == 0 {
        Seq::empty()
    } else if slots.last().active {
        active_places(slots.drop_last()).push(slots.len() - 1)
    } else {
        active_places(slots.drop_last())
    }
}

proof fn lemma_active_places(slots: Seq<WorldFileSlot>)
    ensures
        ({
            let at = active_places(slots);
            &&& at.len() == active_names(slots).len()
            &&& forall|i: int|
                0 <= i < at.len() ==> 0 <= #[trigger] at[i] < slots.len() && slots[at[i]].active
                    && slots[at[i]].name@ == active_names(slots)[i]
            &&& forall|i: int, j: int|
                0 <= i < j < at.len() ==> #[trigger] at[i] < #[trigger] at[j]
            &&& forall|k: int|
                0 <= k < slots.len() && (#[trigger] slots[k]).active ==> at.contains(k)
        }),
    decreases slots.len(),
{
    if slots.len() > 0 {
        let rest = slots.drop_last();
        lemma_active_places(rest);
        let some = active_places(rest);
        let all = active_places(slots);
        assert forall|i: int| 0 <= i < all.len() implies 0 <= #[trigger] all[i] < slots.len()
            && slots[all[i]].active && slots[all[i]].name@ == active_names(slots)[i] by {
            if i < some.len() {
                assert(all[i] == some[i]);
                assert(rest[some[i]] == slots[some[i]]);
            }
        }
        assert forall|i: int, j: int| 0 <= i < j < all.len() implies #[trigger] all[i]
            < #[trigger] all[j] by {
            assert(all[i] == some[i]);
            if j < some.len() {
                assert(all[j] == some[j]);
            }
        }
        assert forall|k: int| 0 <= k < slots.len() && (#[trigger] slots[k]).active implies all.contains(
            k,
        ) by {
            if k < rest.len() {
                assert(rest[k].active);
                let i = choose|i: int| 0 <= i < some.len() && some[i] == k;
                assert(all[i] == k);
            } else {
                assert(all[all.len() - 1] == k);
            }
        }
    }
}

/// A refresh has a slot to ask for exactly where one is active.
pub proof fn law_any_slot_active(world: &WorldFile, any: bool, names: Vec<String>)
    requires
        call_ensures(WorldFile::has_active_slot, (world,), any),
        call_ensures(WorldFile::active_slots, (world,), names),
    ensures
        any == (names@.len() > 0),
        any == exists|i: int| 0 <= i < world.slots@.len() && (#[trigger] world.slots@[i]).active,
{
    lemma_active_places(world.slots@);
    assert(texts(names@).len() == names@.len());
    let at = active_places(world.slots@);
    if names@.len() > 0 {
        assert(world.slots@[at[0]].active);
    }
    if any {
        let i = choose|i: int| 0 <= i < world.slots@.len() && (#[trigger] world.slots@[i]).active;
        assert(at.contains(i));
    }
}

/// What a connection gets of a world is how to reach it and which slots there are,
/// and nothing of what they have received.
pub proof fn law_connection_gets_no_progress(world: &WorldFile, copy: WorldFile)
    requires
        call_ensures(WorldFile::clone_for_connection, (world,), copy),
    ensures
        copy.name@ == world.name@,
        copy.conn_type == world.conn_type,
        copy.address@ == world.address@,
        copy.password@ == world.password@,
        copy.slots@.len() == world.slots@.len(),
        forall|i: int|
            0 <= i < world.slots@.len() ==> {
                let slot = #[trigger] copy.slots@[i];
                &&& slot.name@ == world.slots@[i].name@
                &&& slot.active == world.slots@[i].active
                &&& slot.confirmed == 0
                &&& slot.total_items == 0
                &&& slot.inventory@.len() == 0
            },
{
    assert forall|i: int| 0 <= i < world.slots@.len() implies {
        let slot = #[trigger] copy.slots@[i];
        &&& slot.name@ == world.slots@[i].name@
        &&& slot.active == world.slots@[i].active
        &&& slot.confirmed == 0
        &&& slot.total_items == 0
        &&& slot.inventory@.len() == 0
    } by {
        assert(slot_for_connection(world.slots@[i], copy.slots@[i]));
    }
}

/// New slots are active and have nothing; new worlds have no slots and are reached
/// through the web host.
pub proof fn law_new_slots_and_worlds(slot: WorldFileSlot, world: WorldFile)
    requires
        call_ensures(<WorldFileSlot as Default>::default, (), slot),
        call_ensures(<WorldFile as Default>::default, (), world),
    ensures
        slot.active,
        slot.name@.len() == 0,
        slot.confirmed == 0,
        slot.total_items == 0,
        slot.inventory@.len() == 0,
        world.conn_type is Room,
        world.name@.len() == 0,
        world.address@.len() == 0,
        world.password@.len() == 0,
        world.slots@.len() == 0,
{
}

/// A path that is text is stored and read back as it was, by every platform, and
/// ends in its own mark; what platforms store raw has another mark each.
pub proof fn law_stored_paths_are_marked(
    path: &NativePath,
    stored: String,
    text: &str,
    family: PathFamily,
    raw: bool,
)
    requires
        call_ensures(encode_path, (path,), stored),
        text@ == stored@,
        call_ensures(is_stored_raw, (text, family), raw),
    ensures
        stored@.len() > 0,
        match path {
            NativePath::Text(text) => stored@.last() == '@' && stored@.drop_last() == text@ && !raw,
            NativePath::Unix(bytes) => stored@.last() == 'A' && stored@.drop_last() == z85_text(
                bytes@,
            ) && raw == family is Unix,
            NativePath::Windows(units) => stored@.last() == 'B' && raw == family is Windows,
            NativePath::Wasm(bytes) => stored@.last() == 'C' && stored@.drop_last() == z85_text(
                bytes@,
            ) && raw == family is Wasm,
        },
{
    match path {
        NativePath::Text(text) => {
            assert(stored@.drop_last() =~= text@);
        },
        NativePath::Unix(bytes) => {
            assert(stored@.drop_last() =~= z85_text(bytes@));
        },
        NativePath::Windows(units) => {},
        NativePath::Wasm(bytes) => {
            assert(stored@.drop_last() =~= z85_text(bytes@));
        },
    }
}

/// The units of a path are stored with their lower byte first.
pub proof fn law_units_stored_low_byte_first(units: Vec<u16>, stored: String, bytes: Seq<u8>)
    requires
        call_ensures(encode_path, (&NativePath::Windows(units),), stored),
        bytes.len() == 2 * units@.len(),
        forall|i: int|
            0 <= i < units@.len() ==> bytes[2 * i] + 256 * bytes[2 * i + 1] == #[trigger] units@[i],
    ensures
        stored@.drop_last() == z85_text(bytes),
{
    assert(stored@.drop_last() =~= z85_text(le_bytes(units@)));
    assert forall|i: int| 0 <= i < bytes.len() implies bytes[i] == #[trigger] le_bytes(
        units@,
    )[i] by {
        let k = i / 2;
        assert(bytes[2 * k] + 256 * bytes[2 * k + 1] == units@[k]);
        assert(i == 2 * k || i == 2 * k + 1);
    }
    assert(bytes =~= le_bytes(units@));
}

/// A stored text is read where it has the mark of text, as what stands before the
/// mark. An empty one and one with another mark are told apart.
pub proof fn law_stored_text_is_read(
    path: &str,
    family: PathFamily,
    r: Result<String, DecodePathError>,
)
    requires
        !stored_raw(path@, family),
        call_ensures(decode_path, (path, family), r),
    ensures
        r is Ok == (path@.len() > 0 && path@.last() == '@'),
        r is Ok ==> r->Ok_0@ == path@.drop_last(),
        path@.len() == 0 ==> r == Err::<String, DecodePathError>(DecodePathError::Empty),
        path@.len() > 0 && path@.last() != '@' ==> r is Err && r->Err_0 is InvalidType
            && r->Err_0->InvalidType_0 == vstd::utf8::encode_utf8(path@).last(),
{
}

/// What is said of a stored path that cannot be read.
pub proof fn law_path_errors_say_why(error: &DecodePathError, r: String)
    requires
        call_ensures(DecodePathError::message, (error,), r),
    ensures
        error is Empty ==> r@ == "empty decode path"@,
        error is InvalidType ==> r@ == "invalid decode type Some("@ + decimal(
            error->InvalidType_0 as nat,
        ) + ")"@,
{
}

} // verus!
