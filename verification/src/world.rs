//! A plain world: a name, how to reach it, and named slots that can be told
//! apart while the program runs.

use vstd::prelude::*;

verus! {

broadcast use vstd::string::group_string_axioms;

/// A number by which a slot is found again while the program runs.
#[derive(Debug, Clone, Copy, PartialEq, Eq, Structural, Hash)]
pub struct InstanceLocalId(pub u32);

/// Where the numbers come from: one after the other, and from the start again
/// after the last.
#[derive(Debug)]
pub struct IdSource {
    pub next: u32,
}

/// The number that is drawn after `n` others.
pub open spec fn drawn(start: u32, n: int) -> int {
    (start + n) % 0x1_0000_0000
}

impl IdSource {
    /// A source that starts at zero.
    pub fn new() -> (r: Self)
        ensures
            r.next == 0,
    {
        IdSource { next: 0 }
    }
}

impl InstanceLocalId {
    /// Draws the next number.
    pub fn default(source: &mut IdSource) -> (r: Self)
        ensures
            r.0 == old(source).next,
            final(source).next == drawn(old(source).next, 1),
    {
        let id = InstanceLocalId(source.next);
        source.next = source.next.wrapping_add(1);
        id
    }
}

/// Numbers are drawn one after the other: the number that is drawn after `n`
/// others is followed by the one that is drawn after `n + 1`.
pub proof fn law_draws_in_sequence(start: u32, n: int)
    requires
        0 <= n,
    ensures
        0 <= drawn(start, n) <= u32::MAX,
        drawn(drawn(start, n) as u32, 1) == drawn(start, n + 1),
{
    assert(0 <= drawn(start, n) < 0x1_0000_0000);
    vstd::arithmetic::div_mod::lemma_add_mod_noop(start + n, 1, 0x1_0000_0000);
    vstd::arithmetic::div_mod::lemma_mod_twice(start + n, 0x1_0000_0000);
}

/// Of the numbers that are drawn in one round through all of them, no two are
/// equal.
pub proof fn law_ids_distinct(start: u32, i: int, j: int)
    requires
        0 <= i < j,
        j - i < 0x1_0000_0000,
    ensures
        drawn(start, i) != drawn(start, j),
{
    let round: int = 0x1_0000_0000;
    let a = start + i;
    let b = start + j;
    if a % round == b % round {
        vstd::arithmetic::div_mod::lemma_fundamental_div_mod(a, round);
        vstd::arithmetic::div_mod::lemma_fundamental_div_mod(b, round);
        assert(b - a == round * (b / round) - round * (a / round));
        assert(b - a == round * (b / round - a / round)) by (nonlinear_arith)
            requires
                b - a == round * (b / round) - round * (a / round),
        ;
        assert(false) by (nonlinear_arith)
            requires
                0 < b - a < round,
                b - a == round * (b / round - a / round),
        ;
    }
}

/// Whether the numbers are those of draws from one source, one after the other:
/// the source is `sources[k]` before draw `k`, and `sources[k + 1]` after it.
pub open spec fn draws(sources: Seq<IdSource>, ids: Seq<InstanceLocalId>) -> bool {
    &&& sources.len() == ids.len() + 1
    &&& forall|k: int|
        0 <= k < ids.len() ==> (#[trigger] ids[k]).0 == sources[k].next && sources[k + 1].next
            == drawn(sources[k].next, 1)
}

/// What a source gives after `n` draws.
proof fn lemma_draws(sources: Seq<IdSource>, ids: Seq<InstanceLocalId>, n: int)
    requires
        draws(sources, ids),
        0 <= n <= ids.len(),
    ensures
        sources[n].next == drawn(sources[0].next, n),
    decreases n,
{
    if n > 0 {
        lemma_draws(sources, ids, n - 1);
        assert(ids[n - 1].0 == sources[n - 1].next);
        law_draws_in_sequence(sources[0].next, n - 1);
    }
}

/// A number that is drawn by [`InstanceLocalId::default`] differs from those of
/// all earlier draws, as long as there are fewer of these than numbers.
pub proof fn law_default_is_new(
    sources: Seq<IdSource>,
    ids: Seq<InstanceLocalId>,
    i: int,
    j: int,
)
    requires
        draws(sources, ids),
        0 <= i < j < ids.len(),
        j - i < 0x1_0000_0000,
    ensures
        ids[i] != ids[j],
{
    lemma_draws(sources, ids, i);
    lemma_draws(sources, ids, j);
    assert(ids[i].0 == sources[i].next);
    assert(ids[j].0 == sources[j].next);
    law_ids_distinct(sources[0].next, i, j);
}

/// A slot.
#[derive(Debug)]
pub struct WorldSlot {
    pub name: String,
    pub id: InstanceLocalId,
}

impl WorldSlot {
    /// A new slot without a name.
    pub fn new(source: &mut IdSource) -> (r: Self)
        ensures
            r.name@ == Seq::<char>::empty(),
            r.id.0 == old(source).next,
            final(source).next == drawn(old(source).next, 1),
    {
        WorldSlot { name: String::new(), id: InstanceLocalId::default(source) }
    }
}

/// Whether two slots are the same to the user.
pub open spec fn same_slot(a: WorldSlot, b: WorldSlot) -> bool {
    a.name@ == b.name@ && a.id == b.id
}

impl Clone for WorldSlot {
    /// A copy for a connection: it is the same slot.
    fn clone(&self) -> (r: Self)
        ensures
            same_slot(*self, r),
    {
        WorldSlot { name: self.name.clone(), id: self.id }
    }
}

/// A world.
#[derive(Debug)]
pub struct World {
    pub name: String,
    pub address: String,
    pub password: String,
    pub slots: Vec<WorldSlot>,
}

/// Whether a world is a new one.
pub open spec fn is_new_world(world: World) -> bool {
    &&& world.name@ == Seq::<char>::empty()
    &&& world.address@ == Seq::<char>::empty()
    &&& world.password@ == Seq::<char>::empty()
    &&& world.slots@ == Seq::<WorldSlot>::empty()
}

impl Default for World {
    fn default() -> (r: Self)
        ensures
            is_new_world(r),
    {
        World {
            name: String::new(),
            address: String::new(),
            password: String::new(),
            slots: Vec::new(),
        }
    }
}

impl Clone for World {
    fn clone(&self) -> (r: Self)
        ensures
            r.name@ == self.name@,
            r.address@ == self.address@,
            r.password@ == self.password@,
            r.slots@.len() == self.slots@.len(),
            forall|i: int|
                0 <= i < self.slots@.len() ==> same_slot(self.slots@[i], #[trigger] r.slots@[i]),
    {
        let mut slots: Vec<WorldSlot> = Vec::new();
        let mut i: usize = 0;
        while i < self.slots.len()
            invariant
                i <= self.slots@.len(),
                slots@.len() == i,
                forall|k: int| 0 <= k < i ==> same_slot(self.slots@[k], #[trigger] slots@[k]),
            decreases self.slots@.len() - i,
        {
            slots.push(self.slots[i].clone());
            i += 1;
        }
        World {
            name: self.name.clone(),
            address: self.address.clone(),
            password: self.password.clone(),
            slots,
        }
    }
}

/// Whether no two slots have the same number.
pub open spec fn ids_distinct(slots: Seq<WorldSlot>) -> bool {
    forall|i: int, j: int|
        0 <= i < j < slots.len() ==> (#[trigger] slots[i]).id != (#[trigger] slots[j]).id
}

/// Two numbers that are drawn from one source one after the other differ, and the
/// second follows the first, with zero after the highest.
pub proof fn law_next_number_follows(
    first: &mut IdSource,
    second: &mut IdSource,
    a: InstanceLocalId,
    b: InstanceLocalId,
)
    requires
        call_ensures(InstanceLocalId::default, (first,), a),
        *old(second) == *final(first),
        call_ensures(InstanceLocalId::default, (second,), b),
    ensures
        a.0 == old(first).next,
        a != b,
        a.0 < u32::MAX ==> b.0 == a.0 + 1,
        a.0 == u32::MAX ==> b.0 == 0,
{
}

/// A new slot has no name, and a number that is drawn for it; the first number is
/// zero.
pub proof fn law_new_slot_has_a_new_number(fresh: IdSource, source: &mut IdSource, slot: WorldSlot)
    requires
        call_ensures(IdSource::new, (), fresh),
        call_ensures(WorldSlot::new, (source,), slot),
    ensures
        fresh.next == 0,
        slot.name@.len() == 0,
        slot.id.0 == old(source).next,
        final(source).next != old(source).next,
        old(source).next < u32::MAX ==> final(source).next == old(source).next + 1,
{
}

/// A copy of a world says the same, and its slots are the same slots.
pub proof fn law_copy_is_the_same_world(fresh: World, world: &World, copy: World)
    requires
        call_ensures(<World as Default>::default, (), fresh),
        call_ensures(<World as Clone>::clone, (world,), copy),
    ensures
        fresh.name@.len() == 0,
        fresh.address@.len() == 0,
        fresh.password@.len() == 0,
        fresh.slots@.len() == 0,
        copy.name@ == world.name@,
        copy.address@ == world.address@,
        copy.password@ == world.password@,
        copy.slots@.len() == world.slots@.len(),
        forall|i: int|
            0 <= i < world.slots@.len() ==> (#[trigger] copy.slots@[i]).name@
                == world.slots@[i].name@ && copy.slots@[i].id == world.slots@[i].id,
{
    assert forall|i: int| 0 <= i < world.slots@.len() implies (#[trigger] copy.slots@[i]).name@
        == world.slots@[i].name@ && copy.slots@[i].id == world.slots@[i].id by {
        assert(same_slot(world.slots@[i], copy.slots@[i]));
    }
}

} // verus!
