//! A window for a plain world whose slots open in windows of their own.

use vstd::prelude::*;
use vstd::string::StringExecFns;

use crate::data::{texts, z85_text};
use crate::order::{arrange, arranged, positions, sort_indices, IndexOrder};
use crate::os_path::{encode_path, path_bytes, OsPath};
use crate::slots::{
    key_before, law_sort_keeps_items, sorted_by, stable_order, swap_items, swapped, KeyOrder,
};
use crate::text::{joined, lemma_lex_irreflexive, lex_lt};
use crate::world::{drawn, is_new_world, IdSource, World, WorldSlot};
use crate::world_ui::{
    action_fits, clicks_fit, names_of, plain_title, row_action, slot_names, RowClicks, RowPass,
    SlotAction,
};

verus! {

broadcast use vstd::string::group_string_axioms;

/// Where a slot's window was: the bits of its coordinates, and its state.
#[derive(Debug, Clone, Copy, PartialEq, Eq)]
pub struct SlotViewport {
    pub outer_position: Option<(u32, u32)>,
    pub inner_size: Option<(u32, u32)>,
    pub fullscreen: Option<bool>,
    pub maximized: Option<bool>,
}

/// The window of a slot.
#[derive(Debug, Clone, Copy, PartialEq, Eq)]
pub struct SlotUi {
    pub open: bool,
    /// Where the window was when it was closed last.
    pub viewport: Option<SlotViewport>,
}

impl Default for SlotUi {
    fn default() -> (r: Self)
        ensures
            r == (SlotUi { open: false, viewport: None }),
    {
        SlotUi { open: false, viewport: None }
    }
}

impl SlotUi {
    /// Closes the window, and notes where it was.
    pub fn close(&mut self, viewport: SlotViewport)
        ensures
            *final(self) == (SlotUi { open: false, viewport: Some(viewport) }),
    {
        self.open = false;
        self.viewport = Some(viewport);
    }

    /// Whether there is a window to show, and where it has to be put: an open
    /// one is put where it was once, and then left to the user.
    pub fn placement(&mut self) -> (r: Option<Option<SlotViewport>>)
        ensures
            if old(self).open {
                &&& r == Some(old(self).viewport)
                &&& *final(self) == (SlotUi { open: true, viewport: None })
            } else {
                r is None && *final(self) == *old(self)
            },
    {
        if self.open {
            Some(self.viewport.take())
        } else {
            None
        }
    }

    /// What is to be kept of the window for the next start: where it was when
    /// it was closed, or where it is now.
    pub fn kept(&self, now: SlotViewport) -> (r: SlotViewport)
        ensures
            r == match self.viewport {
                Some(viewport) => viewport,
                None => now,
            },
    {
        match self.viewport {
            Some(viewport) => viewport,
            None => now,
        }
    }
}

/// The state of the program: the world, and a window for each of its slots.
#[derive(Debug)]
pub struct App {
    pub world_path: Option<OsPath>,
    pub world: World,
    pub windows: Vec<SlotUi>,
    /// Whether the world has changes that are not saved.
    pub world_dirty: bool,
}

/// Windows that are all closed.
pub open spec fn closed_windows(n: nat) -> Seq<SlotUi> {
    Seq::new(n, |i: int| SlotUi { open: false, viewport: None })
}

/// The windows of a world after the places of earlier windows are known.
pub open spec fn placed(windows: Seq<SlotUi>, viewports: Seq<SlotViewport>) -> Seq<SlotUi> {
    Seq::new(
        windows.len(),
        |i: int|
            if i < viewports.len() {
                SlotUi { viewport: Some(viewports[i]), ..windows[i] }
            } else {
                windows[i]
            },
    )
}

/// The title of a slot's window.
pub open spec fn slot_title(slot: Seq<char>, world: Seq<char>) -> Seq<char> {
    slot + " ("@ + world + ") - archiinventory"@
}

/// The title of a slot's window.
pub fn slot_window_title(slot: &str, world: &str) -> (r: String)
    ensures
        r@ == slot_title(slot@, world@),
{
    let mut out = joined(slot, " (");
    out.append(world);
    out.append(") - archiinventory");
    out
}

/// Windows that are all closed.
fn new_windows(n: usize) -> (r: Vec<SlotUi>)
    ensures
        r@ == closed_windows(n as nat),
{
    let mut windows: Vec<SlotUi> = Vec::new();
    let mut i: usize = 0;
    while i < n
        invariant
            i <= n,
            windows@ == closed_windows(i as nat),
        decreases n - i,
    {
        windows.push(SlotUi::default());
        i += 1;
        assert(windows@ =~= closed_windows(i as nat));
    }
    windows
}

impl App {
    /// Every slot has a window.
    pub open spec fn wf(&self) -> bool {
        self.windows@.len() == self.world.slots@.len()
    }

    /// The state that the program starts with: the world that was open last,
    /// where it could be loaded, or a new one, and the windows where they were
    /// as far as that is known.
    pub fn new(
        restored: Option<(World, OsPath)>,
        viewports: &Vec<SlotViewport>,
    ) -> (r: Self)
        ensures
            r.wf(),
            match restored {
                Some(found) => r.world == found.0 && r.world_path == Some(found.1),
                None => is_new_world(r.world) && r.world_path is None,
            },
            !r.world_dirty,
            r.windows@ == placed(closed_windows(r.world.slots@.len()), viewports@),
    {
        let (world, world_path) = match restored {
            Some((world, path)) => (world, Some(path)),
            None => (World::default(), None),
        };
        let mut windows = new_windows(world.slots.len());
        let ghost start = windows@;
        let mut i: usize = 0;
        assert(windows@ =~= placed(start, viewports@.take(0)));
        while i < windows.len() && i < viewports.len()
            invariant
                i <= viewports@.len(),
                i <= windows@.len(),
                windows@ == placed(start, viewports@.take(i as int)),
                windows@.len() == start.len(),
            decreases windows@.len() - i,
        {
            windows[i].viewport = Some(viewports[i]);
            i += 1;
            assert(windows@ =~= placed(start, viewports@.take(i as int)));
        }
        assert(windows@ =~= placed(start, viewports@));
        App { world_path, world, windows, world_dirty: false }
    }

    /// The title of the window.
    pub fn title(&self) -> (r: String)
        ensures
            r@ == plain_title(self.world.name@),
    {
        joined(self.world.name.as_str(), " - archiinventory")
    }

    /// Takes another world, from a file or a new one; its windows are closed.
    /// Where the old one has changes that are not saved, only if the user has
    /// agreed to lose them.
    pub fn load(&mut self, path: Option<OsPath>, world: World, agreed: bool)
        requires
            old(self).wf(),
        ensures
            final(self).wf(),
            if !old(self).world_dirty || agreed {
                &&& final(self).world_path == path
                &&& final(self).world == world
                &&& !final(self).world_dirty
                &&& final(self).windows@ == closed_windows(world.slots@.len())
            } else {
                *final(self) == *old(self)
            },
    {
        if !self.world_dirty || agreed {
            self.windows = new_windows(world.slots.len());
            self.world_path = path;
            self.world = world;
            self.world_dirty = false;
        }
    }

    /// Whether there is anything to save, and where.
    pub fn can_save(&self) -> (r: bool)
        ensures
            r == (self.world_path is Some && self.world_dirty),
    {
        self.world_path.is_some() && self.world_dirty
    }

    /// Takes the file that the user has chosen for the world.
    pub fn set_path(&mut self, path: OsPath)
        ensures
            *final(self) == (App { world_path: Some(path), ..*old(self) }),
    {
        self.world_path = Some(path);
    }

    /// Takes over whether the world could be written.
    pub fn saved(&mut self, success: bool)
        ensures
            *final(self) == (App {
                world_dirty: old(self).world_dirty && !success,
                ..*old(self)
            }),
    {
        if success {
            self.world_dirty = false;
        }
    }

    /// Whether the user has to be asked before the window closes.
    pub fn asks_before_close(&self, close_requested: bool) -> (r: bool)
        ensures
            r == (close_requested && self.world_dirty),
    {
        close_requested && self.world_dirty
    }

    /// Notes that the world has changes that are not saved.
    pub fn modified_world(&mut self)
        ensures
            *final(self) == (App { world_dirty: true, ..*old(self) }),
    {
        self.world_dirty = true;
    }

    /// Takes over the clicks in the row of slot `i`. The button that views the
    /// slot opens its window, or asks an open one to come to the front. Returns
    /// whether the slot's name gets the keyboard focus, and whether the slot's
    /// window has to come to the front.
    pub fn slot_name_ui(
        &mut self,
        pass: &mut RowPass,
        i: usize,
        clicks: RowClicks,
    ) -> (r: (bool, bool))
        requires
            old(self).wf(),
            clicks_fit(clicks, i as int, old(self).world.slots@.len() as int),
            action_fits(old(pass).action, old(self).world.slots@.len() as int),
        ensures
            final(self).wf(),
            action_fits(final(pass).action, final(self).world.slots@.len() as int),
            final(self).windows@ == old(self).windows@.update(
                i as int,
                SlotUi {
                    open: old(self).windows@[i as int].open || clicks.view,
                    ..old(self).windows@[i as int]
                },
            ),
            *final(self) == (App { windows: final(self).windows, ..*old(self) }),
            *final(pass) == (RowPass {
                action: row_action(old(pass).action, i as int, clicks),
                modified: old(pass).modified || clicks.edited,
            }),
            r.0 == (final(pass).action == SlotAction::Focus(i)),
            r.1 == (clicks.view && old(self).windows@[i as int].open),
    {
        let len: usize = self.world.slots.len();
        if clicks.delete {
            pass.action = SlotAction::Delete(i);
        }
        if clicks.up {
            pass.action = SlotAction::Swap(i - 1, i);
        }
        if clicks.down {
            assert(i + 1 < len);
            pass.action = SlotAction::Swap(i, i + 1);
        }
        let to_front = clicks.view && self.windows[i].open;
        if clicks.view && !self.windows[i].open {
            self.windows[i].open = true;
        }
        assert(self.windows@ =~= old(self).windows@.update(
            i as int,
            SlotUi {
                open: old(self).windows@[i as int].open || clicks.view,
                ..old(self).windows@[i as int]
            },
        ));
        if clicks.edited {
            pass.modified = true;
        }
        let focus = match pass.action {
            SlotAction::Focus(at) => at == i,
            _ => false,
        };
        (focus, to_front)
    }

    /// Ends a pass over the rows: does what was asked for with the slots and
    /// their windows, and notes whether anything was changed.
    pub fn end_rows(&mut self, pass: RowPass)
        requires
            old(self).wf(),
            action_fits(pass.action, old(self).world.slots@.len() as int),
        ensures
            final(self).wf(),
            match pass.action {
                SlotAction::Keep | SlotAction::Focus(_) => {
                    &&& final(self).world.slots@ == old(self).world.slots@
                    &&& final(self).windows@ == old(self).windows@
                },
                SlotAction::Swap(a, b) => {
                    &&& final(self).world.slots@ == swapped(
                        old(self).world.slots@,
                        a as int,
                        b as int,
                    )
                    &&& final(self).windows@ == swapped(old(self).windows@, a as int, b as int)
                },
                SlotAction::Delete(i) => {
                    &&& final(self).world.slots@ == old(self).world.slots@.remove(i as int)
                    &&& final(self).windows@ == old(self).windows@.remove(i as int)
                },
            },
            *final(self) == (App {
                world: World { slots: final(self).world.slots, ..old(self).world },
                windows: final(self).windows,
                world_dirty: old(self).world_dirty || pass.modified || pass.action is Swap
                    || pass.action is Delete,
                ..*old(self)
            }),
    {
        let mut modified = pass.modified;
        match pass.action {
            SlotAction::Keep | SlotAction::Focus(_) => {},
            SlotAction::Delete(i) => {
                let _ = self.world.slots.remove(i);
                let _ = self.windows.remove(i);
                modified = true;
            },
            SlotAction::Swap(a, b) => {
                swap_items(&mut self.world.slots, a, b);
                swap_items(&mut self.windows, a, b);
                modified = true;
            },
        }
        if modified {
            self.modified_world();
        }
    }

    /// Adds a new slot behind the others, whose name gets the keyboard focus.
    pub fn add_slot(&mut self, pass: &mut RowPass, source: &mut IdSource)
        requires
            old(self).wf(),
        ensures
            final(self).wf(),
            *final(pass) == (RowPass {
                action: SlotAction::Focus(old(self).world.slots@.len() as usize),
                modified: true,
            }),
            final(source).next == drawn(old(source).next, 1),
            final(self).world.slots@.len() == old(self).world.slots@.len() + 1,
            final(self).world.slots@.drop_last() == old(self).world.slots@,
            final(self).world.slots@.last().name@ == Seq::<char>::empty(),
            final(self).world.slots@.last().id.0 == old(source).next,
            final(self).windows@ == old(self).windows@.push(
                (SlotUi { open: false, viewport: None }),
            ),
            *final(self) == (App {
                world: World { slots: final(self).world.slots, ..old(self).world },
                windows: final(self).windows,
                ..*old(self)
            }),
    {
        pass.action = SlotAction::Focus(self.world.slots.len());
        pass.modified = true;
        self.world.slots.push(WorldSlot::new(source));
        self.windows.push(SlotUi::default());
        assert(self.world.slots@.drop_last() =~= old(self).world.slots@);
    }

    /// Sorts the slots by name; slots of the same name keep their order. Every
    /// slot keeps its window.
    pub fn sort_slots(&mut self, pass: &mut RowPass)
        requires
            old(self).wf(),
        ensures
            final(self).wf(),
            *final(pass) == (RowPass { modified: true, ..*old(pass) }),
            exists|p: Seq<usize>| #[trigger]
                stable_order(slot_names(old(self).world.slots@), p) && final(self).world.slots@
                    == arranged(old(self).world.slots@, p) && final(self).windows@ == arranged(
                    old(self).windows@,
                    p,
                ),
            *final(self) == (App {
                world: World { slots: final(self).world.slots, ..old(self).world },
                windows: final(self).windows,
                ..*old(self)
            }),
    {
        let keys = names_of(&self.world.slots);
        assert(texts(keys@).len() == slot_names(self.world.slots@).len());
        let order = KeyOrder { keys: &keys };
        let p = sort_indices(&order, positions(self.world.slots.len()));
        proof {
            assert forall|i: int, j: int| 0 <= i < j < p@.len() implies p@[i] != p@[j] by {
                assert(order.before(p@[i] as int, p@[j] as int));
                order.lemma_irreflexive(p@[i] as int);
            }
            assert(stable_order(slot_names(self.world.slots@), p@));
        }
        let mut slots: Vec<WorldSlot> = Vec::new();
        std::mem::swap(&mut slots, &mut self.world.slots);
        self.world.slots = arrange(slots, &p);
        let mut windows: Vec<SlotUi> = Vec::new();
        std::mem::swap(&mut windows, &mut self.windows);
        self.windows = arrange(windows, &p);
        pass.modified = true;
    }

    /// What is to be kept for the next start: the place of the world.
    pub fn save(&self, tag: &str) -> (r: Option<String>)
        ensures
            match self.world_path {
                Some(path) => r is Some && r->Some_0@ == tag@ + ","@ + z85_text(path_bytes(path)),
                None => r is None,
            },
    {
        match &self.world_path {
            Some(path) => Some(encode_path(path, tag)),
            None => None,
        }
    }

    /// What is to be kept of the windows for the next start, given where they
    /// are now.
    pub fn kept_viewports(&self, now: &Vec<SlotViewport>) -> (r: Vec<SlotViewport>)
        requires
            now@.len() == self.windows@.len(),
        ensures
            r@ == Seq::new(
                self.windows@.len(),
                |i: int|
                    match self.windows@[i].viewport {
                        Some(viewport) => viewport,
                        None => now@[i],
                    },
            ),
    {
        let mut out: Vec<SlotViewport> = Vec::new();
        let mut i: usize = 0;
        while i < self.windows.len()
            invariant
                i <= self.windows@.len(),
                now@.len() == self.windows@.len(),
                out@.len() == i,
                forall|k: int|
                    0 <= k < i ==> #[trigger] out@[k] == match self.windows@[k].viewport {
                        Some(viewport) => viewport,
                        None => now@[k],
                    },
            decreases self.windows@.len() - i,
        {
            out.push(self.windows[i].kept(now[i]));
            i += 1;
        }
        out
    }
}

/// Moving slots moves their windows with them: a slot and its window are found
/// at the same place again.
pub proof fn law_window_follows_slot(pre: App, post: App, p: Seq<usize>, k: int)
    requires
        pre.wf(),
        stable_order(slot_names(pre.world.slots@), p),
        post.world.slots@ == arranged(pre.world.slots@, p),
        post.windows@ == arranged(pre.windows@, p),
        0 <= k < post.world.slots@.len(),
    ensures
        exists|i: int|
            0 <= i < pre.world.slots@.len() && post.world.slots@[k] == #[trigger] pre.world.slots@[i]
                && post.windows@[k] == pre.windows@[i],
{
    let i = p[k] as int;
    assert(post.world.slots@[k] == pre.world.slots@[i]);
}

/// A window that is closed is remembered where it was; it is put there once when it
/// is open again, and only an open one is shown.
pub proof fn law_window_comes_back(
    fresh: SlotUi,
    window: &mut SlotUi,
    viewport: SlotViewport,
    shown: &mut SlotUi,
    place: Option<Option<SlotViewport>>,
    now: SlotViewport,
    kept: SlotViewport,
)
    requires
        call_ensures(<SlotUi as Default>::default, (), fresh),
        call_ensures(SlotUi::close, (window, viewport), ()),
        call_ensures(SlotUi::placement, (shown,), place),
        call_ensures(SlotUi::kept, (old(shown), now), kept),
    ensures
        !fresh.open,
        fresh.viewport is None,
        !final(window).open,
        final(window).viewport == Some(viewport),
        place is Some == old(shown).open,
        place is Some ==> place->Some_0 == old(shown).viewport && final(shown).viewport is None,
        place is None ==> final(shown).viewport == old(shown).viewport,
        final(shown).open == old(shown).open,
        old(shown).viewport is Some ==> kept == old(shown).viewport->Some_0,
        old(shown).viewport is None ==> kept == now,
{
}

/// The program starts with the world that was open last or an empty one, and with a
/// closed window for each slot, at the place that it had as far as that is known.
pub proof fn law_start(restored: Option<(World, OsPath)>, viewports: &Vec<SlotViewport>, app: App)
    requires
        call_ensures(App::new, (restored, viewports), app),
    ensures
        restored is Some ==> app.world == restored->Some_0.0 && app.world_path == Some(
            restored->Some_0.1,
        ),
        restored is None ==> app.world.slots@.len() == 0 && app.world_path is None,
        !app.world_dirty,
        app.windows@.len() == app.world.slots@.len(),
        forall|i: int|
            0 <= i < app.windows@.len() ==> {
                let window = #[trigger] app.windows@[i];
                &&& !window.open
                &&& i < viewports@.len() ==> window.viewport == Some(viewports@[i])
                &&& i >= viewports@.len() ==> window.viewport is None
            },
{
}

/// A world with changes that are not saved is replaced only where the user has
/// agreed; the windows of the new world are closed.
pub proof fn law_unsaved_world_is_kept(
    app: &mut App,
    path: Option<OsPath>,
    world: World,
    agreed: bool,
)
    requires
        old(app).wf(),
        call_ensures(App::load, (app, path, world, agreed), ()),
    ensures
        old(app).world_dirty && !agreed ==> *final(app) == *old(app),
        !old(app).world_dirty || agreed ==> {
            &&& final(app).world == world
            &&& final(app).world_path == path
            &&& !final(app).world_dirty
            &&& final(app).windows@.len() == world.slots@.len()
            &&& forall|i: int|
                0 <= i < world.slots@.len() ==> !(#[trigger] final(app).windows@[i]).open && final(app).windows@[i].viewport is None
        },
{
}

/// When there is something to save, when the user is asked, and what a save and a
/// choice of a file leave.
pub proof fn law_saving(
    app: &App,
    requested: bool,
    asks: bool,
    can: bool,
    a: &mut App,
    success: bool,
    b: &mut App,
    path: OsPath,
    c: &mut App,
)
    requires
        call_ensures(App::asks_before_close, (app, requested), asks),
        call_ensures(App::can_save, (app,), can),
        call_ensures(App::saved, (a, success), ()),
        call_ensures(App::set_path, (b, path), ()),
        call_ensures(App::modified_world, (c,), ()),
    ensures
        asks == (requested && app.world_dirty),
        can == (app.world_dirty && app.world_path is Some),
        success ==> !final(a).world_dirty,
        !success ==> final(a).world_dirty == old(a).world_dirty,
        final(a).world == old(a).world,
        final(a).windows == old(a).windows,
        final(b).world_path == Some(path),
        final(b).world == old(b).world,
        final(b).world_dirty == old(b).world_dirty,
        final(c).world_dirty,
        final(c).world == old(c).world,
        final(c).windows == old(c).windows,
{
}

/// What the buttons of a row ask for, of which the last counts; the view button
/// opens the slot's window, or brings an open one to the front.
pub proof fn law_what_buttons_ask_for(
    app: &mut App,
    pass: &mut RowPass,
    i: usize,
    clicks: RowClicks,
    r: (bool, bool),
)
    requires
        old(app).wf(),
        clicks_fit(clicks, i as int, old(app).world.slots@.len() as int),
        action_fits(old(pass).action, old(app).world.slots@.len() as int),
        call_ensures(App::slot_name_ui, (app, pass, i, clicks), r),
    ensures
        clicks.down ==> final(pass).action == SlotAction::Swap(i, (i + 1) as usize),
        clicks.up && !clicks.down ==> final(pass).action == SlotAction::Swap((i - 1) as usize, i),
        clicks.delete && !clicks.up && !clicks.down ==> final(pass).action == SlotAction::Delete(i),
        !clicks.delete && !clicks.up && !clicks.down ==> final(pass).action == old(pass).action,
        final(pass).modified == (old(pass).modified || clicks.edited),
        final(app).world == old(app).world,
        final(app).windows@.len() == old(app).windows@.len(),
        final(app).windows@[i as int].open == (old(app).windows@[i as int].open || clicks.view),
        final(app).windows@[i as int].viewport == old(app).windows@[i as int].viewport,
        forall|k: int|
            0 <= k < old(app).windows@.len() && k != i ==> #[trigger] final(app).windows@[k] == old(app).windows@[k],
        r.0 == (old(pass).action == SlotAction::Focus(i) && !clicks.delete && !clicks.up
            && !clicks.down),
        r.1 == (clicks.view && old(app).windows@[i as int].open),
{
}

/// The end of a pass does what was asked for with the slots and with their windows
/// alike: two change places, or one is gone and those behind it move up.
pub proof fn law_end_of_a_pass(app: &mut App, pass: RowPass)
    requires
        old(app).wf(),
        action_fits(pass.action, old(app).world.slots@.len() as int),
        call_ensures(App::end_rows, (app, pass), ()),
    ensures
        final(app).windows@.len() == final(app).world.slots@.len(),
        ({
            let before = old(app).world.slots@;
            let after = final(app).world.slots@;
            let was = old(app).windows@;
            let is = final(app).windows@;
            match pass.action {
                SlotAction::Keep | SlotAction::Focus(_) => after == before && is == was,
                SlotAction::Swap(a, b) => {
                    &&& after.len() == before.len()
                    &&& after[a as int] == before[b as int]
                    &&& after[b as int] == before[a as int]
                    &&& is[a as int] == was[b as int]
                    &&& is[b as int] == was[a as int]
                    &&& forall|k: int|
                        0 <= k < before.len() && k != a && k != b ==> #[trigger] after[k]
                            == before[k] && is[k] == was[k]
                },
                SlotAction::Delete(i) => {
                    &&& after.len() == before.len() - 1
                    &&& forall|k: int|
                        0 <= k < i ==> #[trigger] after[k] == before[k] && is[k] == was[k]
                    &&& forall|k: int|
                        i <= k < after.len() ==> #[trigger] after[k] == before[k + 1] && is[k]
                            == was[k + 1]
                },
            }
        }),
        final(app).world_dirty == (old(app).world_dirty || pass.modified || pass.action is Swap
            || pass.action is Delete),
{
}

/// A new slot stands behind the others, with a number of its own and a closed
/// window.
pub proof fn law_new_slot_comes_last(app: &mut App, pass: &mut RowPass, source: &mut IdSource)
    requires
        old(app).wf(),
        call_ensures(App::add_slot, (app, pass, source), ()),
    ensures
        final(app).world.slots@.len() == old(app).world.slots@.len() + 1,
        final(app).windows@.len() == old(app).windows@.len() + 1,
        forall|k: int|
            0 <= k < old(app).world.slots@.len() ==> #[trigger] final(app).world.slots@[k] == old(app).world.slots@[k] && final(app).windows@[k] == old(app).windows@[k],
        ({
            let n = old(app).world.slots@.len() as int;
            let added = final(app).world.slots@[n];
            added.name@.len() == 0 && added.id.0 == old(source).next && !final(app).windows@[n].open
                && final(app).windows@[n].viewport is None
        }),
        final(source).next != old(source).next,
        final(pass).action == SlotAction::Focus(old(app).world.slots@.len() as usize),
        final(pass).modified,
{
    assert forall|k: int| 0 <= k < old(app).world.slots@.len() implies #[trigger] final(app).world.slots@[k] == old(app).world.slots@[k] && final(app).windows@[k] == old(app).windows@[k] by {
        assert(final(app).world.slots@.drop_last()[k] == final(app).world.slots@[k]);
    }
}

/// Sorting puts the names in alphabetical order. Slots with one name stay in their
/// order, none is lost or added, and every slot keeps its window.
pub proof fn law_slots_sorted_by_name(app: &mut App, pass: &mut RowPass, i: int, j: int)
    requires
        old(app).wf(),
        call_ensures(App::sort_slots, (app, pass), ()),
        0 <= i < j < final(app).world.slots@.len(),
    ensures
        final(app).world.slots@.to_multiset() == old(app).world.slots@.to_multiset(),
        ({
            let a = final(app).world.slots@[i].name@;
            let b = final(app).world.slots@[j].name@;
            &&& a == b || lex_lt(a, b)
            &&& exists|x: int, y: int|
                0 <= x < old(app).world.slots@.len() && 0 <= y < old(app).world.slots@.len() && x
                    != y && final(app).world.slots@[i] == #[trigger] old(app).world.slots@[x]
                    && final(app).world.slots@[j] == #[trigger] old(app).world.slots@[y] && final(app).windows@[i] == old(app).windows@[x] && final(app).windows@[j] == old(app).windows@[y] && (a == b ==> x < y)
        }),
        final(pass).modified,
        final(pass).action == old(pass).action,
{
    let items = old(app).world.slots@;
    let keys = slot_names(items);
    let sorted = final(app).world.slots@;
    let p = choose|p: Seq<usize>| #[trigger]
        stable_order(keys, p) && sorted == arranged(items, p) && final(app).windows@ == arranged(
            old(app).windows@,
            p,
        );
    assert(sorted_by(items, keys, sorted));
    law_sort_keeps_items(items, keys, sorted);
    let x = p[i] as int;
    let y = p[j] as int;
    assert(key_before(keys, x, y));
    assert(sorted[i] == items[x]);
    assert(sorted[j] == items[y]);
    assert(keys[x] == items[x].name@);
    assert(keys[y] == items[y].name@);
    lemma_lex_irreflexive(keys[x]);
}

/// What is kept for the next start: the stored form of the world's file, and of
/// each window where it was when it was closed, or else where it is.
pub proof fn law_places_are_kept(
    app: &App,
    tag: &str,
    r: Option<String>,
    path: String,
    now: &Vec<SlotViewport>,
    kept: Vec<SlotViewport>,
    title: String,
)
    requires
        call_ensures(App::save, (app, tag), r),
        app.world_path is Some ==> call_ensures(encode_path, (&app.world_path->Some_0, tag), path),
        now@.len() == app.windows@.len(),
        call_ensures(App::kept_viewports, (app, now), kept),
        call_ensures(App::title, (app,), title),
    ensures
        r is Some == app.world_path is Some,
        r is Some ==> r->Some_0@ == path@,
        kept@.len() == app.windows@.len(),
        forall|i: int|
            0 <= i < kept@.len() ==> {
                &&& app.windows@[i].viewport is Some ==> #[trigger] kept@[i]
                    == app.windows@[i].viewport->Some_0
                &&& app.windows@[i].viewport is None ==> kept@[i] == now@[i]
            },
        title@ == app.world.name@ + " - archiinventory"@,
{
}

/// The title of a slot's window names the slot and then the world.
pub proof fn law_title_of_a_slot(slot: &str, world: &str, r: String)
    requires
        call_ensures(slot_window_title, (slot, world), r),
    ensures
        r@ == slot@ + " ("@ + world@ + ") - archiinventory"@,
{
}

} // verus!
