//! The panel contract and the registry that owns and drives all panels.
//!
//! A panel implements [`ImguiDrawable`]: it has a stable name, may run a
//! one-time setup pass against the shared world, draws itself each frame
//! against the surface, and may veto or override an explicit show/hide
//! request.  The [`UiManager`] owns every registered panel, keyed by name,
//! together with its hidden flag, and drives the setup and draw passes.
//!
//! Each trait implementation supplies spec functions (`setup_spec`,
//! `draw_spec`, `toggle_spec`) that say what its executable methods do; the
//! registry's contracts are stated as folds of those models over the
//! registered entries.

use crate::surface::{Ui, UiView};
use crate::text::str_eq;
use crate::world::{World, WorldView};
use vstd::prelude::*;

verus! {

/// An identifier assigned to each registered window, unique within one
/// registry and never reassigned.  It serves only as an internal ordering
/// aid; lookups go by name.
#[derive(Clone, Copy, Debug, Default, Hash, PartialEq, Eq, PartialOrd, Ord, Structural)]
pub struct WindowId(usize);

/// The contract every drawable panel satisfies.
///
/// The spec functions model the executable methods: each method's
/// `ensures` says that it behaves as its model.  A registry built over a
/// panel type then has exact contracts for its own passes.
pub trait ImguiDrawable: Sized {
    /// The name under which the panel registers; stable for the life of
    /// the instance and used as the registry key.
    spec fn spec_name(&self) -> Seq<char>;

    /// What `setup` does: the panel state and world after the call.
    spec fn setup_spec(&self, world: WorldView) -> (Self, WorldView);

    /// What `draw` does: the panel state, surface, world and hidden flag
    /// after one draw call.
    spec fn draw_spec(&self, ui: UiView, world: WorldView) -> (Self, UiView, WorldView, bool);

    /// What `on_toggle_hidden` does: the panel state after the call and
    /// the hidden value actually stored.
    spec fn toggle_spec(&self, hidden: bool) -> (Self, bool);

    /// The registry key for this panel.
    fn name(&self) -> (r: &'static str)
        ensures
            r@ == self.spec_name(),
    ;

    /// One-time initialisation against the shared world, run by the
    /// registry's setup pass before any draw call.
    fn setup(&mut self, world: &mut World)
        ensures
            ({
                let (p, w) = old(self).setup_spec(old(world)@);
                *final(self) == p && final(world)@ == w
            }),
    ;

    /// Draws the panel for one frame.  Called only while the panel is
    /// shown; the panel may write `true` into `hidden` to close itself.
    fn draw(&mut self, ui: &mut Ui, world: &mut World, hidden: &mut bool)
        requires
            *old(hidden) == false,
        ensures
            ({
                let (p, u, w, h) = old(self).draw_spec(old(ui)@, old(world)@);
                *final(self) == p && final(ui)@ == u && final(world)@ == w && *final(hidden) == h
            }),
    ;

    /// Reacts to an explicit show/hide request: the returned value is what
    /// the registry stores as the entry's new hidden flag, so a panel may
    /// refuse or force a toggle.
    fn on_toggle_hidden(&mut self, hidden: bool) -> (r: bool)
        ensures
            ({
                let (p, h) = old(self).toggle_spec(hidden);
                *final(self) == p && r == h
            }),
    ;
}

/// One registry entry: an id, the name the panel registered under, the
/// panel itself, and its hidden flag.
pub struct Window<W> {
    id: WindowId,
    name: &'static str,
    inner: W,
    hidden: bool,
}

/// The mathematical model of one entry.
#[verifier::ext_equal]
pub struct EntryView<W> {
    pub id: nat,
    pub name: Seq<char>,
    pub panel: W,
    pub hidden: bool,
}

impl<W> View for Window<W> {
    type V = EntryView<W>;

    closed spec fn view(&self) -> EntryView<W> {
        EntryView { id: self.id.0 as nat, name: self.name@, panel: self.inner, hidden: self.hidden }
    }
}

/// The mathematical model of a registry: the entries in registration
/// order, and the id the next registration will receive.
#[verifier::ext_equal]
pub struct ManagerView<W> {
    pub entries: Seq<EntryView<W>>,
    pub next_id: nat,
}

/// The registry: owns every registered panel, keyed by name.
pub struct UiManager<W> {
    windows: Vec<Window<W>>,
    next_id: usize,
}

impl<W> View for UiManager<W> {
    type V = ManagerView<W>;

    closed spec fn view(&self) -> ManagerView<W> {
        ManagerView {
            entries: self.windows@.map_values(|w: Window<W>| w@),
            next_id: self.next_id as nat,
        }
    }
}

/// The error returned when an operation names a window the registry does
/// not hold; it carries the requested name.
#[derive(Clone, Debug, PartialEq, Eq)]
pub enum UiError {
    WindowNotFound(String),
}

/// The index of the first entry registered under `name`, or -1 when no
/// entry has that name.
pub open spec fn index_of<W>(entries: Seq<EntryView<W>>, name: Seq<char>) -> int
    decreases entries.len(),
{
    if entries.len() == 0 {
        -1
    } else if entries[0].name == name {
        0
    } else {
        let r = index_of(entries.drop_first(), name);
        if r < 0 {
            -1
        } else {
            r + 1
        }
    }
}

/// Whether some entry is registered under `name`.
pub open spec fn has_name<W>(entries: Seq<EntryView<W>>, name: Seq<char>) -> bool {
    index_of(entries, name) >= 0
}

/// How many entries are registered under `name`.
pub open spec fn count_name<W>(entries: Seq<EntryView<W>>, name: Seq<char>) -> nat
    decreases entries.len(),
{
    if entries.len() == 0 {
        0
    } else {
        (if entries[0].name == name {
            1nat
        } else {
            0nat
        }) + count_name(entries.drop_first(), name)
    }
}

/// Entry names are pairwise distinct and so are entry ids.
pub open spec fn wf_entries<W>(entries: Seq<EntryView<W>>) -> bool {
    forall|i: int, j: int|
        0 <= i < j < entries.len() ==> entries[i].name != entries[j].name && entries[i].id
            != entries[j].id
}

/// A well-formed registry: distinct names and ids, and every id below the
/// next one to be assigned.
pub open spec fn wf_model<W>(m: ManagerView<W>) -> bool {
    &&& wf_entries(m.entries)
    &&& forall|i: int| 0 <= i < m.entries.len() ==> (#[trigger] m.entries[i].id) < m.next_id
}

/// What one registration does to the model: a fresh id is assigned, and
/// the new entry replaces the entry already registered under the panel's
/// name, or is appended when the name is new.
pub open spec fn add_model<W: ImguiDrawable>(
    m: ManagerView<W>,
    panel: W,
    hidden: bool,
) -> ManagerView<W> {
    let e = EntryView { id: m.next_id, name: panel.spec_name(), panel, hidden };
    let i = index_of(m.entries, panel.spec_name());
    ManagerView {
        entries: if i >= 0 {
            m.entries.update(i, e)
        } else {
            m.entries.push(e)
        },
        next_id: m.next_id + 1,
    }
}

/// What one show/hide request does to the entries: the entry registered
/// under `name`, if any, is replaced by what its panel's toggle model
/// yields; every other entry is untouched.
pub open spec fn toggle_model<W: ImguiDrawable>(
    entries: Seq<EntryView<W>>,
    name: Seq<char>,
    hidden: bool,
) -> Seq<EntryView<W>> {
    let i = index_of(entries, name);
    if i >= 0 {
        let (p, h) = entries[i].panel.toggle_spec(hidden);
        entries.update(i, EntryView { id: entries[i].id, name: entries[i].name, panel: p, hidden: h })
    } else {
        entries
    }
}

/// What the setup pass does: every panel's setup model is applied once, in
/// registration order, threading the world through.
pub open spec fn setup_pass<W: ImguiDrawable>(
    entries: Seq<EntryView<W>>,
    world: WorldView,
) -> (Seq<EntryView<W>>, WorldView)
    decreases entries.len(),
{
    if entries.len() == 0 {
        (entries, world)
    } else {
        let e = entries[0];
        let (p, w1) = e.panel.setup_spec(world);
        let (rest, w2) = setup_pass(entries.drop_first(), w1);
        (seq![EntryView { id: e.id, name: e.name, panel: p, hidden: e.hidden }] + rest, w2)
    }
}

/// What the draw pass does: every shown entry's draw model is applied
/// once, in registration order, threading the surface and the world
/// through and storing the hidden flag the panel left behind; hidden
/// entries are untouched and contribute nothing to the frame.
pub open spec fn draw_pass<W: ImguiDrawable>(
    entries: Seq<EntryView<W>>,
    ui: UiView,
    world: WorldView,
) -> (Seq<EntryView<W>>, UiView, WorldView)
    decreases entries.len(),
{
    if entries.len() == 0 {
        (entries, ui, world)
    } else {
        let e = entries[0];
        if e.hidden {
            let (rest, u2, w2) = draw_pass(entries.drop_first(), ui, world);
            (seq![e] + rest, u2, w2)
        } else {
            let (p, u1, w1, h) = e.panel.draw_spec(ui, world);
            let (rest, u2, w2) = draw_pass(entries.drop_first(), u1, w1);
            (seq![EntryView { id: e.id, name: e.name, panel: p, hidden: h }] + rest, u2, w2)
        }
    }
}

/// Identity uniqueness: whatever was registered before, one registration
/// leaves exactly one entry under the new panel's name, and that entry
/// holds the panel just registered, its flag, and the freshly assigned
/// id.
pub proof fn lemma_register_name_unique<W: ImguiDrawable>(m: ManagerView<W>, panel: W, hidden: bool)
    requires
        wf_model(m),
    ensures
        ({
            let m2 = add_model(m, panel, hidden);
            let i = index_of(m2.entries, panel.spec_name());
            &&& count_name(m2.entries, panel.spec_name()) == 1
            &&& 0 <= i < m2.entries.len()
            &&& m2.entries[i] == EntryView { id: m.next_id, name: panel.spec_name(), panel, hidden }
        }),
{
    lemma_add_model_wf(m, panel, hidden);
    let name = panel.spec_name();
    let i0 = index_of(m.entries, name);
    lemma_index_of_props(m.entries, name);
    let m2 = add_model(m, panel, hidden);
    if i0 >= 0 {
        lemma_index_of_first(m2.entries, name, i0);
    } else {
        lemma_index_of_first(m2.entries, name, m.entries.len() as int);
    }
    lemma_count_name_unique(m2.entries, name);
}

/// Registering a second panel under an already registered name replaces
/// the first: the registry still holds exactly one entry under that name,
/// it holds the second panel, and the number of entries does not grow.
pub proof fn lemma_register_twice_replaces<W: ImguiDrawable>(
    m: ManagerView<W>,
    first: W,
    second: W,
    h1: bool,
    h2: bool,
)
    requires
        wf_model(m),
        first.spec_name() == second.spec_name(),
    ensures
        ({
            let m1 = add_model(m, first, h1);
            let m2 = add_model(m1, second, h2);
            &&& count_name(m2.entries, second.spec_name()) == 1
            &&& m2.entries.len() == m1.entries.len()
            &&& m2.entries[index_of(m2.entries, second.spec_name())].panel == second
        }),
{
    let m1 = add_model(m, first, h1);
    lemma_register_name_unique(m, first, h1);
    lemma_add_model_wf(m, first, h1);
    lemma_register_name_unique(m1, second, h2);
    lemma_index_of_props(m1.entries, second.spec_name());
}

/// A show or hide request for a name that is not registered is an error,
/// not a no-op with effects: it leaves every entry exactly as it was.
pub proof fn lemma_toggle_missing_untouched<W: ImguiDrawable>(
    entries: Seq<EntryView<W>>,
    name: Seq<char>,
    hidden: bool,
)
    requires
        !has_name(entries, name),
    ensures
        toggle_model(entries, name, hidden) == entries,
{
}

/// Toggle round trip: showing then hiding a panel whose toggle callback
/// is the identity leaves its entry hidden with the panel state
/// untouched, and hiding it again changes nothing further.
pub proof fn lemma_open_then_close_identity<W: ImguiDrawable>(
    entries: Seq<EntryView<W>>,
    name: Seq<char>,
)
    requires
        wf_entries(entries),
        has_name(entries, name),
        ({
            let p = entries[index_of(entries, name)].panel;
            p.toggle_spec(false) == (p, false) && p.toggle_spec(true) == (p, true)
        }),
    ensures
        ({
            let i = index_of(entries, name);
            let opened = toggle_model(entries, name, false);
            let closed = toggle_model(opened, name, true);
            &&& closed == entries.update(
                i,
                EntryView {
                    id: entries[i].id,
                    name: entries[i].name,
                    panel: entries[i].panel,
                    hidden: true,
                },
            )
            &&& closed[i].hidden
            &&& toggle_model(closed, name, true) == closed
        }),
{
    let i = index_of(entries, name);
    lemma_index_of_props(entries, name);
    let p = entries[i].panel;
    let opened = toggle_model(entries, name, false);
    assert(opened =~= entries.update(
        i,
        EntryView { id: entries[i].id, name: entries[i].name, panel: p, hidden: false },
    ));
    lemma_index_of_first(opened, name, i);
    let closed = toggle_model(opened, name, true);
    assert(closed =~= entries.update(
        i,
        EntryView { id: entries[i].id, name: entries[i].name, panel: p, hidden: true },
    ));
    lemma_index_of_first(closed, name, i);
    assert(toggle_model(closed, name, true) =~= closed);
}

/// Self-close: a shown panel whose draw model always reports itself
/// hidden afterwards is hidden once the draw pass has run, without any
/// explicit hide request.
pub proof fn lemma_self_close<W: ImguiDrawable>(
    entries: Seq<EntryView<W>>,
    ui: UiView,
    world: WorldView,
    i: int,
)
    requires
        0 <= i < entries.len(),
        !entries[i].hidden,
        forall|u: UiView, w: WorldView| (#[trigger] entries[i].panel.draw_spec(u, w)).3,
    ensures
        draw_pass(entries, ui, world).0[i].hidden,
    decreases entries.len(),
{
    let rest = entries.drop_first();
    if i == 0 {
        assert((entries[0].panel.draw_spec(ui, world)).3);
    } else {
        assert(rest[i - 1] == entries[i]);
        if entries[0].hidden {
            lemma_self_close(rest, ui, world, i - 1);
            lemma_draw_pass_frame(rest, ui, world);
            assert(draw_pass(entries, ui, world).0 == seq![entries[0]] + draw_pass(
                rest,
                ui,
                world,
            ).0);
            assert((seq![entries[0]] + draw_pass(rest, ui, world).0)[i] == draw_pass(
                rest,
                ui,
                world,
            ).0[i - 1]);
        } else {
            let (p, u1, w1, h) = entries[0].panel.draw_spec(ui, world);
            lemma_self_close(rest, u1, w1, i - 1);
            lemma_draw_pass_frame(rest, u1, w1);
            assert(draw_pass(entries, ui, world).0 == seq![
                EntryView { id: entries[0].id, name: entries[0].name, panel: p, hidden: h },
            ] + draw_pass(rest, u1, w1).0);
            assert((seq![
                EntryView { id: entries[0].id, name: entries[0].name, panel: p, hidden: h },
            ] + draw_pass(rest, u1, w1).0)[i] == draw_pass(rest, u1, w1).0[i - 1]);
        }
    }
}

/// Open/closed gating, shown side: an entry that is shown when the pass
/// starts receives exactly one draw call — its panel and hidden flag
/// afterwards are its draw model's image for the surface and world state
/// that reached it.
pub proof fn lemma_shown_entry_drawn<W: ImguiDrawable>(
    entries: Seq<EntryView<W>>,
    ui: UiView,
    world: WorldView,
    i: int,
)
    requires
        0 <= i < entries.len(),
        !entries[i].hidden,
    ensures
        exists|u: UiView, w: WorldView|
            (draw_pass(entries, ui, world).0[i] == EntryView {
                id: entries[i].id,
                name: entries[i].name,
                panel: (#[trigger] entries[i].panel.draw_spec(u, w)).0,
                hidden: entries[i].panel.draw_spec(u, w).3,
            }),
    decreases entries.len(),
{
    let rest = entries.drop_first();
    if i == 0 {
        let (p, u1, w1, h) = entries[0].panel.draw_spec(ui, world);
        assert(draw_pass(entries, ui, world).0[0] == EntryView {
            id: entries[0].id,
            name: entries[0].name,
            panel: entries[0].panel.draw_spec(ui, world).0,
            hidden: entries[0].panel.draw_spec(ui, world).3,
        });
    } else {
        assert(rest[i - 1] == entries[i]);
        if entries[0].hidden {
            lemma_shown_entry_drawn(rest, ui, world, i - 1);
            lemma_draw_pass_frame(rest, ui, world);
            assert(draw_pass(entries, ui, world).0 == seq![entries[0]] + draw_pass(
                rest,
                ui,
                world,
            ).0);
            assert((seq![entries[0]] + draw_pass(rest, ui, world).0)[i] == draw_pass(
                rest,
                ui,
                world,
            ).0[i - 1]);
            let (u, w): (UiView, WorldView) = choose|u: UiView, w: WorldView|
                draw_pass(rest, ui, world).0[i - 1] == EntryView {
                    id: rest[i - 1].id,
                    name: rest[i - 1].name,
                    panel: (#[trigger] rest[i - 1].panel.draw_spec(u, w)).0,
                    hidden: rest[i - 1].panel.draw_spec(u, w).3,
                };
            assert(draw_pass(entries, ui, world).0[i] == EntryView {
                id: entries[i].id,
                name: entries[i].name,
                panel: entries[i].panel.draw_spec(u, w).0,
                hidden: entries[i].panel.draw_spec(u, w).3,
            });
        } else {
            let (p, u1, w1, h) = entries[0].panel.draw_spec(ui, world);
            lemma_shown_entry_drawn(rest, u1, w1, i - 1);
            lemma_draw_pass_frame(rest, u1, w1);
            assert(draw_pass(entries, ui, world).0 == seq![
                EntryView { id: entries[0].id, name: entries[0].name, panel: p, hidden: h },
            ] + draw_pass(rest, u1, w1).0);
            assert((seq![
                EntryView { id: entries[0].id, name: entries[0].name, panel: p, hidden: h },
            ] + draw_pass(rest, u1, w1).0)[i] == draw_pass(rest, u1, w1).0[i - 1]);
            let (u, w): (UiView, WorldView) = choose|u: UiView, w: WorldView|
                draw_pass(rest, u1, w1).0[i - 1] == EntryView {
                    id: rest[i - 1].id,
                    name: rest[i - 1].name,
                    panel: (#[trigger] rest[i - 1].panel.draw_spec(u, w)).0,
                    hidden: rest[i - 1].panel.draw_spec(u, w).3,
                };
            assert(draw_pass(entries, ui, world).0[i] == EntryView {
                id: entries[i].id,
                name: entries[i].name,
                panel: entries[i].panel.draw_spec(u, w).0,
                hidden: entries[i].panel.draw_spec(u, w).3,
            });
        }
    }
}

proof fn lemma_index_of_props<W>(entries: Seq<EntryView<W>>, name: Seq<char>)
    ensures
        index_of(entries, name) >= 0 ==> {
            let i = index_of(entries, name);
            &&& 0 <= i < entries.len()
            &&& entries[i].name == name
            &&& forall|j: int| 0 <= j < i ==> entries[j].name != name
        },
        index_of(entries, name) < 0 ==> forall|j: int|
            0 <= j < entries.len() ==> entries[j].name != name,
    decreases entries.len(),
{
    if entries.len() != 0 && entries[0].name != name {
        lemma_index_of_props(entries.drop_first(), name);
        assert forall|j: int| 1 <= j < entries.len() implies entries.drop_first()[j - 1]
            == entries[j] by {}
    }
}

proof fn lemma_index_of_first<W>(entries: Seq<EntryView<W>>, name: Seq<char>, i: int)
    requires
        0 <= i < entries.len(),
        entries[i].name == name,
        forall|j: int| 0 <= j < i ==> entries[j].name != name,
    ensures
        index_of(entries, name) == i,
    decreases entries.len(),
{
    if i > 0 {
        lemma_index_of_first(entries.drop_first(), name, i - 1);
    }
}

proof fn lemma_count_name_unique<W>(entries: Seq<EntryView<W>>, name: Seq<char>)
    requires
        wf_entries(entries),
    ensures
        count_name(entries, name) == if has_name(entries, name) {
            1nat
        } else {
            0nat
        },
    decreases entries.len(),
{
    if entries.len() != 0 {
        let rest = entries.drop_first();
        assert(wf_entries(rest)) by {
            assert forall|i: int, j: int| 0 <= i < j < rest.len() implies rest[i].name
                != rest[j].name && rest[i].id != rest[j].id by {
                assert(rest[i] == entries[i + 1] && rest[j] == entries[j + 1]);
            }
        }
        lemma_count_name_unique(rest, name);
        lemma_index_of_props(entries, name);
        lemma_index_of_props(rest, name);
        if entries[0].name == name {
            assert forall|j: int| 0 <= j < rest.len() implies rest[j].name != name by {
                assert(rest[j] == entries[j + 1]);
            }
        }
    }
}

impl<W: ImguiDrawable> Default for UiManager<W> {
    /// An empty registry: no entries, and the first registration will
    /// receive id 0.
    fn default() -> (r: Self)
        ensures
            r@.entries.len() == 0,
            r@.next_id == 0,
            wf_model(r@),
    {
        let r = UiManager { windows: Vec::new(), next_id: 0 };
        proof {
            assert(r@.entries =~= Seq::<EntryView<W>>::empty());
        }
        r
    }
}

impl<W: ImguiDrawable> UiManager<W> {
    /// How many panels are registered.
    pub fn len(&self) -> (r: usize)
        ensures
            r == self@.entries.len(),
    {
        self.windows.len()
    }

    /// The hidden flag of the panel registered under `name`, or `None`
    /// when no panel has that name.
    #[verifier::loop_isolation(false)]
    pub fn is_hidden(&self, name: &str) -> (r: Option<bool>)
        ensures
            match r {
                Some(h) => has_name(self@.entries, name@) && h == self@.entries[index_of(
                    self@.entries,
                    name@,
                )].hidden,
                None => !has_name(self@.entries, name@),
            },
    {
        let n = self.windows.len();
        let mut i: usize = 0;
        while i < n
            invariant
                i <= n,
                n == self@.entries.len(),
                forall|j: int| 0 <= j < i ==> self@.entries[j].name != name@,
            decreases n - i,
        {
            if str_eq(self.windows[i].name, name) {
                proof {
                    lemma_index_of_first(self@.entries, name@, i as int);
                }
                return Some(self.windows[i].hidden);
            }
            i = i + 1;
        }
        proof {
            lemma_index_of_props(self@.entries, name@);
        }
        None
    }

    /// Registers a panel under its own name with the given initial hidden
    /// flag, taking ownership of the panel.  A fresh id is assigned.  When
    /// a panel is already registered under the same name, the new entry
    /// replaces it and the old panel is discarded; otherwise the entry is
    /// appended.  Returns the registry so that registrations chain.
    #[verifier::loop_isolation(false)]
    pub fn add(self, window: W, hidden: bool) -> (r: Self)
        requires
            wf_model(self@),
            self@.next_id < usize::MAX,
        ensures
            wf_model(r@),
            r@ == add_model(self@, window, hidden),
    {
        let ghost m0 = self@;
        let mut this = self;
        let name = window.name();
        let id = WindowId(this.next_id);
        this.next_id = this.next_id + 1;
        let n = this.windows.len();
        let mut i: usize = 0;
        while i < n
            invariant
                i <= n,
                n == this.windows@.len(),
                wf_model(m0),
                m0.next_id < usize::MAX,
                name@ == window.spec_name(),
                id.0 == m0.next_id,
                this.windows@.map_values(|w: Window<W>| w@) == m0.entries,
                this@.next_id == m0.next_id + 1,
                forall|j: int| 0 <= j < i ==> m0.entries[j].name != name@,
            decreases n - i,
        {
            if str_eq(this.windows[i].name, name) {
                proof {
                    lemma_index_of_first(m0.entries, name@, i as int);
                }
                this.windows[i] = Window { id, name, inner: window, hidden };
                proof {
                    let e = EntryView {
                        id: m0.next_id,
                        name: window.spec_name(),
                        panel: window,
                        hidden,
                    };
                    assert(this.windows@.map_values(|w: Window<W>| w@) =~= m0.entries.update(
                        i as int,
                        e,
                    ));
                    assert(this@ =~= add_model(m0, window, hidden));
                    lemma_add_model_wf(m0, window, hidden);
                }
                return this;
            }
            i = i + 1;
        }
        proof {
            lemma_index_of_props(m0.entries, name@);
        }
        this.windows.push(Window { id, name, inner: window, hidden });
        proof {
            let e = EntryView { id: m0.next_id, name: window.spec_name(), panel: window, hidden };
            assert(this.windows@.map_values(|w: Window<W>| w@) =~= m0.entries.push(e));
            assert(this@ =~= add_model(m0, window, hidden));
            lemma_add_model_wf(m0, window, hidden);
        }
        this
    }

    /// Requests that the panel registered under `name` be shown: the
    /// panel's `on_toggle_hidden(false)` decides the stored flag.  Fails
    /// with [`UiError::WindowNotFound`], touching nothing, when no panel
    /// has that name.
    pub fn open(&mut self, name: &str) -> (r: Result<(), UiError>)
        requires
            wf_model(old(self)@),
        ensures
            wf_model(final(self)@),
            final(self)@.next_id == old(self)@.next_id,
            final(self)@.entries == toggle_model(old(self)@.entries, name@, false),
            r is Ok <==> has_name(old(self)@.entries, name@),
            match r {
                Ok(u) => u == (),
                Err(UiError::WindowNotFound(n)) => n@ == name@,
            },
    {
        self.toggle(name, false)
    }

    /// Requests that the panel registered under `name` be hidden: the
    /// panel's `on_toggle_hidden(true)` decides the stored flag.  Fails
    /// with [`UiError::WindowNotFound`], touching nothing, when no panel
    /// has that name.
    pub fn close(&mut self, name: &str) -> (r: Result<(), UiError>)
        requires
            wf_model(old(self)@),
        ensures
            wf_model(final(self)@),
            final(self)@.next_id == old(self)@.next_id,
            final(self)@.entries == toggle_model(old(self)@.entries, name@, true),
            r is Ok <==> has_name(old(self)@.entries, name@),
            match r {
                Ok(u) => u == (),
                Err(UiError::WindowNotFound(n)) => n@ == name@,
            },
    {
        self.toggle(name, true)
    }

    #[verifier::loop_isolation(false)]
    fn toggle(&mut self, name: &str, hidden: bool) -> (r: Result<(), UiError>)
        requires
            wf_model(old(self)@),
        ensures
            wf_model(final(self)@),
            final(self)@.next_id == old(self)@.next_id,
            final(self)@.entries == toggle_model(old(self)@.entries, name@, hidden),
            r is Ok <==> has_name(old(self)@.entries, name@),
            match r {
                Ok(u) => u == (),
                Err(UiError::WindowNotFound(n)) => n@ == name@,
            },
    {
        let ghost m0 = old(self)@;
        let n = self.windows.len();
        let mut i: usize = 0;
        while i < n
            invariant
                i <= n,
                n == self.windows@.len(),
                wf_model(m0),
                self@ == m0,
                forall|j: int| 0 <= j < i ==> m0.entries[j].name != name@,
            decreases n - i,
        {
            if str_eq(self.windows[i].name, name) {
                proof {
                    lemma_index_of_first(m0.entries, name@, i as int);
                }
                let w = &mut self.windows[i];
                let stored = w.inner.on_toggle_hidden(hidden);
                w.hidden = stored;
                proof {
                    let (p, h) = m0.entries[i as int].panel.toggle_spec(hidden);
                    let e = EntryView {
                        id: m0.entries[i as int].id,
                        name: m0.entries[i as int].name,
                        panel: p,
                        hidden: h,
                    };
                    assert(self.windows@.map_values(|w: Window<W>| w@) =~= m0.entries.update(
                        i as int,
                        e,
                    ));
                    assert(self@.entries =~= toggle_model(m0.entries, name@, hidden));
                    lemma_toggle_model_wf(m0.entries, name@, hidden);
                }
                return Ok(());
            }
            i = i + 1;
        }
        proof {
            lemma_index_of_props(m0.entries, name@);
        }
        Err(UiError::WindowNotFound(name.to_owned()))
    }
}

impl<W: ImguiDrawable> UiManager<W> {
    /// Runs every registered panel's one-time setup against the shared
    /// world, in registration order, and returns the registry so the call
    /// chains.  Meant to run once, after all registrations and before the
    /// first draw pass; running it again re-runs every panel's setup.
    #[verifier::loop_isolation(false)]
    pub fn build(self, world: &mut World) -> (r: Self)
        requires
            wf_model(self@),
        ensures
            wf_model(r@),
            r@.next_id == self@.next_id,
            r@.entries == setup_pass(self@.entries, old(world)@).0,
            final(world)@ == setup_pass(self@.entries, old(world)@).1,
    {
        let ghost m0 = self@;
        let mut this = self;
        let n = this.windows.len();
        let mut i: usize = 0;
        proof {
            assert(m0.entries.skip(0) =~= m0.entries);
            assert(this@.entries.take(0) =~= Seq::<EntryView<W>>::empty());
            assert(this@.entries.take(0) + setup_pass(m0.entries, old(world)@).0 =~= setup_pass(
                m0.entries,
                old(world)@,
            ).0);
        }
        while i < n
            invariant
                i <= n,
                n == this.windows@.len(),
                this@.next_id == m0.next_id,
                this@.entries.skip(i as int) == m0.entries.skip(i as int),
                setup_pass(m0.entries, old(world)@).0 == this@.entries.take(i as int) + setup_pass(
                    m0.entries.skip(i as int),
                    world@,
                ).0,
                setup_pass(m0.entries, old(world)@).1 == setup_pass(
                    m0.entries.skip(i as int),
                    world@,
                ).1,
            decreases n - i,
        {
            let ghost pre = this@.entries;
            let ghost wpre = world@;
            proof {
                assert(pre[i as int] == pre.skip(i as int)[0]);
                assert(pre[i as int] == m0.entries.skip(i as int)[0]);
            }
            let w = &mut this.windows[i];
            w.inner.setup(world);
            proof {
                let e = m0.entries.skip(i as int)[0];
                let (p, w1) = e.panel.setup_spec(wpre);
                let e2 = EntryView { id: e.id, name: e.name, panel: p, hidden: e.hidden };
                assert(this@.entries =~= pre.update(i as int, e2));
                assert(m0.entries.skip(i as int).drop_first() =~= m0.entries.skip(i + 1));
                assert(this@.entries.skip(i + 1) =~= m0.entries.skip(i + 1));
                assert(this@.entries.take(i + 1) =~= pre.take(i as int) + seq![e2]);
                assert(setup_pass(m0.entries, old(world)@).0 =~= this@.entries.take(i + 1)
                    + setup_pass(m0.entries.skip(i + 1), world@).0);
            }
            i = i + 1;
        }
        proof {
            assert(m0.entries.skip(n as int) =~= Seq::<EntryView<W>>::empty());
            assert(this@.entries.take(n as int) =~= this@.entries);
            assert(this@.entries.take(n as int) + setup_pass(
                m0.entries.skip(n as int),
                world@,
            ).0 =~= this@.entries);
            lemma_setup_pass_frame(m0.entries, old(world)@);
        }
        this
    }

    /// Draws one frame: every entry whose hidden flag is false gets one
    /// draw call, in registration order, against the surface and the
    /// world, and the hidden flag its panel left behind is stored back;
    /// hidden entries are skipped entirely.  With no panels registered
    /// this is a no-op.
    #[verifier::loop_isolation(false)]
    pub fn draw(&mut self, ui: &mut Ui, world: &mut World)
        requires
            wf_model(old(self)@),
        ensures
            wf_model(final(self)@),
            final(self)@.next_id == old(self)@.next_id,
            final(self)@.entries == draw_pass(old(self)@.entries, old(ui)@, old(world)@).0,
            final(ui)@ == draw_pass(old(self)@.entries, old(ui)@, old(world)@).1,
            final(world)@ == draw_pass(old(self)@.entries, old(ui)@, old(world)@).2,
    {
        let ghost m0 = old(self)@;
        let n = self.windows.len();
        let mut i: usize = 0;
        proof {
            assert(m0.entries.skip(0) =~= m0.entries);
            assert(self@.entries.take(0) + draw_pass(m0.entries, old(ui)@, old(world)@).0
                =~= draw_pass(m0.entries, old(ui)@, old(world)@).0);
        }
        while i < n
            invariant
                i <= n,
                n == self.windows@.len(),
                self@.next_id == m0.next_id,
                self@.entries.skip(i as int) == m0.entries.skip(i as int),
                draw_pass(m0.entries, old(ui)@, old(world)@).0 == self@.entries.take(i as int)
                    + draw_pass(m0.entries.skip(i as int), ui@, world@).0,
                draw_pass(m0.entries, old(ui)@, old(world)@).1 == draw_pass(
                    m0.entries.skip(i as int),
                    ui@,
                    world@,
                ).1,
                draw_pass(m0.entries, old(ui)@, old(world)@).2 == draw_pass(
                    m0.entries.skip(i as int),
                    ui@,
                    world@,
                ).2,
            decreases n - i,
        {
            let ghost pre = self@.entries;
            let ghost upre = ui@;
            let ghost wpre = world@;
            proof {
                assert(pre[i as int] == pre.skip(i as int)[0]);
                assert(pre[i as int] == m0.entries.skip(i as int)[0]);
                assert(m0.entries.skip(i as int).drop_first() =~= m0.entries.skip(i + 1));
            }
            if !self.windows[i].hidden {
                let w = &mut self.windows[i];
                let mut h: bool = false;
                w.inner.draw(ui, world, &mut h);
                w.hidden = h;
                proof {
                    let e = m0.entries.skip(i as int)[0];
                    let (p, u1, w1, hh) = e.panel.draw_spec(upre, wpre);
                    let e2 = EntryView { id: e.id, name: e.name, panel: p, hidden: hh };
                    assert(self@.entries =~= pre.update(i as int, e2));
                    assert(self@.entries.skip(i + 1) =~= m0.entries.skip(i + 1));
                    assert(self@.entries.take(i + 1) =~= pre.take(i as int) + seq![e2]);
                    assert(draw_pass(m0.entries, old(ui)@, old(world)@).0 =~= self@.entries.take(
                        i + 1,
                    ) + draw_pass(m0.entries.skip(i + 1), ui@, world@).0);
                }
            } else {
                proof {
                    let e = m0.entries.skip(i as int)[0];
                    assert(self@.entries.skip(i + 1) =~= m0.entries.skip(i + 1));
                    assert(self@.entries.take(i + 1) =~= pre.take(i as int) + seq![e]);
                    assert(draw_pass(m0.entries, old(ui)@, old(world)@).0 =~= self@.entries.take(
                        i + 1,
                    ) + draw_pass(m0.entries.skip(i + 1), ui@, world@).0);
                }
            }
            i = i + 1;
        }
        proof {
            assert(m0.entries.skip(n as int) =~= Seq::<EntryView<W>>::empty());
            assert(self@.entries.take(n as int) + draw_pass(
                m0.entries.skip(n as int),
                ui@,
                world@,
            ).0 =~= self@.entries);
            lemma_draw_pass_frame(m0.entries, old(ui)@, old(world)@);
        }
    }
}

/// The setup pass touches no entry's id, name or hidden flag: it only
/// replaces each panel by what its setup model yields.
pub proof fn lemma_setup_pass_frame<W: ImguiDrawable>(entries: Seq<EntryView<W>>, world: WorldView)
    ensures
        setup_pass(entries, world).0.len() == entries.len(),
        forall|j: int|
            0 <= j < entries.len() ==> {
                let r = #[trigger] setup_pass(entries, world).0[j];
                r.id == entries[j].id && r.name == entries[j].name && r.hidden == entries[j].hidden
            },
    decreases entries.len(),
{
    if entries.len() != 0 {
        let e = entries[0];
        let (p, w1) = e.panel.setup_spec(world);
        lemma_setup_pass_frame(entries.drop_first(), w1);
        assert forall|j: int| 0 <= j < entries.len() implies {
            let r = #[trigger] setup_pass(entries, world).0[j];
            r.id == entries[j].id && r.name == entries[j].name && r.hidden == entries[j].hidden
        } by {
            if j > 0 {
                assert(setup_pass(entries, world).0[j] == setup_pass(
                    entries.drop_first(),
                    w1,
                ).0[j - 1]);
                assert(entries.drop_first()[j - 1] == entries[j]);
            }
        }
    }
}

/// The draw pass touches no entry's id or name, and an entry that is
/// hidden when the pass starts is untouched: its panel receives no draw
/// call and its state and flag are exactly what they were.
pub proof fn lemma_draw_pass_frame<W: ImguiDrawable>(
    entries: Seq<EntryView<W>>,
    ui: UiView,
    world: WorldView,
)
    ensures
        draw_pass(entries, ui, world).0.len() == entries.len(),
        forall|j: int|
            0 <= j < entries.len() ==> {
                let r = #[trigger] draw_pass(entries, ui, world).0[j];
                r.id == entries[j].id && r.name == entries[j].name
            },
        forall|j: int|
            0 <= j < entries.len() && entries[j].hidden ==> #[trigger] draw_pass(
                entries,
                ui,
                world,
            ).0[j] == entries[j],
    decreases entries.len(),
{
    if entries.len() != 0 {
        let e = entries[0];
        let rest = entries.drop_first();
        if e.hidden {
            lemma_draw_pass_frame(rest, ui, world);
            assert forall|j: int| 1 <= j < entries.len() implies #[trigger] draw_pass(
                entries,
                ui,
                world,
            ).0[j] == draw_pass(rest, ui, world).0[j - 1] && rest[j - 1] == entries[j] by {}
        } else {
            let (p, u1, w1, h) = e.panel.draw_spec(ui, world);
            lemma_draw_pass_frame(rest, u1, w1);
            assert forall|j: int| 1 <= j < entries.len() implies #[trigger] draw_pass(
                entries,
                ui,
                world,
            ).0[j] == draw_pass(rest, u1, w1).0[j - 1] && rest[j - 1] == entries[j] by {}
        }
    }
}

/// Registration preserves well-formedness: the fresh id is above every
/// stored id, and the name stays unique whether the entry replaced one or
/// was appended.
pub proof fn lemma_add_model_wf<W: ImguiDrawable>(m: ManagerView<W>, panel: W, hidden: bool)
    requires
        wf_model(m),
    ensures
        wf_model(add_model(m, panel, hidden)),
{
    let name = panel.spec_name();
    let i = index_of(m.entries, name);
    lemma_index_of_props(m.entries, name);
    let r = add_model(m, panel, hidden);
    if i >= 0 {
        assert forall|a: int, b: int| 0 <= a < b < r.entries.len() implies r.entries[a].name
            != r.entries[b].name && r.entries[a].id != r.entries[b].id by {
            if a != i && b != i {
                assert(r.entries[a] == m.entries[a] && r.entries[b] == m.entries[b]);
            }
        }
    } else {
        assert forall|a: int, b: int| 0 <= a < b < r.entries.len() implies r.entries[a].name
            != r.entries[b].name && r.entries[a].id != r.entries[b].id by {
            if b < m.entries.len() {
                assert(r.entries[a] == m.entries[a] && r.entries[b] == m.entries[b]);
            } else {
                assert(r.entries[a] == m.entries[a]);
            }
        }
    }
}

/// A show/hide request preserves well-formedness: names and ids are
/// untouched.
pub proof fn lemma_toggle_model_wf<W: ImguiDrawable>(
    entries: Seq<EntryView<W>>,
    name: Seq<char>,
    hidden: bool,
)
    requires
        wf_entries(entries),
    ensures
        wf_entries(toggle_model(entries, name, hidden)),
        toggle_model(entries, name, hidden).len() == entries.len(),
        forall|j: int|
            0 <= j < entries.len() ==> (#[trigger] toggle_model(entries, name, hidden)[j]).name
                == entries[j].name && toggle_model(entries, name, hidden)[j].id == entries[j].id,
{
    let i = index_of(entries, name);
    lemma_index_of_props(entries, name);
    let r = toggle_model(entries, name, hidden);
    assert forall|a: int, b: int| 0 <= a < b < r.len() implies r[a].name != r[b].name && r[a].id
        != r[b].id by {
        assert(r[a].name == entries[a].name && r[a].id == entries[a].id);
        assert(r[b].name == entries[b].name && r[b].id == entries[b].id);
    }
}

} // verus!
