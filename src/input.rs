use vstd::prelude::*;
use crate::graphics::Graphics;

verus! {

/// A set of key or button ids.
pub struct IdSet {
    ids: Vec<u32>,
}

impl View for IdSet {
    type V = Set<u32>;

    closed spec fn view(&self) -> Set<u32> {
        Set::new(|k: u32| self.ids@.contains(k))
    }
}

impl IdSet {
    /// The empty set.
    pub fn new() -> (r: IdSet)
        ensures
            r@ == Set::<u32>::empty(),
    {
        let r = IdSet { ids: Vec::new() };
        assert(r@ =~= Set::<u32>::empty());
        r
    }

    /// Whether `id` is in the set.
    pub fn contains(&self, id: u32) -> (r: bool)
        ensures
            r == self@.contains(id),
    {
        let mut i: usize = 0;
        while i < self.ids.len()
            invariant
                i <= self.ids@.len(),
                forall|j: int| 0 <= j < i ==> self.ids@[j] != id,
            decreases self.ids@.len() - i,
        {
            if self.ids[i] == id {
                return true;
            }
            i = i + 1;
        }
        false
    }

    /// Adds `id`.
    pub fn insert(&mut self, id: u32)
        ensures
            final(self)@ == old(self)@.insert(id),
    {
        self.ids.push(id);
        assert forall|k: u32| #[trigger] self@.contains(k) <==> old(self)@.insert(id).contains(k) by {
            if k != id && self.ids@.contains(k) {
                let j = choose|j: int| 0 <= j < self.ids@.len() && self.ids@[j] == k;
                assert(old(self).ids@[j] == k);
            }
            if old(self).ids@.contains(k) {
                let j = choose|j: int| 0 <= j < old(self).ids@.len() && old(self).ids@[j] == k;
                assert(self.ids@[j] == k);
            }
            if k == id {
                assert(self.ids@[self.ids@.len() - 1] == id);
            }
        }
        assert(self@ =~= old(self)@.insert(id));
    }

    /// Removes `id`.
    pub fn remove(&mut self, id: u32)
        ensures
            final(self)@ == old(self)@.remove(id),
    {
        let mut kept: Vec<u32> = Vec::new();
        let mut i: usize = 0;
        while i < self.ids.len()
            invariant
                i <= self.ids@.len(),
                forall|k: u32|
                    kept@.contains(k) <==> (k != id && exists|j: int|
                        0 <= j < i && #[trigger] self.ids@[j] == k),
            decreases self.ids@.len() - i,
        {
            let v = self.ids[i];
            let ghost prev = kept@;
            if v != id {
                kept.push(v);
            }
            assert forall|k: u32| kept@.contains(k) <==> (k != id && exists|j: int|
                0 <= j < i + 1 && #[trigger] self.ids@[j] == k) by {
                if k != id && exists|j: int| 0 <= j < i + 1 && #[trigger] self.ids@[j] == k {
                    let j = choose|j: int| 0 <= j < i + 1 && #[trigger] self.ids@[j] == k;
                    if j < i {
                        assert(prev.contains(k));
                        let m = choose|m: int| 0 <= m < prev.len() && prev[m] == k;
                        assert(kept@[m] == k);
                    } else {
                        assert(kept@[kept@.len() - 1] == k);
                    }
                }
                if kept@.contains(k) {
                    let m = choose|m: int| 0 <= m < kept@.len() && kept@[m] == k;
                    if m < prev.len() {
                        assert(prev[m] == k);
                        assert(prev.contains(k));
                    } else {
                        assert(self.ids@[i as int] == k);
                    }
                }
            }
            i = i + 1;
        }
        let ghost before = self@;
        self.ids = kept;
        assert forall|k: u32| #[trigger] self@.contains(k) <==> before.remove(id).contains(k) by {
            if before.contains(k) {
                let j = choose|j: int| 0 <= j < old(self).ids@.len() && old(self).ids@[j] == k;
            }
        }
        assert(self@ =~= before.remove(id));
    }

    /// Removes every id.
    pub fn clear(&mut self)
        ensures
            final(self)@ == Set::<u32>::empty(),
    {
        self.ids.clear();
        assert(self@ =~= Set::<u32>::empty());
    }
}


/// What the tracker knows of one family of keys or buttons: which are held,
/// which went down this tick and which went up this tick.
pub struct EdgeState {
    pub held: Set<u32>,
    pub pressed: Set<u32>,
    pub released: Set<u32>,
}

/// One raw event: key or button `id` went down (`down`) or up.
pub struct InputEvent {
    pub id: u32,
    pub down: bool,
}

/// The state after one raw event. A key that goes down is held, and pressed
/// this tick unless it was already held (an auto-repeat); a key that goes up
/// is no longer held, and released this tick if it was held.
pub open spec fn apply_event(s: EdgeState, e: InputEvent) -> EdgeState {
    if e.down {
        if s.held.contains(e.id) {
            s
        } else {
            EdgeState { held: s.held.insert(e.id), pressed: s.pressed.insert(e.id), released: s.released }
        }
    } else {
        if s.held.contains(e.id) {
            EdgeState { held: s.held.remove(e.id), pressed: s.pressed, released: s.released.insert(e.id) }
        } else {
            s
        }
    }
}

/// The state after the events `evs`, in order.
pub open spec fn apply_events(s: EdgeState, evs: Seq<InputEvent>) -> EdgeState
    decreases evs.len(),
{
    if evs.len() == 0 {
        s
    } else {
        apply_event(apply_events(s, evs.drop_last()), evs.last())
    }
}

/// The state at a tick boundary: what is held stays held, the edges are
/// forgotten.
pub open spec fn end_step(s: EdgeState) -> EdgeState {
    EdgeState { held: s.held, pressed: Set::empty(), released: Set::empty() }
}

/// The state client code reads during a tick whose events are `evs`, the
/// previous tick having left `s`.
pub open spec fn next_tick(s: EdgeState, evs: Seq<InputEvent>) -> EdgeState {
    apply_events(end_step(s), evs)
}

/// The state read during the `n`-th of the ticks `ticks` (counting from 1),
/// starting from `s`.
pub open spec fn after_ticks(s: EdgeState, ticks: Seq<Seq<InputEvent>>, n: nat) -> EdgeState
    decreases n,
{
    if n == 0 || n > ticks.len() {
        s
    } else {
        next_tick(after_ticks(s, ticks, (n - 1) as nat), ticks[n - 1])
    }
}

/// Whether `evs` holds an event that sends `id` in direction `down`.
pub open spec fn has_event(evs: Seq<InputEvent>, id: u32, down: bool) -> bool {
    exists|i: int| 0 <= i < evs.len() && evs[i].id == id && evs[i].down == down
}

/// Events that never send `id` in direction `down` leave whether `id` is
/// held as it was when `id` already stands at that direction, and add no
/// edge for it.
proof fn lemma_no_event_keeps(s: EdgeState, evs: Seq<InputEvent>, id: u32, down: bool)
    requires
        s.held.contains(id) == down,
        !has_event(evs, id, !down),
    ensures
        apply_events(s, evs).held.contains(id) == down,
        apply_events(s, evs).pressed.contains(id) == s.pressed.contains(id),
        apply_events(s, evs).released.contains(id) == s.released.contains(id),
    decreases evs.len(),
{
    if evs.len() > 0 {
        let init = evs.drop_last();
        assert(!has_event(init, id, !down)) by {
            if has_event(init, id, !down) {
                let i = choose|i: int| 0 <= i < init.len() && init[i].id == id && init[i].down == !down;
                assert(evs[i] == init[i]);
            }
        }
        lemma_no_event_keeps(s, init, id, down);
        assert(!(evs.last().id == id && evs.last().down == !down)) by {
            if evs.last().id == id && evs.last().down == !down {
                assert(evs[evs.len() - 1] == evs.last());
            }
        }
    }
}

/// After an event that sends `id` in direction `down`, later events that do
/// not send it back keep it at `down`, and keep the edge that the first such
/// event gave it.
proof fn lemma_event_then_keeps(s: EdgeState, evs: Seq<InputEvent>, id: u32, down: bool)
    requires
        has_event(evs, id, down),
        s.held.contains(id) != down,
        !has_event(evs, id, !down),
    ensures
        apply_events(s, evs).held.contains(id) == down,
        down ==> apply_events(s, evs).pressed.contains(id),
        !down ==> apply_events(s, evs).released.contains(id),
    decreases evs.len(),
{
    let init = evs.drop_last();
    assert(!has_event(init, id, !down)) by {
        if has_event(init, id, !down) {
            let j = choose|j: int| 0 <= j < init.len() && init[j].id == id && init[j].down == !down;
            assert(evs[j] == init[j]);
        }
    }
    assert(!(evs.last().id == id && evs.last().down == !down)) by {
        if evs.last().id == id && evs.last().down == !down {
            assert(evs[evs.len() - 1] == evs.last());
        }
    }
    if has_event(init, id, down) {
        lemma_event_then_keeps(s, init, id, down);
    } else {
        lemma_no_event_keeps(s, init, id, !down);
        let i = choose|i: int| 0 <= i < evs.len() && evs[i].id == id && evs[i].down == down;
        if i < evs.len() - 1 {
            assert(init[i] == evs[i]);
        }
    }
}

/// A key that is up when a tick starts and goes down during it, without going
/// up again in that tick, is pressed and held on that tick.
pub proof fn press_shows_on_its_tick(s: EdgeState, evs: Seq<InputEvent>, id: u32)
    requires
        !s.held.contains(id),
        has_event(evs, id, true),
        !has_event(evs, id, false),
    ensures
        next_tick(s, evs).pressed.contains(id),
        next_tick(s, evs).held.contains(id),
{
    lemma_event_then_keeps(end_step(s), evs, id, true);
}

/// A key that is held when a run of ticks starts and gets no release event in
/// any of them stays held and is pressed on none of them, however many there
/// are.
pub proof fn held_key_is_not_pressed_again(s: EdgeState, ticks: Seq<Seq<InputEvent>>, id: u32, n: nat)
    requires
        s.held.contains(id),
        1 <= n <= ticks.len(),
        forall|t: int| 0 <= t < ticks.len() ==> !has_event(#[trigger] ticks[t], id, false),
    ensures
        after_ticks(s, ticks, n).held.contains(id),
        !after_ticks(s, ticks, n).pressed.contains(id),
    decreases n,
{
    let prev = after_ticks(s, ticks, (n - 1) as nat);
    if n > 1 {
        held_key_is_not_pressed_again(s, ticks, id, (n - 1) as nat);
    }
    assert(!has_event(ticks[n - 1], id, false));
    lemma_no_event_keeps(end_step(prev), ticks[n - 1], id, true);
}

/// A key that is held when a tick starts and goes up during it, without going
/// down again in that tick, is released and no longer held on that tick.
pub proof fn release_shows_on_its_tick(s: EdgeState, evs: Seq<InputEvent>, id: u32)
    requires
        s.held.contains(id),
        has_event(evs, id, false),
        !has_event(evs, id, true),
    ensures
        next_tick(s, evs).released.contains(id),
        !next_tick(s, evs).held.contains(id),
{
    lemma_event_then_keeps(end_step(s), evs, id, false);
}

/// A key that is up when a run of ticks starts and gets no press event in any
/// of them stays up and is released on none of them.
pub proof fn idle_key_is_not_released_again(s: EdgeState, ticks: Seq<Seq<InputEvent>>, id: u32, n: nat)
    requires
        !s.held.contains(id),
        1 <= n <= ticks.len(),
        forall|t: int| 0 <= t < ticks.len() ==> !has_event(#[trigger] ticks[t], id, true),
    ensures
        !after_ticks(s, ticks, n).held.contains(id),
        !after_ticks(s, ticks, n).released.contains(id),
    decreases n,
{
    let prev = after_ticks(s, ticks, (n - 1) as nat);
    if n > 1 {
        idle_key_is_not_released_again(s, ticks, id, (n - 1) as nat);
    }
    assert(!has_event(ticks[n - 1], id, true));
    lemma_no_event_keeps(end_step(prev), ticks[n - 1], id, false);
}

/// The held, pressed and released sets of one family of keys or buttons.
pub struct EdgeTracker {
    held: IdSet,
    pressed: IdSet,
    released: IdSet,
}

impl View for EdgeTracker {
    type V = EdgeState;

    closed spec fn view(&self) -> EdgeState {
        EdgeState { held: self.held@, pressed: self.pressed@, released: self.released@ }
    }
}

impl EdgeTracker {
    /// Nothing held, no edges.
    pub fn new() -> (r: EdgeTracker)
        ensures
            r@ == (EdgeState { held: Set::empty(), pressed: Set::empty(), released: Set::empty() }),
    {
        EdgeTracker { held: IdSet::new(), pressed: IdSet::new(), released: IdSet::new() }
    }

    /// Folds in one raw event.
    pub fn event(&mut self, id: u32, down: bool)
        ensures
            final(self)@ == apply_event(old(self)@, InputEvent { id, down }),
    {
        let was_held = self.held.contains(id);
        if down {
            if !was_held {
                self.held.insert(id);
                self.pressed.insert(id);
            }
        } else {
            if was_held {
                self.held.remove(id);
                self.released.insert(id);
            }
        }
    }

    /// Forgets this tick's edges.
    pub fn end_step(&mut self)
        ensures
            final(self)@ == end_step(old(self)@),
    {
        self.pressed.clear();
        self.released.clear();
    }

    /// Whether `id` is down.
    pub fn is_held(&self, id: u32) -> (r: bool)
        ensures
            r == self@.held.contains(id),
    {
        self.held.contains(id)
    }

    /// Whether `id` went down this tick.
    pub fn is_pressed(&self, id: u32) -> (r: bool)
        ensures
            r == self@.pressed.contains(id),
    {
        self.pressed.contains(id)
    }

    /// Whether `id` went up this tick.
    pub fn is_released(&self, id: u32) -> (r: bool)
        ensures
            r == self@.released.contains(id),
    {
        self.released.contains(id)
    }
}


/// Cursor positions are kept in fractions of a pixel: this many to a pixel.
pub const SUBPIXELS: u32 = 256;

/// The logical coordinate of physical coordinate `m` when `physical` pixels
/// of the window show `logical` pixels of the canvas: `m * logical /
/// physical`, rounded down, and capped at `u32::MAX`.
pub open spec fn to_logical(m: nat, logical: nat, physical: nat) -> nat {
    let v = m * logical / physical;
    if v > u32::MAX {
        u32::MAX as nat
    } else {
        v
    }
}

/// Maps physical coordinate `m` to a logical one.
pub fn map_to_logical(m: u32, logical: u32, physical: u32) -> (r: u32)
    requires
        physical > 0,
    ensures
        r == to_logical(m as nat, logical as nat, physical as nat),
{
    proof {
        assert(0 <= (m as nat) * (logical as nat) <= 0xffff_ffff * 0xffff_ffff) by (nonlinear_arith)
            requires
                m <= 0xffff_ffff,
                logical <= 0xffff_ffff,
        ;
    }
    let v: u64 = (m as u64) * (logical as u64) / (physical as u64);
    if v > u32::MAX as u64 {
        u32::MAX
    } else {
        v as u32
    }
}

/// The logical mouse position for a cursor sample, the current sizes given
/// as `(logical, physical)`: absent without a sample or when the window has
/// no area.
pub open spec fn logical_mouse(
    cursor: Option<(u32, u32)>,
    logical: (u32, u32),
    physical: (u32, u32),
) -> Option<(u32, u32)> {
    match cursor {
        Some((mx, my)) => if physical.0 > 0 && physical.1 > 0 {
            Some(
                (
                    to_logical(mx as nat, logical.0 as nat, physical.0 as nat) as u32,
                    to_logical(my as nat, logical.1 as nat, physical.1 as nat) as u32,
                ),
            )
        } else {
            None
        },
        None => None,
    }
}

/// The input state that client code reads during a tick: keys and mouse
/// buttons (each identified by a number), the mouse position on the canvas,
/// and the window events of this tick.
pub struct Input {
    keys: EdgeTracker,
    buttons: EdgeTracker,
    cursor: Option<(u32, u32)>,
    mouse_logical: Option<(u32, u32)>,
    resized: Option<(u32, u32)>,
    close_requested: bool,
}

impl Input {
    /// The keyboard's state.
    pub closed spec fn keys(&self) -> EdgeState {
        self.keys@
    }

    /// The mouse buttons' state.
    pub closed spec fn buttons(&self) -> EdgeState {
        self.buttons@
    }

    /// The latest physical cursor sample, in `SUBPIXELS`ths of a pixel;
    /// absent before the first sample and after focus is lost.
    pub closed spec fn cursor(&self) -> Option<(u32, u32)> {
        self.cursor
    }

    /// The logical mouse position as last mapped, in `SUBPIXELS`ths of a
    /// logical pixel.
    pub closed spec fn mouse(&self) -> Option<(u32, u32)> {
        self.mouse_logical
    }

    /// The new window size, if the window was resized this tick.
    pub closed spec fn resized(&self) -> Option<(u32, u32)> {
        self.resized
    }

    /// Whether closing the window was asked for this tick.
    pub closed spec fn close(&self) -> bool {
        self.close_requested
    }

    /// Nothing held, no cursor, no window event.
    pub fn new() -> (r: Input)
        ensures
            r.keys() == (EdgeState { held: Set::empty(), pressed: Set::empty(), released: Set::empty() }),
            r.buttons() == (EdgeState { held: Set::empty(), pressed: Set::empty(), released: Set::empty() }),
            r.cursor() is None,
            r.mouse() is None,
            r.resized() is None,
            !r.close(),
    {
        Input {
            keys: EdgeTracker::new(),
            buttons: EdgeTracker::new(),
            cursor: None,
            mouse_logical: None,
            resized: None,
            close_requested: false,
        }
    }

    /// Folds in a key going down or up.
    pub fn key_event(&mut self, key: u32, down: bool)
        ensures
            final(self).keys() == apply_event(old(self).keys(), InputEvent { id: key, down }),
            final(self).buttons() == old(self).buttons(),
            final(self).cursor() == old(self).cursor(),
            final(self).mouse() == old(self).mouse(),
            final(self).resized() == old(self).resized(),
            final(self).close() == old(self).close(),
    {
        self.keys.event(key, down);
    }

    /// Folds in a mouse button going down or up.
    pub fn mouse_button_event(&mut self, button: u32, down: bool)
        ensures
            final(self).buttons() == apply_event(old(self).buttons(), InputEvent { id: button, down }),
            final(self).keys() == old(self).keys(),
            final(self).cursor() == old(self).cursor(),
            final(self).mouse() == old(self).mouse(),
            final(self).resized() == old(self).resized(),
            final(self).close() == old(self).close(),
    {
        self.buttons.event(button, down);
    }

    /// Records a physical cursor sample, in `SUBPIXELS`ths of a pixel, or
    /// its absence (the window lost focus).
    pub fn cursor_event(&mut self, position: Option<(u32, u32)>)
        ensures
            final(self).cursor() == position,
            final(self).keys() == old(self).keys(),
            final(self).buttons() == old(self).buttons(),
            final(self).mouse() == old(self).mouse(),
            final(self).resized() == old(self).resized(),
            final(self).close() == old(self).close(),
    {
        self.cursor = position;
    }

    /// Records that the window was resized this tick.
    pub fn resize_event(&mut self, size: (u32, u32))
        ensures
            final(self).resized() == Some(size),
            final(self).keys() == old(self).keys(),
            final(self).buttons() == old(self).buttons(),
            final(self).cursor() == old(self).cursor(),
            final(self).mouse() == old(self).mouse(),
            final(self).close() == old(self).close(),
    {
        self.resized = Some(size);
    }

    /// Records that closing the window was asked for.
    pub fn close_event(&mut self)
        ensures
            final(self).close(),
            final(self).keys() == old(self).keys(),
            final(self).buttons() == old(self).buttons(),
            final(self).cursor() == old(self).cursor(),
            final(self).mouse() == old(self).mouse(),
            final(self).resized() == old(self).resized(),
    {
        self.close_requested = true;
    }

    /// Recomputes the logical mouse position from the latest sample and the
    /// current logical and physical sizes.
    pub fn update_mouse_mapping(&mut self, gfx: &Graphics)
        ensures
            final(self).mouse() == logical_mouse(old(self).cursor(), gfx.logical(), gfx.window()),
            final(self).keys() == old(self).keys(),
            final(self).buttons() == old(self).buttons(),
            final(self).cursor() == old(self).cursor(),
            final(self).resized() == old(self).resized(),
            final(self).close() == old(self).close(),
    {
        let (lw, lh) = gfx.logical_size();
        let (ww, wh) = gfx.window_size();
        self.mouse_logical = match self.cursor {
            Some((mx, my)) => if ww > 0 && wh > 0 {
                Some((map_to_logical(mx, lw, ww), map_to_logical(my, lh, wh)))
            } else {
                None
            },
            None => None,
        };
    }

    /// Ends a tick: this tick's edges and window events are forgotten.
    pub fn end_step(&mut self)
        ensures
            final(self).keys() == end_step(old(self).keys()),
            final(self).buttons() == end_step(old(self).buttons()),
            final(self).cursor() == old(self).cursor(),
            final(self).mouse() == old(self).mouse(),
            final(self).resized() is None,
            !final(self).close(),
    {
        self.keys.end_step();
        self.buttons.end_step();
        self.resized = None;
        self.close_requested = false;
    }

    /// Whether `key` is down on this tick: held, or released during it
    /// (the release tick still counts as down).
    pub fn key_down(&self, key: u32) -> (r: bool)
        ensures
            r == (self.keys().held.contains(key) || self.keys().released.contains(key)),
    {
        self.keys.is_held(key) || self.keys.is_released(key)
    }

    /// Whether `key` went down this tick.
    pub fn key_pressed(&self, key: u32) -> (r: bool)
        ensures
            r == self.keys().pressed.contains(key),
    {
        self.keys.is_pressed(key)
    }

    /// Whether `key` went up this tick.
    pub fn key_released(&self, key: u32) -> (r: bool)
        ensures
            r == self.keys().released.contains(key),
    {
        self.keys.is_released(key)
    }

    /// Whether mouse button `button` is down on this tick: held, or released
    /// during it (the release tick still counts as down).
    pub fn mouse_down(&self, button: u32) -> (r: bool)
        ensures
            r == (self.buttons().held.contains(button) || self.buttons().released.contains(button)),
    {
        self.buttons.is_held(button) || self.buttons.is_released(button)
    }

    /// Whether mouse button `button` went down this tick.
    pub fn mouse_pressed(&self, button: u32) -> (r: bool)
        ensures
            r == self.buttons().pressed.contains(button),
    {
        self.buttons.is_pressed(button)
    }

    /// Whether mouse button `button` went up this tick.
    pub fn mouse_released(&self, button: u32) -> (r: bool)
        ensures
            r == self.buttons().released.contains(button),
    {
        self.buttons.is_released(button)
    }

    /// The mouse position on the canvas in whole logical pixels (rounded
    /// down), absent when there is no cursor sample (no interaction this tick).
    pub fn mouse_pos(&self) -> (r: Option<(u32, u32)>)
        ensures
            r == match self.mouse() {
                Some((x, y)) => Some(((x / SUBPIXELS) as u32, (y / SUBPIXELS) as u32)),
                None => None,
            },
    {
        match self.mouse_logical {
            Some((x, y)) => Some((x / SUBPIXELS, y / SUBPIXELS)),
            None => None,
        }
    }

    /// The mouse position on the canvas in `SUBPIXELS`ths of a logical pixel,
    /// absent when there is no cursor sample.
    pub fn mouse_pos_fine(&self) -> (r: Option<(u32, u32)>)
        ensures
            r == self.mouse(),
    {
        self.mouse_logical
    }

    /// Takes in the loss of window focus: nothing is held any more, this
    /// tick's edges are dropped, and there is no cursor sample until the
    /// cursor moves again.
    pub fn focus_lost(&mut self)
        ensures
            final(self).keys() == (EdgeState { held: Set::empty(), pressed: Set::empty(), released: Set::empty() }),
            final(self).buttons() == (EdgeState { held: Set::empty(), pressed: Set::empty(), released: Set::empty() }),
            final(self).cursor() is None,
            final(self).mouse() == old(self).mouse(),
            final(self).resized() == old(self).resized(),
            final(self).close() == old(self).close(),
    {
        self.keys = EdgeTracker::new();
        self.buttons = EdgeTracker::new();
        self.cursor = None;
    }

    /// The new window size, only on the tick the window was resized.
    pub fn window_resized(&self) -> (r: Option<(u32, u32)>)
        ensures
            r == self.resized(),
    {
        self.resized
    }

    /// Whether closing the window was asked for this tick.
    pub fn window_close_requested(&self) -> (r: bool)
        ensures
            r == self.close(),
    {
        self.close_requested
    }
}

} // verus!
