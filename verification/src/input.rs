//! Turns "is this action held right now" into moves that repeat after a
//! delay, and into presses that count once.

use vstd::prelude::*;
use crate::data::REPEAT_DELAY;

verus! {

/// The actions a player has. There are no others.
#[derive(Clone, Copy, Debug, PartialEq, Eq, Structural)]
pub enum Action {
    Up,
    Down,
    Left,
    Right,
    Swap,
    Space,
}

/// The action that goes by `name`, if one does.
pub open spec fn action_named(name: Seq<char>) -> Option<Action> {
    if name == "up"@ {
        Some(Action::Up)
    } else if name == "down"@ {
        Some(Action::Down)
    } else if name == "left"@ {
        Some(Action::Left)
    } else if name == "right"@ {
        Some(Action::Right)
    } else if name == "swap"@ {
        Some(Action::Swap)
    } else if name == "space"@ {
        Some(Action::Space)
    } else {
        None
    }
}

/// Whether `hold` reports a held action as acting, with `c` ticks counted
/// before: on the first tick, and on every tick once the delay has passed.
pub open spec fn hold_fires(c: nat, held: bool) -> bool {
    held && (c == 0 || c > REPEAT_DELAY)
}

/// The counter that `hold` leaves: one more while the action is held, none
/// once it is let go.
pub open spec fn hold_next(c: nat, held: bool) -> nat {
    if held {
        c + 1
    } else {
        0
    }
}

/// Whether `press` reports an action as pressed, with `c` ticks counted
/// before: on the first tick on which it is held.
pub open spec fn press_fires(c: nat, held: bool) -> bool {
    held && c == 0
}

/// The counter that `press` leaves: it marks a held action, and counts no
/// further until the action is let go.
pub open spec fn press_next(c: nat, held: bool) -> nat {
    if !held {
        0
    } else if c == 0 {
        1
    } else {
        c
    }
}

/// The counter that `hold` leaves after the ticks of `ticks`, each of which
/// says whether the action was held.
pub open spec fn hold_after(c: nat, ticks: Seq<bool>) -> nat
    decreases ticks.len(),
{
    if ticks.len() == 0 {
        c
    } else {
        hold_next(hold_after(c, ticks.drop_last()), ticks.last())
    }
}

/// The counter that `press` leaves after the ticks of `ticks`.
pub open spec fn press_after(c: nat, ticks: Seq<bool>) -> nat
    decreases ticks.len(),
{
    if ticks.len() == 0 {
        c
    } else {
        press_next(press_after(c, ticks.drop_last()), ticks.last())
    }
}

/// `n` ticks in a row on which the action is held.
pub open spec fn held_for(n: nat) -> Seq<bool> {
    Seq::new(n, |i: int| true)
}

/// After `n` held ticks that began with the counter at zero, `hold` has
/// counted `n`.
pub proof fn lemma_hold_counts_ticks(n: nat)
    ensures
        hold_after(0, held_for(n)) == n,
    decreases n,
{
    if n > 0 {
        lemma_hold_counts_ticks((n - 1) as nat);
        assert(held_for(n).drop_last() =~= held_for((n - 1) as nat));
    }
}

/// An action held without a break acts under `hold` on its first tick and
/// from tick `REPEAT_DELAY + 2` on, and on no tick between. That holds from a
/// new detector, and again whenever the action was let go, whatever happened
/// before: letting go puts the counter back to zero.
pub proof fn lemma_hold_pattern(c: nat, before: Seq<bool>, tick: nat)
    requires
        tick >= 1,
    ensures
        hold_next(c, false) == 0,
        !hold_fires(c, false),
        hold_after(c, before.push(false)) == 0,
        hold_fires(hold_after(0, held_for((tick - 1) as nat)), true) <==> (tick == 1 || tick
            >= REPEAT_DELAY + 2),
{
    assert(before.push(false).drop_last() =~= before);
    lemma_hold_counts_ticks((tick - 1) as nat);
}

/// After one or more held ticks that began with the counter at zero, `press`
/// has the counter at one.
pub proof fn lemma_press_marks_once(n: nat)
    ensures
        press_after(0, held_for(n)) == if n == 0 {
            0nat
        } else {
            1nat
        },
    decreases n,
{
    if n > 0 {
        lemma_press_marks_once((n - 1) as nat);
        assert(held_for(n).drop_last() =~= held_for((n - 1) as nat));
    }
}

/// An action held without a break is pressed under `press` on its first tick
/// and on no later one, however long it is held. That holds from a new
/// detector, and again whenever the action was let go.
pub proof fn lemma_press_pattern(c: nat, before: Seq<bool>, tick: nat)
    requires
        tick >= 1,
    ensures
        press_next(c, false) == 0,
        !press_fires(c, false),
        press_after(c, before.push(false)) == 0,
        press_fires(press_after(0, held_for((tick - 1) as nat)), true) <==> tick == 1,
{
    assert(before.push(false).drop_last() =~= before);
    lemma_press_marks_once((tick - 1) as nat);
}

impl Action {
    /// Finds the action that goes by `name`.
    pub fn from_name(name: &str) -> (r: Option<Action>)
        ensures
            r == action_named(name@),
    {
        let owned: String = name.to_owned();
        if owned == "up".to_owned() {
            Some(Action::Up)
        } else if owned == "down".to_owned() {
            Some(Action::Down)
        } else if owned == "left".to_owned() {
            Some(Action::Left)
        } else if owned == "right".to_owned() {
            Some(Action::Right)
        } else if owned == "swap".to_owned() {
            Some(Action::Swap)
        } else if owned == "space".to_owned() {
            Some(Action::Space)
        } else {
            None
        }
    }
}

/// Which actions an input source reports as held in one tick. `raise` is no
/// action of the player's six: it is only handed on.
#[derive(Clone, Copy, Debug, PartialEq, Eq, Structural)]
pub struct HeldActions {
    pub up: bool,
    pub down: bool,
    pub left: bool,
    pub right: bool,
    pub swap: bool,
    pub space: bool,
    pub raise: bool,
}

impl HeldActions {
    /// Whether `action` is held.
    pub open spec fn holds(&self, action: Action) -> bool {
        match action {
            Action::Up => self.up,
            Action::Down => self.down,
            Action::Left => self.left,
            Action::Right => self.right,
            Action::Swap => self.swap,
            Action::Space => self.space,
        }
    }

    /// Nothing held.
    pub fn none() -> (h: HeldActions)
        ensures
            forall|a: Action| !h.holds(a),
            !h.raise,
    {
        HeldActions {
            up: false,
            down: false,
            left: false,
            right: false,
            swap: false,
            space: false,
            raise: false,
        }
    }

    /// Whether `action` is held.
    pub fn is_held(&self, action: Action) -> (r: bool)
        ensures
            r == self.holds(action),
    {
        match action {
            Action::Up => self.up,
            Action::Down => self.down,
            Action::Left => self.left,
            Action::Right => self.right,
            Action::Swap => self.swap,
            Action::Space => self.space,
        }
    }
}

/// One counter for each action: the ticks for which it has been held, as far
/// as `hold` and `press` counted them.
#[derive(Clone, Copy, Debug)]
pub struct KeyPresses {
    up: u32,
    down: u32,
    left: u32,
    right: u32,
    swap: u32,
    space: u32,
}

impl KeyPresses {
    /// The counter of `action`.
    pub closed spec fn counter(&self, action: Action) -> u32 {
        match action {
            Action::Up => self.up,
            Action::Down => self.down,
            Action::Left => self.left,
            Action::Right => self.right,
            Action::Swap => self.swap,
            Action::Space => self.space,
        }
    }

    /// Whether `other` has the same counters but for that of `action`.
    pub open spec fn same_but(&self, other: KeyPresses, action: Action) -> bool {
        forall|a: Action| a != action ==> self.counter(a) == other.counter(a)
    }

    /// All counters at zero.
    pub fn new() -> (k: KeyPresses)
        ensures
            forall|a: Action| k.counter(a) == 0,
    {
        KeyPresses { up: 0, down: 0, left: 0, right: 0, swap: 0, space: 0 }
    }

    /// Reads the counter of `action`.
    pub fn count(&self, action: Action) -> (c: u32)
        ensures
            c == self.counter(action),
    {
        match action {
            Action::Up => self.up,
            Action::Down => self.down,
            Action::Left => self.left,
            Action::Right => self.right,
            Action::Swap => self.swap,
            Action::Space => self.space,
        }
    }

    fn put(&mut self, action: Action, c: u32)
        ensures
            final(self).counter(action) == c,
            final(self).same_but(*old(self), action),
    {
        match action {
            Action::Up => {
                self.up = c;
            },
            Action::Down => {
                self.down = c;
            },
            Action::Left => {
                self.left = c;
            },
            Action::Right => {
                self.right = c;
            },
            Action::Swap => {
                self.swap = c;
            },
            Action::Space => {
                self.space = c;
            },
        }
    }

    /// Counts one tick of `action` and says whether the action acts in it:
    /// a held action acts on its first tick and, once it has been held for
    /// more than `REPEAT_DELAY` ticks, on every tick.
    pub fn hold(&mut self, held: bool, action: Action) -> (r: bool)
        requires
            held ==> old(self).counter(action) < u32::MAX,
        ensures
            r == hold_fires(old(self).counter(action) as nat, held),
            final(self).counter(action) == hold_next(old(self).counter(action) as nat, held),
            final(self).same_but(*old(self), action),
    {
        if held {
            let c: u32 = self.count(action);
            self.put(action, c + 1);
            c == 0 || c > REPEAT_DELAY
        } else {
            self.put(action, 0);
            false
        }
    }

    /// Counts one tick of `action` and says whether the action was pressed in
    /// it: on the first tick on which it is held, and not again until it has
    /// been let go.
    pub fn press(&mut self, held: bool, action: Action) -> (r: bool)
        ensures
            r == press_fires(old(self).counter(action) as nat, held),
            final(self).counter(action) == press_next(old(self).counter(action) as nat, held),
            final(self).same_but(*old(self), action),
    {
        if held {
            if self.count(action) == 0 {
                self.put(action, 1);
                return true;
            }
        } else {
            self.put(action, 0);
        }
        false
    }
}

} // verus!
