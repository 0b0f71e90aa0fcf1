//! Symbols, actions and columns: the data of a compiled automaton.
use vstd::prelude::*;

verus! {

/// Number of symbols in the alphabet: codes 0–127 are characters, 128 is
/// unused, 129 marks the end of the input.
pub const FSM_COLUMN_SIZE: usize = 130;

/// The symbol looked up once the input is exhausted.
pub const FSM_ENDLINE: usize = 129;

/// First symbol code matched by the wildcard.
pub const WILDCARD_LOW: u32 = 33;

/// Last symbol code matched by the wildcard.
pub const WILDCARD_HIGH: u32 = 126;

/// Whether following an action advances the input cursor.
#[derive(Clone, Copy, Debug, PartialEq, Eq, Structural)]
pub enum Move {
    Consume,
    Epsilon,
}

/// A transition: the state to go to, and whether the symbol is used up.
#[derive(Clone, Copy, Debug, PartialEq, Eq, Structural)]
pub struct FsmAction {
    pub next: usize,
    pub step: Move,
}

/// The model of an action: target state and "consumes input".
pub type Act = (nat, bool);

/// The model of a column: one action per symbol.
pub type ColModel = Seq<Act>;

/// The model of a compiled automaton: one column per state.
pub type FsmModel = Seq<ColModel>;

impl View for FsmAction {
    type V = Act;

    open spec fn view(&self) -> Act {
        (self.next as nat, self.step == Move::Consume)
    }
}

impl FsmAction {
    /// The failure action, taken for every symbol nothing was set for.
    pub fn fail() -> (r: FsmAction)
        ensures
            r@ == fail_act(),
    {
        FsmAction { next: 0, step: Move::Consume }
    }
}

pub open spec fn fail_act() -> Act {
    (0nat, true)
}

/// Whether a pattern token `u` (a literal or `.`) accepts the symbol `x`.
pub open spec fn accepts_code(u: char, x: int) -> bool {
    if u == '.' {
        WILDCARD_LOW <= x <= WILDCARD_HIGH
    } else {
        x == u as u32 as int
    }
}

/// Whether a pattern token `u` (a literal or `.`) accepts the input character `x`.
pub open spec fn unit_accepts(u: char, x: char) -> bool {
    accepts_code(u, x as u32 as int)
}

/// The column of the placeholder state 0: failure everywhere.
pub open spec fn blank_column() -> ColModel {
    Seq::new(FSM_COLUMN_SIZE as nat, |i: int| fail_act())
}

/// The column of a literal or `.`: consume and go to `t` on each accepted symbol.
pub open spec fn unit_column(u: char, t: nat) -> ColModel {
    Seq::new(
        FSM_COLUMN_SIZE as nat,
        |i: int| if accepts_code(u, i) { (t, true) } else { fail_act() },
    )
}

/// The column of `$`: go to `t` on the end-of-input symbol only.
pub open spec fn anchor_column(t: nat) -> ColModel {
    Seq::new(
        FSM_COLUMN_SIZE as nat,
        |i: int| if i == FSM_ENDLINE { (t, true) } else { fail_act() },
    )
}

/// The action that a column gives for an input character; characters outside
/// 0–127 have no entry and fail.
pub open spec fn lookup(col: ColModel, x: char) -> Act {
    if (x as u32) < 128 {
        col[x as u32 as int]
    } else {
        fail_act()
    }
}

/// The shape that a quantifier needs in the column before it: the column of
/// a literal or `.` whose accepting actions go to `n`, the next state.
pub open spec fn unit_shaped(col: ColModel, n: nat) -> bool {
    &&& col.len() == FSM_COLUMN_SIZE
    &&& forall|i: int| 0 <= i < FSM_COLUMN_SIZE ==> #[trigger] col[i] == (n, true) || col[i] == fail_act()
    &&& col[FSM_ENDLINE as int].0 == 0
    &&& exists|i: int| 0 <= i < FSM_COLUMN_SIZE && #[trigger] col[i].0 == n
}

/// The column added by `+` after a unit column at state `n - 1`: actions
/// into `n` loop on `n`, failures become a move to `n + 1` that keeps the symbol.
pub open spec fn plus_column(col: ColModel, n: nat) -> ColModel {
    col.map_values(|a: Act| if a.0 == 0 { (n + 1, false) } else { a })
}

/// The unit column at state `n - 1` rewritten by `*`: actions into `n` loop
/// on `n - 1`, failures become a move to `n` that keeps the symbol.
pub open spec fn star_column(col: ColModel, n: nat) -> ColModel {
    col.map_values(
        |a: Act|
            if a.0 == n {
                ((n - 1) as nat, a.1)
            } else if a.0 == 0 {
                (n, false)
            } else {
                a
            },
    )
}

/// A column of the form that both quantifiers produce for token `u` at state
/// `k`: stay on `k` while `u` accepts, otherwise move on to `k + 1` in place.
pub open spec fn loop_column(u: char, k: nat) -> ColModel {
    Seq::new(
        FSM_COLUMN_SIZE as nat,
        |i: int| if accepts_code(u, i) { (k, true) } else { (k + 1, false) },
    )
}

/// A dense table of one action per symbol.
#[derive(Debug)]
pub struct FsmColumn {
    ts: Vec<FsmAction>,
}

impl View for FsmColumn {
    type V = ColModel;

    closed spec fn view(&self) -> ColModel {
        self.ts@.map_values(|a: FsmAction| a@)
    }
}

impl FsmColumn {
    /// A column that fails on every symbol.
    pub fn new() -> (r: FsmColumn)
        ensures
            r@ == blank_column(),
    {
        let mut ts: Vec<FsmAction> = Vec::new();
        let mut i: usize = 0;
        while i < FSM_COLUMN_SIZE
            invariant
                i <= FSM_COLUMN_SIZE,
                ts@.len() == i,
                forall|j: int| 0 <= j < i ==> #[trigger] ts@[j]@ == fail_act(),
            decreases FSM_COLUMN_SIZE - i,
        {
            ts.push(FsmAction::fail());
            i = i + 1;
        }
        let r = FsmColumn { ts };
        assert(r@ =~= blank_column());
        r
    }

    /// The column of a literal or `.` whose accepted symbols lead to `t`.
    pub fn unit_of(u: char, t: usize) -> (r: FsmColumn)
        requires
            (u as u32) < 128,
        ensures
            r@ == unit_column(u, t as nat),
    {
        let mut col = FsmColumn::new();
        let go = FsmAction { next: t, step: Move::Consume };
        if u == '.' {
            let mut i: usize = WILDCARD_LOW as usize;
            while i <= WILDCARD_HIGH as usize
                invariant
                    WILDCARD_LOW <= i <= WILDCARD_HIGH + 1,
                    go@ == (t as nat, true),
                    col@ == Seq::new(
                        FSM_COLUMN_SIZE as nat,
                        |j: int| if WILDCARD_LOW <= j < i { (t as nat, true) } else { fail_act() },
                    ),
                decreases WILDCARD_HIGH + 1 - i,
            {
                col.set_action(i, go);
                i = i + 1;
                assert(col@ =~= Seq::new(
                    FSM_COLUMN_SIZE as nat,
                    |j: int| if WILDCARD_LOW <= j < i { (t as nat, true) } else { fail_act() },
                ));
            }
        } else {
            col.set_action(u as u32 as usize, go);
        }
        assert(col@ =~= unit_column(u, t as nat));
        col
    }

    /// The column of `$`: the end-of-input symbol leads to `t`.
    pub fn anchor_of(t: usize) -> (r: FsmColumn)
        ensures
            r@ == anchor_column(t as nat),
    {
        let mut col = FsmColumn::new();
        col.set_action(FSM_ENDLINE, FsmAction { next: t, step: Move::Consume });
        assert(col@ =~= anchor_column(t as nat));
        col
    }

    /// Whether this column has the shape a quantifier may follow, with `n` the next state.
    pub fn is_unit_shaped(&self, n: usize) -> (r: bool)
        ensures
            r == unit_shaped(self@, n as nat),
    {
        if self.ts.len() != FSM_COLUMN_SIZE {
            return false;
        }
        let mut all_fit = true;
        let mut hit = false;
        let mut i: usize = 0;
        while i < FSM_COLUMN_SIZE
            invariant
                self@.len() == FSM_COLUMN_SIZE,
                i <= FSM_COLUMN_SIZE,
                all_fit == forall|j: int| 0 <= j < i ==> #[trigger] self@[j] == (n as nat, true) || self@[j] == fail_act(),
                hit == exists|j: int| 0 <= j < i && #[trigger] self@[j].0 == n,
            decreases FSM_COLUMN_SIZE - i,
        {
            let a = self.ts[i];
            assert(a@ == self@[i as int]);
            let fits = (a.next == n || a.next == 0) && a.step == Move::Consume;
            all_fit = all_fit && fits;
            if a.next == n {
                hit = true;
            }
            assert(hit == exists|j: int| 0 <= j < i + 1 && #[trigger] self@[j].0 == n) by {
                if a.next == n {
                    assert(self@[i as int].0 == n);
                }
            }
            i = i + 1;
        }
        let end = self.ts[FSM_ENDLINE];
        assert(end@ == self@[FSM_ENDLINE as int]);
        all_fit && hit && end.next == 0
    }

    /// The column that `+` appends after this one, with `n` its own state.
    pub fn plus_of(&self, n: usize) -> (r: FsmColumn)
        requires
            n < usize::MAX,
        ensures
            r@ == plus_column(self@, n as nat),
    {
        let mut ts: Vec<FsmAction> = Vec::new();
        let mut i: usize = 0;
        while i < self.ts.len()
            invariant
                i <= self@.len(),
                n < usize::MAX,
                ts@.len() == i,
                forall|j: int| 0 <= j < i ==> #[trigger] ts@[j]@ == plus_column(self@, n as nat)[j],
            decreases self@.len() - i,
        {
            let a = self.ts[i];
            assert(a@ == self@[i as int]);
            let b = if a.next == 0 {
                FsmAction { next: n + 1, step: Move::Epsilon }
            } else {
                a
            };
            ts.push(b);
            i = i + 1;
        }
        let r = FsmColumn { ts };
        assert(r@ =~= plus_column(self@, n as nat));
        r
    }

    /// This column rewritten by `*`, with `n` the state after it.
    pub fn star_of(&self, n: usize) -> (r: FsmColumn)
        requires
            n >= 1,
        ensures
            r@ == star_column(self@, n as nat),
    {
        let mut ts: Vec<FsmAction> = Vec::new();
        let mut i: usize = 0;
        while i < self.ts.len()
            invariant
                i <= self@.len(),
                n >= 1,
                ts@.len() == i,
                forall|j: int| 0 <= j < i ==> #[trigger] ts@[j]@ == star_column(self@, n as nat)[j],
            decreases self@.len() - i,
        {
            let a = self.ts[i];
            assert(a@ == self@[i as int]);
            let b = if a.next == n {
                FsmAction { next: n - 1, step: a.step }
            } else if a.next == 0 {
                FsmAction { next: n, step: Move::Epsilon }
            } else {
                a
            };
            ts.push(b);
            i = i + 1;
        }
        let r = FsmColumn { ts };
        assert(r@ =~= star_column(self@, n as nat));
        r
    }

    /// The action recorded for symbol `sym`.
    pub fn action(&self, sym: usize) -> (r: FsmAction)
        requires
            self@.len() == FSM_COLUMN_SIZE,
            sym < FSM_COLUMN_SIZE,
        ensures
            r@ == self@[sym as int],
    {
        self.ts[sym]
    }

    /// The action taken on input character `x`.
    pub fn lookup(&self, x: char) -> (r: FsmAction)
        requires
            self@.len() == FSM_COLUMN_SIZE,
        ensures
            r@ == lookup(self@, x),
    {
        let code = x as u32;
        if code < 128 {
            self.ts[code as usize]
        } else {
            FsmAction::fail()
        }
    }

    /// Records action `a` for symbol `sym`.
    pub fn set_action(&mut self, sym: usize, a: FsmAction)
        requires
            sym < old(self)@.len(),
        ensures
            final(self)@ == old(self)@.update(sym as int, a@),
    {
        self.ts.set(sym, a);
        assert(final(self)@ =~= old(self)@.update(sym as int, a@));
    }
}

} // verus!
