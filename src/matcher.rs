//! What running a compiled table over an input yields.
use vstd::prelude::*;

use crate::fsm::{lookup, FsmModel, FSM_ENDLINE};

verus! {

/// The state the table `f` reaches from `state` with the cursor at `cur`:
/// it follows actions while the state is live and input remains. A move
/// that keeps its symbol must go forward (compiled tables always do).
pub open spec fn run(f: FsmModel, s: Seq<char>, state: nat, cur: nat) -> nat
    decreases s.len() - cur, (if state < f.len() { f.len() - state } else { 0 }),
{
    if 0 < state < f.len() && cur < s.len() {
        let a = lookup(f[state as int], s[cur as int]);
        if a.1 {
            run(f, s, a.0, cur + 1)
        } else if a.0 > state {
            run(f, s, a.0, cur)
        } else {
            0
        }
    } else {
        state
    }
}

/// The verdict once the walk stopped in `st`: failure at 0, acceptance past
/// the last column, else one look at the end-of-input symbol decides.
pub open spec fn settle(f: FsmModel, st: nat) -> bool {
    st != 0 && (st >= f.len() || f[st as int][FSM_ENDLINE as int].0 >= f.len())
}

/// Whether the table `f` accepts input `s`, starting in state 1.
pub open spec fn accepts(f: FsmModel, s: Seq<char>) -> bool {
    settle(f, run(f, s, 1, 0))
}

} // verus!
