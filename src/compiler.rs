//! What compiling a pattern yields, token by token.
use vstd::prelude::*;

use crate::fsm::{
    anchor_column, plus_column, star_column, unit_column, unit_shaped, Act, ColModel, FsmModel,
    FSM_COLUMN_SIZE,
};

verus! {

/// Why a pattern could not be compiled.
#[derive(Clone, Copy, Debug, PartialEq, Eq, Structural)]
pub enum FaultKind {
    /// A pattern character outside codes 0–127.
    UnsupportedSymbol,
    /// `+` or `*` not right after a literal or `.`.
    MisplacedQuantifier,
}

/// A compile failure and the position (in characters) of the offending token.
#[derive(Clone, Copy, Debug, PartialEq, Eq, Structural)]
pub struct CompileFault {
    pub kind: FaultKind,
    pub pos: usize,
}

/// The model of a compile failure: its kind and position.
pub type FaultModel = (FaultKind, nat);

/// A literal or `.`: a token that becomes one consuming column.
pub open spec fn is_unit_token(c: char) -> bool {
    c != '$' && c != '+' && c != '*' && (c as u32) < 128
}

/// The effect of token `c`, at position `pos`, on the columns `f` built so far.
pub open spec fn compile_token(f: FsmModel, c: char, pos: nat) -> Result<FsmModel, FaultModel> {
    let n = f.len();
    if c == '$' {
        Ok(f.push(anchor_column(n + 1)))
    } else if c == '+' || c == '*' {
        if unit_shaped(f.last(), n) {
            if c == '+' {
                Ok(f.push(plus_column(f.last(), n)))
            } else {
                Ok(f.update(n - 1, star_column(f.last(), n)))
            }
        } else {
            Err((FaultKind::MisplacedQuantifier, pos))
        }
    } else if (c as u32) < 128 {
        Ok(f.push(unit_column(c, n + 1)))
    } else {
        Err((FaultKind::UnsupportedSymbol, pos))
    }
}

/// The automaton compiled from pattern `p`, or the first fault in it.
pub open spec fn compile_model(p: Seq<char>) -> Result<FsmModel, FaultModel>
    decreases p.len(),
{
    if p.len() == 0 {
        Ok(seq![crate::fsm::blank_column()])
    } else {
        match compile_model(p.drop_last()) {
            Ok(f) => compile_token(f, p.last(), (p.len() - 1) as nat),
            Err(e) => Err(e),
        }
    }
}

/// A table the matcher can run: at least the placeholder column, every column
/// of full width, and every move that keeps its symbol going strictly forward.
pub open spec fn wf_model(f: FsmModel) -> bool {
    &&& f.len() >= 1
    &&& forall|k: int| 0 <= k < f.len() ==> (#[trigger] f[k]).len() == FSM_COLUMN_SIZE
    &&& forall|k: int, i: int|
        0 <= k < f.len() && 0 <= i < FSM_COLUMN_SIZE && !(#[trigger] f[k][i]).1 ==> f[k][i].0 > k
}

/// One token keeps a table runnable.
pub proof fn lemma_token_keeps_wf(f: FsmModel, c: char, pos: nat)
    requires
        wf_model(f),
        compile_token(f, c, pos) is Ok,
    ensures
        wf_model(compile_token(f, c, pos)->Ok_0),
{
    let g = compile_token(f, c, pos)->Ok_0;
    let n = f.len();
    assert forall|k: int| 0 <= k < g.len() implies (#[trigger] g[k]).len() == FSM_COLUMN_SIZE by {
        if k < n - 1 {
            assert(g[k] == f[k]);
        }
    }
    assert forall|k: int, i: int|
        0 <= k < g.len() && 0 <= i < FSM_COLUMN_SIZE && !(#[trigger] g[k][i]).1 implies g[k][i].0 > k by {
        if k < n - 1 {
            assert(g[k] == f[k]);
        } else if k == n - 1 {
            if c == '*' {
                let a: Act = f.last()[i];
                assert(unit_shaped(f.last(), n));
                assert(a == (n, true) || a == (0nat, true));
            } else {
                assert(g[k] == f[k]);
            }
        } else if c == '+' {
            let a: Act = f.last()[i];
            assert(unit_shaped(f.last(), n));
            assert(a == (n, true) || a == (0nat, true));
        }
    }
}

/// Every table that compiles is runnable.
pub proof fn lemma_compile_wf(p: Seq<char>)
    requires
        compile_model(p) is Ok,
    ensures
        wf_model(compile_model(p)->Ok_0),
    decreases p.len(),
{
    if p.len() == 0 {
        assert(wf_model(seq![crate::fsm::blank_column()]));
    } else {
        lemma_compile_wf(p.drop_last());
        lemma_token_keeps_wf(
            compile_model(p.drop_last())->Ok_0,
            p.last(),
            (p.len() - 1) as nat,
        );
    }
}

/// A fault in a prefix is the fault of the whole pattern.
pub proof fn lemma_fault_persists(p: Seq<char>, i: nat)
    requires
        i <= p.len(),
        compile_model(p.take(i as int)) is Err,
    ensures
        compile_model(p) == compile_model(p.take(i as int)),
    decreases p.len() - i,
{
    if i < p.len() {
        let q = p.take(i as int + 1);
        assert(q.drop_last() =~= p.take(i as int));
        lemma_fault_persists(p, i + 1);
    } else {
        assert(p.take(i as int) =~= p);
    }
}

} // verus!
