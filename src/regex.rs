//! The compiled pattern: compiling, matching and dumping the table.
use vstd::prelude::*;

use crate::compiler::{
    compile_model, compile_token, lemma_fault_persists, lemma_token_keeps_wf,
    wf_model, CompileFault, FaultKind, FaultModel,
};
use crate::fsm::{FsmAction, FsmColumn, FsmModel, FSM_COLUMN_SIZE, FSM_ENDLINE};
use crate::matcher::{accepts, run};

verus! {

/// The characters of `s`, in order.
fn chars_of(s: &str) -> (r: Vec<char>)
    ensures
        r@ == s@,
{
    let mut v: Vec<char> = Vec::new();
    for c in it: s.chars()
        invariant
            it.seq() == s@,
            v@ == s@.take(it.index() as int),
    {
        v.push(c);
    }
    assert(v@ =~= s@);
    v
}

/// The model of a sequence of columns.
pub open spec fn model_of(cols: Seq<FsmColumn>) -> FsmModel {
    cols.map_values(|c: FsmColumn| c@)
}

/// The table read by symbol: row `sym` lists the action of every column on `sym`.
pub open spec fn dump_model(f: FsmModel) -> Seq<Seq<(nat, bool)>> {
    Seq::new(FSM_COLUMN_SIZE as nat, |sym: int| Seq::new(f.len(), |k: int| f[k][sym]))
}

/// A compiled pattern: one column per state, state 1 initial, state 0 failure,
/// any state past the last column acceptance.
#[derive(Debug)]
pub struct Regex {
    cols: Vec<FsmColumn>,
}

impl View for Regex {
    type V = FsmModel;

    closed spec fn view(&self) -> FsmModel {
        model_of(self.cols@)
    }
}

impl Regex {
    /// The invariant of every compiled table.
    pub open spec fn wf(&self) -> bool {
        wf_model(self@)
    }

    /// Compiles `src` left to right into a table, or reports the first token
    /// that cannot be compiled.
    pub fn compile(src: &str) -> (r: Result<Regex, CompileFault>)
        requires
            src@.len() < usize::MAX,
        ensures
            r is Ok ==> compile_model(src@) == Ok::<FsmModel, FaultModel>(r->Ok_0@) && r->Ok_0.wf(),
            r is Err ==> compile_model(src@) == Err::<FsmModel, FaultModel>(
                (r->Err_0.kind, r->Err_0.pos as nat),
            ),
    {
        let chars = chars_of(src);
        let mut cols: Vec<FsmColumn> = Vec::new();
        cols.push(FsmColumn::new());
        proof {
            assert(src@.take(0) =~= Seq::<char>::empty());
            assert(model_of(cols@) =~= seq![crate::fsm::blank_column()]);
        }
        let mut i: usize = 0;
        while i < chars.len()
            invariant
                chars@ == src@,
                src@.len() < usize::MAX,
                i <= chars@.len(),
                1 <= cols@.len() <= i + 1,
                compile_model(src@.take(i as int)) == Ok::<FsmModel, FaultModel>(model_of(cols@)),
                wf_model(model_of(cols@)),
            decreases chars@.len() - i,
        {
            let c = chars[i];
            let n = cols.len();
            let ghost f = model_of(cols@);
            proof {
                assert(src@.take(i + 1).drop_last() =~= src@.take(i as int));
                assert(src@.take(i + 1).last() == c);
                assert(f.last() == cols@[n - 1]@);
            }
            if c == '$' {
                cols.push(FsmColumn::anchor_of(n + 1));
            } else if c == '+' || c == '*' {
                if !cols[n - 1].is_unit_shaped(n) {
                    proof {
                        lemma_fault_persists(src@, (i + 1) as nat);
                    }
                    return Err(CompileFault { kind: FaultKind::MisplacedQuantifier, pos: i });
                }
                if c == '+' {
                    let col = cols[n - 1].plus_of(n);
                    cols.push(col);
                } else {
                    let col = cols[n - 1].star_of(n);
                    cols.set(n - 1, col);
                }
            } else if (c as u32) < 128 {
                cols.push(FsmColumn::unit_of(c, n + 1));
            } else {
                proof {
                    lemma_fault_persists(src@, (i + 1) as nat);
                }
                return Err(CompileFault { kind: FaultKind::UnsupportedSymbol, pos: i });
            }
            proof {
                assert(model_of(cols@) =~= compile_token(f, c, i as nat)->Ok_0);
                lemma_token_keeps_wf(f, c, i as nat);
            }
            i = i + 1;
        }
        proof {
            assert(src@.take(i as int) =~= src@);
        }
        Ok(Regex { cols })
    }

    /// Whether the pattern matches `input`: a single forward walk, with one
    /// look at the end-of-input symbol once the input is used up.
    pub fn match_str(&self, input: &str) -> (r: bool)
        requires
            self.wf(),
        ensures
            r == accepts(self@, input@),
    {
        let chars = chars_of(input);
        let ghost f = self@;
        let ghost s = chars@;
        let mut state: usize = 1;
        let mut head: usize = 0;
        while 0 < state && state < self.cols.len() && head < chars.len()
            invariant
                f == self@,
                s == chars@,
                wf_model(f),
                head <= s.len(),
                run(f, s, state as nat, head as nat) == run(f, s, 1, 0),
            decreases s.len() - head, (if state < f.len() { f.len() - state } else { 0 }),
        {
            assert(f[state as int] == self.cols@[state as int]@);
            let a = self.cols[state].lookup(chars[head]);
            proof {
                let x = s[head as int];
                if (x as u32) < 128 {
                    assert(f[state as int][x as u32 as int] == a@);
                }
            }
            state = a.next;
            if a.step == crate::fsm::Move::Consume {
                head = head + 1;
            }
        }
        if state == 0 {
            return false;
        }
        if state < self.cols.len() {
            assert(f[state as int] == self.cols@[state as int]@);
            let a = self.cols[state].action(FSM_ENDLINE);
            state = a.next;
        }
        state >= self.cols.len()
    }

    /// The whole table, row by symbol: `r[sym][k]` is the action of column
    /// `k` on symbol `sym`.
    pub fn dump(&self) -> (r: Vec<Vec<FsmAction>>)
        requires
            self.wf(),
        ensures
            r@.len() == FSM_COLUMN_SIZE,
            forall|sym: int| 0 <= sym < FSM_COLUMN_SIZE ==> (#[trigger] r@[sym])@.len() == self@.len(),
            forall|sym: int, k: int|
                0 <= sym < FSM_COLUMN_SIZE && 0 <= k < self@.len() ==> (#[trigger] r@[sym]@[k])@
                    == dump_model(self@)[sym][k],
    {
        let ghost f = self@;
        let mut rows: Vec<Vec<FsmAction>> = Vec::new();
        let mut sym: usize = 0;
        while sym < FSM_COLUMN_SIZE
            invariant
                f == self@,
                wf_model(f),
                sym <= FSM_COLUMN_SIZE,
                rows@.len() == sym,
                forall|t: int| 0 <= t < sym ==> (#[trigger] rows@[t])@.len() == f.len(),
                forall|t: int, k: int|
                    0 <= t < sym && 0 <= k < f.len() ==> (#[trigger] rows@[t]@[k])@ == f[k][t],
            decreases FSM_COLUMN_SIZE - sym,
        {
            let mut row: Vec<FsmAction> = Vec::new();
            let mut k: usize = 0;
            while k < self.cols.len()
                invariant
                    f == self@,
                    wf_model(f),
                    sym < FSM_COLUMN_SIZE,
                    k <= f.len(),
                    row@.len() == k,
                    forall|j: int| 0 <= j < k ==> (#[trigger] row@[j])@ == f[j][sym as int],
                decreases f.len() - k,
            {
                assert(f[k as int] == self.cols@[k as int]@);
                row.push(self.cols[k].action(sym));
                k = k + 1;
            }
            rows.push(row);
            sym = sym + 1;
        }
        rows
    }
}

} // verus!
