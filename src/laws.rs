//! What the engine guarantees about patterns, stated over the models of
//! compiling and matching.
use vstd::prelude::*;

use crate::compiler::{compile_model, is_unit_token, FaultModel};
use crate::fsm::{
    anchor_column, blank_column, fail_act, loop_column, lookup, plus_column, star_column,
    unit_accepts, unit_column, ColModel, FsmModel, FSM_COLUMN_SIZE, FSM_ENDLINE,
};
use crate::matcher::{accepts, run, settle};
use crate::regex::{dump_model, Regex};

verus! {

/// Every token of `q` is a literal or `.`.
pub open spec fn all_units(q: Seq<char>) -> bool {
    forall|i: int| 0 <= i < q.len() ==> is_unit_token(#[trigger] q[i])
}

/// The tokens of `q` accept the first `q.len()` characters of `s`, one each.
pub open spec fn prefix_match(q: Seq<char>, s: Seq<char>) -> bool {
    &&& q.len() <= s.len()
    &&& forall|i: int| 0 <= i < q.len() ==> unit_accepts(#[trigger] q[i], s[i])
}

/// The tokens of `q` accept `s` exactly, one character each.
pub open spec fn full_match(q: Seq<char>, s: Seq<char>) -> bool {
    q.len() == s.len() && prefix_match(q, s)
}

/// Prefix matching, or full matching when the pattern ends in `$`.
pub open spec fn plain_match(q: Seq<char>, s: Seq<char>, anchored: bool) -> bool {
    if anchored {
        full_match(q, s)
    } else {
        prefix_match(q, s)
    }
}

/// `$` when `anchored`, nothing otherwise.
pub open spec fn anchor_suffix(anchored: bool) -> Seq<char> {
    if anchored {
        seq!['$']
    } else {
        Seq::empty()
    }
}

/// How many leading characters of `s` the token `u` accepts in a row.
pub open spec fn lead_run(u: char, s: Seq<char>) -> nat
    decreases s.len(),
{
    if s.len() > 0 && unit_accepts(u, s[0]) {
        1 + lead_run(u, s.drop_first())
    } else {
        0
    }
}

/// What is left of `s` once `u` has taken its run, starts at the end of the
/// input or at a character the tables have an entry for (codes 0–127).
pub open spec fn stops_in_table(t: Seq<char>) -> bool {
    t.len() == 0 || (t[0] as u32) < 128
}

proof fn lemma_lead_run_bound(u: char, s: Seq<char>)
    ensures
        lead_run(u, s) <= s.len(),
    decreases s.len(),
{
    if s.len() > 0 && unit_accepts(u, s[0]) {
        lemma_lead_run_bound(u, s.drop_first());
    }
}

/// The columns of the tokens `q` placed from state `b` on.
pub open spec fn unit_columns(q: Seq<char>, b: nat) -> FsmModel {
    Seq::new(q.len(), |i: int| unit_column(q[i], (b + i + 1) as nat))
}

proof fn lemma_lookup_unit(u: char, t: nat, x: char)
    requires
        is_unit_token(u),
    ensures
        lookup(unit_column(u, t), x) == (if unit_accepts(u, x) { (t, true) } else { fail_act() }),
{
}

proof fn lemma_prefix_step(q: Seq<char>, s: Seq<char>, j: nat, c: nat)
    requires
        j < q.len(),
        c < s.len(),
    ensures
        prefix_match(q.skip(j as int), s.skip(c as int)) == (unit_accepts(q[j as int], s[c as int])
            && prefix_match(q.skip((j + 1) as int), s.skip((c + 1) as int))),
{
    let a = q.skip(j as int);
    let b = s.skip(c as int);
    if prefix_match(a, b) {
        assert(unit_accepts(a[0], b[0]));
        assert forall|i: int| 0 <= i < q.skip((j + 1) as int).len() implies unit_accepts(
            #[trigger] q.skip((j + 1) as int)[i],
            s.skip((c + 1) as int)[i],
        ) by {
            assert(unit_accepts(a[i + 1], b[i + 1]));
        }
    }
    if unit_accepts(q[j as int], s[c as int]) && prefix_match(q.skip((j + 1) as int), s.skip((c + 1) as int)) {
        assert forall|i: int| 0 <= i < a.len() implies unit_accepts(#[trigger] a[i], b[i]) by {
            if i > 0 {
                assert(unit_accepts(q.skip((j + 1) as int)[i - 1], s.skip((c + 1) as int)[i - 1]));
            }
        }
    }
}

/// Appending literals and `.` appends their columns, each leading to the next state.
proof fn lemma_compile_units(pre: Seq<char>, q: Seq<char>)
    requires
        compile_model(pre) is Ok,
        all_units(q),
    ensures
        compile_model(pre + q) == Ok::<FsmModel, FaultModel>(
            compile_model(pre)->Ok_0 + unit_columns(q, compile_model(pre)->Ok_0.len()),
        ),
    decreases q.len(),
{
    let f0 = compile_model(pre)->Ok_0;
    let b = f0.len();
    if q.len() == 0 {
        assert(pre + q =~= pre);
        assert(f0 + unit_columns(q, b) =~= f0);
    } else {
        let q1 = q.drop_last();
        assert forall|i: int| 0 <= i < q1.len() implies is_unit_token(#[trigger] q1[i]) by {
            assert(is_unit_token(q[i]));
        }
        lemma_compile_units(pre, q1);
        assert((pre + q).drop_last() =~= pre + q1);
        assert((pre + q).last() == q.last());
        assert(is_unit_token(q[q.len() - 1]));
        let f1 = f0 + unit_columns(q1, b);
        assert(f1.push(unit_column(q.last(), f1.len() + 1)) =~= f0 + unit_columns(q, b));
    }
}

/// Appending `$` appends the column that accepts only at the end of the input.
proof fn lemma_compile_anchor(p: Seq<char>)
    requires
        compile_model(p) is Ok,
    ensures
        compile_model(p.push('$')) == Ok::<FsmModel, FaultModel>(
            compile_model(p)->Ok_0.push(anchor_column(compile_model(p)->Ok_0.len() + 1)),
        ),
{
    assert(p.push('$').drop_last() =~= p);
}

/// The columns of `q` (and of a final `$` when `anchored`) from state `b` on
/// are the last ones of `f`.
pub open spec fn has_plain_tail(f: FsmModel, q: Seq<char>, anchored: bool, b: nat) -> bool {
    &&& b >= 1
    &&& all_units(q)
    &&& f.len() == b + q.len() + (if anchored { 1nat } else { 0nat })
    &&& forall|i: int| 0 <= i < q.len() ==> f[b + i] == #[trigger] unit_column(q[i], (b + i + 1) as nat)
    &&& anchored ==> f[(b + q.len()) as int] == anchor_column(f.len())
}

/// Running a plain tail of literals and `.` is plain matching.
proof fn lemma_run_tail(f: FsmModel, q: Seq<char>, anchored: bool, b: nat, s: Seq<char>, j: nat, c: nat)
    requires
        has_plain_tail(f, q, anchored, b),
        j <= q.len(),
        c <= s.len(),
    ensures
        settle(f, run(f, s, b + j, c)) == plain_match(q.skip(j as int), s.skip(c as int), anchored),
    decreases q.len() - j,
{
    let st = b + j;
    if j == q.len() {
        assert(q.skip(j as int).len() == 0);
        if anchored {
            let col = f[st as int];
            assert(col == anchor_column(f.len()));
            if c < s.len() {
                let x = s[c as int];
                assert(lookup(col, x) == fail_act());
                assert(run(f, s, st, c) == run(f, s, 0, c + 1));
            }
        }
    } else {
        let u = q[j as int];
        assert(is_unit_token(u));
        assert(f[st as int] == unit_column(u, st + 1));
        if c < s.len() {
            let x = s[c as int];
            lemma_lookup_unit(u, st + 1, x);
            lemma_prefix_step(q, s, j, c);
            if unit_accepts(u, x) {
                lemma_run_tail(f, q, anchored, b, s, j + 1, c + 1);
            } else {
                assert(run(f, s, st, c) == run(f, s, 0, c + 1));
            }
        } else {
            assert(f[st as int][FSM_ENDLINE as int] == fail_act());
        }
    }
}

/// Running a quantifier's loop column at state `k`: stay while `u` accepts,
/// then go on with the plain tail after it.
proof fn lemma_run_loop(
    f: FsmModel,
    u: char,
    k: nat,
    q: Seq<char>,
    anchored: bool,
    s: Seq<char>,
    c: nat,
)
    requires
        k >= 1,
        is_unit_token(u),
        has_plain_tail(f, q, anchored, k + 1),
        f[k as int] == loop_column(u, k),
        anchored ==> q.len() > 0,
        c <= s.len(),
    ensures
        ({
            let t = s.skip(c as int).skip(lead_run(u, s.skip(c as int)) as int);
            settle(f, run(f, s, k, c)) == (stops_in_table(t) && plain_match(q, t, anchored))
        }),
    decreases s.len() - c,
{
    let rest = s.skip(c as int);
    lemma_lead_run_bound(u, rest);
    if c < s.len() {
        let x = s[c as int];
        assert(rest[0] == x);
        if unit_accepts(u, x) {
            assert(lookup(f[k as int], x) == (k, true));
            lemma_run_loop(f, u, k, q, anchored, s, c + 1);
            assert(rest.drop_first() =~= s.skip((c + 1) as int));
            let n = lead_run(u, s.skip((c + 1) as int));
            lemma_lead_run_bound(u, s.skip((c + 1) as int));
            assert(rest.skip((n + 1) as int) =~= s.skip((c + 1) as int).skip(n as int));
        } else {
            assert(rest.skip(0) =~= rest);
            if (x as u32) < 128 {
                assert(lookup(f[k as int], x) == (k + 1, false));
                lemma_run_tail(f, q, anchored, k + 1, s, 0, c);
                assert(q.skip(0) =~= q);
            } else {
                assert(run(f, s, k, c) == run(f, s, 0, c + 1));
            }
        }
    } else {
        assert(rest.len() == 0);
        assert(rest.skip(0) =~= rest);
        assert(f[k as int][FSM_ENDLINE as int] == (k + 1, false));
    }
}

/// Prefix matching: a pattern of literals and `.` alone matches exactly the
/// inputs that begin with characters it accepts one by one.
pub proof fn lemma_prefix_semantics(q: Seq<char>, s: Seq<char>)
    requires
        all_units(q),
    ensures
        compile_model(q) is Ok,
        accepts(compile_model(q)->Ok_0, s) == prefix_match(q, s),
{
    let e = Seq::<char>::empty();
    lemma_compile_units(e, q);
    assert(e + q =~= q);
    let f = compile_model(q)->Ok_0;
    lemma_run_tail(f, q, false, 1, s, 0, 0);
    assert(q.skip(0) =~= q);
    assert(s.skip(0) =~= s);
}

/// Full matching: literals and `.` followed by `$` match exactly the inputs
/// they accept character by character with nothing left over.
pub proof fn lemma_full_match_semantics(q: Seq<char>, s: Seq<char>)
    requires
        all_units(q),
    ensures
        compile_model(q.push('$')) is Ok,
        accepts(compile_model(q.push('$'))->Ok_0, s) == full_match(q, s),
{
    let e = Seq::<char>::empty();
    lemma_compile_units(e, q);
    assert(e + q =~= q);
    lemma_compile_anchor(q);
    let f = compile_model(q.push('$'))->Ok_0;
    lemma_run_tail(f, q, true, 1, s, 0, 0);
    assert(q.skip(0) =~= q);
    assert(s.skip(0) =~= s);
}

/// The wildcard accepts exactly the symbols 33–126: no other character and
/// not the end of the input.
pub proof fn lemma_wildcard_range(s: Seq<char>)
    ensures
        compile_model(seq!['.']) is Ok,
        accepts(compile_model(seq!['.'])->Ok_0, s) == (s.len() > 0 && 33 <= s[0] as u32 <= 126),
        forall|x: int|
            0 <= x < FSM_COLUMN_SIZE ==> #[trigger] compile_model(seq!['.'])->Ok_0[1][x] == (if 33
                <= x <= 126 { (2nat, true) } else { fail_act() }),
{
    let q = seq!['.'];
    assert(all_units(q));
    lemma_prefix_semantics(q, s);
    let e = Seq::<char>::empty();
    lemma_compile_units(e, q);
    assert(e + q =~= q);
    if s.len() > 0 {
        assert(prefix_match(q, s) == unit_accepts('.', s[0]));
    }
}

/// The pattern of token `u`, quantifier `quant`, tokens `q` and `$` when `anchored`.
pub open spec fn quantified(u: char, quant: char, q: Seq<char>, anchored: bool) -> Seq<char> {
    seq![u, quant] + q + anchor_suffix(anchored)
}

proof fn lemma_compile_quantified(u: char, quant: char, q: Seq<char>, anchored: bool)
    requires
        is_unit_token(u),
        quant == '*' || quant == '+',
        all_units(q),
    ensures
        compile_model(quantified(u, quant, q, anchored)) is Ok,
        ({
            let f = compile_model(quantified(u, quant, q, anchored))->Ok_0;
            let k: nat = if quant == '*' { 1 } else { 2 };
            &&& f[k as int] == loop_column(u, k)
            &&& k == 2 ==> f[1] == unit_column(u, 2)
            &&& has_plain_tail(f, q, anchored, k + 1)
        }),
{
    let p1 = seq![u];
    let p2 = seq![u, quant];
    assert(p1.drop_last() =~= Seq::<char>::empty());
    let f1 = seq![blank_column(), unit_column(u, 2)];
    assert(seq![blank_column()].push(unit_column(u, 2)) =~= f1);
    assert(compile_model(p1.drop_last()) == Ok::<FsmModel, FaultModel>(seq![blank_column()]));
    assert(p1.last() == u);
    assert(compile_model(p1) == Ok::<FsmModel, FaultModel>(f1));
    assert(p2.drop_last() =~= p1);
    let col = unit_column(u, 2);
    assert(col[u as u32 as int].0 == 2 || col[33].0 == 2);
    assert(crate::fsm::unit_shaped(col, 2));
    let f2 = if quant == '*' {
        f1.update(1, star_column(col, 2))
    } else {
        f1.push(plus_column(col, 2))
    };
    assert(compile_model(p2) == Ok::<FsmModel, FaultModel>(f2));
    let k: nat = if quant == '*' { 1 } else { 2 };
    if quant == '*' {
        assert(star_column(col, 2) =~= loop_column(u, 1));
    } else {
        assert(plus_column(col, 2) =~= loop_column(u, 2));
    }
    lemma_compile_units(p2, q);
    let f3 = f2 + unit_columns(q, f2.len());
    let p3 = p2 + q;
    let f = if anchored {
        lemma_compile_anchor(p3);
        assert(p3 + anchor_suffix(anchored) =~= p3.push('$'));
        f3.push(anchor_column(f3.len() + 1))
    } else {
        assert(p3 + anchor_suffix(anchored) =~= p3);
        f3
    };
    assert(quantified(u, quant, q, anchored) == p3 + anchor_suffix(anchored));
    assert(compile_model(quantified(u, quant, q, anchored)) == Ok::<FsmModel, FaultModel>(f));
    assert(f[k as int] == f2[k as int]);
    assert forall|i: int| 0 <= i < q.len() implies f[k + 1 + i] == #[trigger] unit_column(
        q[i],
        (k + 1 + i + 1) as nat,
    ) by {
        assert(f[k + 1 + i] == unit_columns(q, f2.len())[i]);
    }
}

/// `*` is greedy and never backtracks: `u*` takes the longest run of
/// characters that `u` accepts, and the rest of the pattern must match what
/// follows that run. So `a*a` matches no input at all.
pub proof fn lemma_star_greedy(u: char, q: Seq<char>, anchored: bool, s: Seq<char>)
    requires
        is_unit_token(u),
        all_units(q),
        anchored ==> q.len() > 0,
    ensures
        compile_model(quantified(u, '*', q, anchored)) is Ok,
        ({
            let t = s.skip(lead_run(u, s) as int);
            accepts(compile_model(quantified(u, '*', q, anchored))->Ok_0, s) == (stops_in_table(t)
                && plain_match(q, t, anchored))
        }),
{
    lemma_compile_quantified(u, '*', q, anchored);
    let f = compile_model(quantified(u, '*', q, anchored))->Ok_0;
    lemma_run_loop(f, u, 1, q, anchored, s, 0);
    assert(s.skip(0) =~= s);
}

/// `+` is greedy and never backtracks: `u+` needs one character that `u`
/// accepts, takes the longest such run, and the rest of the pattern must
/// match what follows that run.
pub proof fn lemma_plus_greedy(u: char, q: Seq<char>, anchored: bool, s: Seq<char>)
    requires
        is_unit_token(u),
        all_units(q),
        anchored ==> q.len() > 0,
    ensures
        compile_model(quantified(u, '+', q, anchored)) is Ok,
        ({
            let t = s.skip(lead_run(u, s) as int);
            accepts(compile_model(quantified(u, '+', q, anchored))->Ok_0, s) == (s.len() > 0
                && unit_accepts(u, s[0]) && stops_in_table(t) && plain_match(q, t, anchored))
        }),
{
    lemma_compile_quantified(u, '+', q, anchored);
    let f = compile_model(quantified(u, '+', q, anchored))->Ok_0;
    if s.len() > 0 {
        lemma_lookup_unit(u, 2, s[0]);
        if unit_accepts(u, s[0]) {
            lemma_run_loop(f, u, 2, q, anchored, s, 1);
            assert(s.skip(1) =~= s.drop_first());
            let n = lead_run(u, s.drop_first());
            lemma_lead_run_bound(u, s.drop_first());
            assert(s.skip((n + 1) as int) =~= s.skip(1).skip(n as int));
        } else {
            assert(run(f, s, 1, 0) == run(f, s, 0, 1));
        }
    } else {
        assert(f[1][FSM_ENDLINE as int] == fail_act());
    }
}

/// Compiling is deterministic: two tables compiled from one pattern are the
/// same, and so are their dumps.
pub proof fn lemma_compile_deterministic(p: Seq<char>, a: Regex, b: Regex)
    requires
        compile_model(p) == Ok::<FsmModel, FaultModel>(a@),
        compile_model(p) == Ok::<FsmModel, FaultModel>(b@),
    ensures
        a@ == b@,
        dump_model(a@) == dump_model(b@),
{
}

} // verus!
