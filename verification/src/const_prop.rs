//! The constant-propagation pass: a forward, meet-over-all-paths
//! fixed-point solver over the control-flow graph, and the rewrite pass
//! that folds provably constant operands and resolves provably constant
//! conditional jumps.
//!
//! The solver keeps one entry vector and one exit vector per block. Each
//! round first propagates every block's exit facts into its successors'
//! entry vectors by the elementwise meet, then recomputes every exit
//! vector by running the block's instructions through the transfer
//! function. Entry vectors only ever take meets, so they move only
//! downward in the lattice; the sum of their ranks is the measure that
//! bounds the iteration count.

use vstd::prelude::*;

use crate::lattice::{
    env_le, env_rank, flow_le, flow_rank, lat_le, lemma_env_le_reflexive, lemma_env_le_transitive,
    lemma_flow_le_rank, lemma_flow_le_reflexive, lemma_flow_le_transitive, lemma_meet_lower, meet,
    spec_meet, Value,
};
use crate::tac::{
    spec_succs, wf_block, wf_func, wf_insn, wf_next, wf_operand, NextKind, Operand, TacKind, BB,
    FuncBB,
};
use crate::transfer::{
    lemma_transfer_seq_len, opnd_value, spec_transfer, spec_transfer_seq, transfer, transfer_seq,
};

verus! {

/// The per-block table of state vectors, as a mathematical value.
pub open spec fn flow_view(v: Vec<Vec<Value>>) -> Seq<Seq<Value>> {
    v@.map_values(|row: Vec<Value>| row@)
}

/// A table holds one row per block and `each` slots per row.
pub open spec fn wf_flow(fl: Seq<Seq<Value>>, n: nat, each: nat) -> bool {
    &&& fl.len() == n
    &&& forall|i: int| 0 <= i < fl.len() ==> (#[trigger] fl[i]).len() == each
}

/// The table the solver starts from: every slot of every block `Unk`.
pub open spec fn init_flow(n: nat, each: nat) -> Seq<Seq<Value>> {
    Seq::new(n, |i: int| Seq::new(each, |j: int| Value::Unk))
}

/// Elementwise meet of two state vectors.
pub open spec fn spec_meet_env(a: Seq<Value>, b: Seq<Value>) -> Seq<Value> {
    Seq::new(a.len(), |i: int| spec_meet(a[i], b[i]))
}

/// Folds one block's exit vector into the entry vectors of the successors
/// listed in `ss`, one edge at a time.
pub open spec fn spec_prop_edges(
    fl: Seq<Seq<Value>>,
    src_row: Seq<Value>,
    ss: Seq<int>,
) -> Seq<Seq<Value>>
    decreases ss.len(),
{
    if ss.len() == 0 {
        fl
    } else {
        spec_prop_edges(
            fl.update(ss[0], spec_meet_env(fl[ss[0]], src_row)),
            src_row,
            ss.drop_first(),
        )
    }
}

/// Propagates the exit vectors of blocks `0..i` along their successor
/// edges, in block order.
pub open spec fn spec_prop_upto(
    blocks: Seq<BB>,
    outs: Seq<Seq<Value>>,
    fl: Seq<Seq<Value>>,
    i: nat,
) -> Seq<Seq<Value>>
    decreases i,
{
    if i == 0 {
        fl
    } else {
        spec_prop_edges(
            spec_prop_upto(blocks, outs, fl, (i - 1) as nat),
            outs[i - 1],
            spec_succs(blocks[i - 1].next),
        )
    }
}

/// The propagate phase of one round: every edge's meet, in block order.
pub open spec fn spec_propagate(
    blocks: Seq<BB>,
    outs: Seq<Seq<Value>>,
    fl: Seq<Seq<Value>>,
) -> Seq<Seq<Value>> {
    spec_prop_upto(blocks, outs, fl, blocks.len())
}

/// The exit vectors: every block's instructions run through the transfer
/// function from its entry vector.
pub open spec fn spec_outs(blocks: Seq<BB>, ins: Seq<Seq<Value>>) -> Seq<Seq<Value>> {
    Seq::new(ins.len(), |i: int| spec_transfer_seq(blocks[i].insns@, ins[i]))
}

/// One full round of the solver on the entry table.
pub open spec fn spec_step_in(blocks: Seq<BB>, ins: Seq<Seq<Value>>) -> Seq<Seq<Value>> {
    spec_propagate(blocks, spec_outs(blocks, ins), ins)
}

/// The entry table after `k` rounds, starting from all-`Unk`.
pub open spec fn spec_iter_in(blocks: Seq<BB>, each: nat, k: nat) -> Seq<Seq<Value>>
    decreases k,
{
    if k == 0 {
        init_flow(blocks.len(), each)
    } else {
        spec_step_in(blocks, spec_iter_in(blocks, each, (k - 1) as nat))
    }
}

/// What the solver returns: an entry table that the iteration from
/// all-`Unk` actually reaches, and that one more round leaves unchanged.
pub open spec fn is_solution(blocks: Seq<BB>, each: nat, ins: Seq<Seq<Value>>) -> bool {
    &&& exists|k: nat| ins == spec_iter_in(blocks, each, k)
    &&& spec_step_in(blocks, ins) == ins
}

/// Rank of an all-`Unk` state vector.
proof fn lemma_init_env_rank(row: Seq<Value>)
    requires
        forall|j: int| 0 <= j < row.len() ==> row[j] == Value::Unk,
    ensures
        env_rank(row) == 2 * row.len(),
    decreases row.len(),
{
    if row.len() > 0 {
        assert forall|j: int| 0 <= j < row.drop_first().len() implies row.drop_first()[j]
            == Value::Unk by {
            assert(row.drop_first()[j] == row[j + 1]);
        }
        lemma_init_env_rank(row.drop_first());
    }
}

/// Law: the table the solver starts from has rank `2 * n * each`, and
/// every round that changes anything strictly lowers the rank
/// (`lemma_iterates_monotone` with `lemma_flow_le_rank`), so the solver
/// reaches its fixed point within that many rounds.
pub proof fn lemma_iteration_bound(n: nat, each: nat)
    ensures
        flow_rank(init_flow(n, each)) == 2 * n * each,
    decreases n,
{
    if n == 0 {
        assert(init_flow(0, each) =~= Seq::<Seq<Value>>::empty());
        assert(2 * n * each == 0) by (nonlinear_arith)
            requires n == 0,
        ;
    } else {
        let fl = init_flow(n, each);
        assert(fl[0].len() == each);
        lemma_init_env_rank(fl[0]);
        assert(fl.drop_first() =~~= init_flow((n - 1) as nat, each));
        lemma_iteration_bound((n - 1) as nat, each);
        assert(flow_rank(fl) == env_rank(fl[0]) + flow_rank(fl.drop_first()));
        assert(flow_rank(fl.drop_first()) == 2 * (n - 1) * each);
        assert(2 * each + 2 * (n - 1) * each == 2 * n * each) by (nonlinear_arith);
    }
}

/// Once a round leaves the entry table unchanged, every later round
/// leaves it unchanged too.
proof fn lemma_iter_stable(blocks: Seq<BB>, each: nat, k0: nat, k: nat)
    requires
        k0 <= k,
        spec_step_in(blocks, spec_iter_in(blocks, each, k0)) == spec_iter_in(blocks, each, k0),
    ensures
        spec_iter_in(blocks, each, k) == spec_iter_in(blocks, each, k0),
    decreases k,
{
    if k > k0 {
        lemma_iter_stable(blocks, each, k0, (k - 1) as nat);
    }
}

/// Law: the solver's answer is unique. Any two tables that satisfy
/// `is_solution` are equal, so the pass's contract pins one result even
/// though it only says that some solution was used.
pub proof fn lemma_solution_unique(
    blocks: Seq<BB>,
    each: nat,
    a: Seq<Seq<Value>>,
    b: Seq<Seq<Value>>,
)
    requires
        is_solution(blocks, each, a),
        is_solution(blocks, each, b),
    ensures
        a == b,
{
    let ka = choose|k: nat| a == spec_iter_in(blocks, each, k);
    let kb = choose|k: nat| b == spec_iter_in(blocks, each, k);
    if ka <= kb {
        lemma_iter_stable(blocks, each, ka, kb);
    } else {
        lemma_iter_stable(blocks, each, kb, ka);
    }
}

/// Copies a state vector.
fn copy_env(src: &Vec<Value>) -> (r: Vec<Value>)
    ensures
        r@ == src@,
{
    let mut r: Vec<Value> = Vec::new();
    let mut i: usize = 0;
    while i < src.len()
        invariant
            0 <= i <= src@.len(),
            r@ == src@.take(i as int),
        decreases src@.len() - i,
    {
        r.push(src[i]);
        proof {
            assert(src@.take(i as int).push(src@[i as int]) =~= src@.take(i + 1));
        }
        i = i + 1;
    }
    proof {
        assert(src@.take(src@.len() as int) =~= src@);
    }
    r
}

/// Copies the whole table.
fn copy_flow(src: &Vec<Vec<Value>>) -> (r: Vec<Vec<Value>>)
    ensures
        flow_view(r) == flow_view(*src),
{
    let mut r: Vec<Vec<Value>> = Vec::new();
    let mut i: usize = 0;
    while i < src.len()
        invariant
            0 <= i <= src@.len(),
            r@.len() == i,
            forall|j: int| 0 <= j < i ==> (#[trigger] r@[j])@ == src@[j]@,
        decreases src@.len() - i,
    {
        let row = copy_env(&src[i]);
        r.push(row);
        i = i + 1;
    }
    proof {
        assert(flow_view(r) =~= flow_view(*src));
    }
    r
}

/// Compares two state vectors for equality of their contents.
fn envs_eq(a: &Vec<Value>, b: &Vec<Value>) -> (r: bool)
    ensures
        r <==> a@ == b@,
{
    if a.len() != b.len() {
        return false;
    }
    let mut i: usize = 0;
    while i < a.len()
        invariant
            0 <= i <= a@.len(),
            a@.len() == b@.len(),
            forall|j: int| 0 <= j < i ==> a@[j] == b@[j],
        decreases a@.len() - i,
    {
        if a[i] != b[i] {
            return false;
        }
        i = i + 1;
    }
    proof {
        assert(a@ =~= b@);
    }
    true
}

/// Compares two tables for equality of their contents.
fn flows_eq(a: &Vec<Vec<Value>>, b: &Vec<Vec<Value>>) -> (r: bool)
    ensures
        r <==> flow_view(*a) == flow_view(*b),
{
    if a.len() != b.len() {
        proof {
            assert(flow_view(*a).len() != flow_view(*b).len());
        }
        return false;
    }
    let mut i: usize = 0;
    while i < a.len()
        invariant
            0 <= i <= a@.len(),
            a@.len() == b@.len(),
            forall|j: int| 0 <= j < i ==> (#[trigger] a@[j])@ == b@[j]@,
        decreases a@.len() - i,
    {
        if !envs_eq(&a[i], &b[i]) {
            proof {
                assert(flow_view(*a)[i as int] != flow_view(*b)[i as int]);
            }
            return false;
        }
        i = i + 1;
    }
    proof {
        assert(flow_view(*a) =~= flow_view(*b));
    }
    true
}

/// Elementwise meet of two state vectors of one length.
fn meet_env(a: &Vec<Value>, b: &Vec<Value>) -> (r: Vec<Value>)
    requires
        a@.len() == b@.len(),
    ensures
        r@ == spec_meet_env(a@, b@),
{
    let mut r: Vec<Value> = Vec::new();
    let mut i: usize = 0;
    while i < a.len()
        invariant
            0 <= i <= a@.len(),
            a@.len() == b@.len(),
            r@.len() == i,
            forall|j: int| 0 <= j < i ==> r@[j] == spec_meet(a@[j], b@[j]),
        decreases a@.len() - i,
    {
        r.push(meet(a[i], b[i]));
        i = i + 1;
    }
    proof {
        assert(r@ =~= spec_meet_env(a@, b@));
    }
    r
}

/// Meets one exit vector into the entry vector of block `tgt`.
fn prop_edge(fl: &mut Vec<Vec<Value>>, tgt: usize, src: &Vec<Value>)
    requires
        (tgt as int) < old(fl)@.len(),
        old(fl)@[tgt as int]@.len() == src@.len(),
    ensures
        flow_view(*final(fl)) == flow_view(*old(fl)).update(
            tgt as int,
            spec_meet_env(flow_view(*old(fl))[tgt as int], src@),
        ),
{
    let row = meet_env(&fl[tgt], src);
    fl.set(tgt, row);
    proof {
        assert(flow_view(*fl) =~= flow_view(*old(fl)).update(
            tgt as int,
            spec_meet_env(flow_view(*old(fl))[tgt as int], src@),
        ));
    }
}

/// A meet along one edge list never raises any entry fact.
proof fn lemma_prop_edges_le(fl: Seq<Seq<Value>>, src_row: Seq<Value>, ss: Seq<int>)
    requires
        forall|j: int| 0 <= j < ss.len() ==> 0 <= #[trigger] ss[j] < fl.len(),
    ensures
        flow_le(spec_prop_edges(fl, src_row, ss), fl),
    decreases ss.len(),
{
    if ss.len() == 0 {
        lemma_flow_le_reflexive(fl);
    } else {
        let fl1 = fl.update(ss[0], spec_meet_env(fl[ss[0]], src_row));
        assert(flow_le(fl1, fl)) by {
            assert forall|i: int| 0 <= i < fl1.len() implies env_le(#[trigger] fl1[i], fl[i]) by {
                if i == ss[0] {
                    assert forall|j: int|
                        0 <= j < spec_meet_env(fl[ss[0]], src_row).len() implies lat_le(
                        #[trigger] spec_meet_env(fl[ss[0]], src_row)[j],
                        fl[i][j],
                    ) by {
                        lemma_meet_lower(fl[ss[0]][j], src_row[j]);
                    }
                } else {
                    lemma_env_le_reflexive(fl[i]);
                }
            }
        }
        assert forall|j: int| 0 <= j < ss.drop_first().len() implies 0 <= #[trigger] ss.drop_first()[j]
            < fl1.len() by {
            assert(ss.drop_first()[j] == ss[j + 1]);
        }
        lemma_prop_edges_le(fl1, src_row, ss.drop_first());
        lemma_flow_le_transitive(spec_prop_edges(fl, src_row, ss), fl1, fl);
    }
}

/// Successor indices stay below the block count in a well-formed function.
proof fn lemma_succs_in_bounds(blocks: Seq<BB>, each: nat, b: int)
    requires
        0 <= b < blocks.len(),
        wf_block(blocks[b], blocks.len() as nat, each),
    ensures
        forall|j: int|
            0 <= j < spec_succs(blocks[b].next).len() ==> 0 <= #[trigger] spec_succs(
                blocks[b].next,
            )[j] < blocks.len(),
{
    match blocks[b].next {
        NextKind::Jmp { label } => {
            assert(spec_succs(blocks[b].next) == seq![label as int]);
        },
        NextKind::Jif { fail, jump, .. } => {
            assert(spec_succs(blocks[b].next) == seq![fail as int, jump as int]);
        },
        _ => {},
    }
}

/// The whole propagate phase never raises any entry fact. This is the
/// monotonicity half of the convergence argument: entry facts only move
/// toward lower precision, round after round.
pub proof fn lemma_propagate_le(
    blocks: Seq<BB>,
    outs: Seq<Seq<Value>>,
    fl: Seq<Seq<Value>>,
    each: nat,
    i: nat,
)
    requires
        i <= blocks.len(),
        fl.len() == blocks.len(),
        forall|b: int| 0 <= b < blocks.len() ==> wf_block(#[trigger] blocks[b], blocks.len() as nat, each),
    ensures
        flow_le(spec_prop_upto(blocks, outs, fl, i), fl),
    decreases i,
{
    if i == 0 {
        lemma_flow_le_reflexive(fl);
    } else {
        lemma_propagate_le(blocks, outs, fl, each, (i - 1) as nat);
        let prev = spec_prop_upto(blocks, outs, fl, (i - 1) as nat);
        lemma_succs_in_bounds(blocks, each, i - 1);
        assert(prev.len() == fl.len());
        lemma_prop_edges_le(prev, outs[i - 1], spec_succs(blocks[i - 1].next));
        lemma_flow_le_transitive(spec_prop_upto(blocks, outs, fl, i), prev, fl);
    }
}

/// Every entry table the iteration reaches has one row per block and
/// `each` slots per row.
pub proof fn lemma_iter_in_shape(blocks: Seq<BB>, each: nat, k: nat)
    requires
        forall|b: int| 0 <= b < blocks.len() ==> wf_block(#[trigger] blocks[b], blocks.len() as nat, each),
    ensures
        wf_flow(spec_iter_in(blocks, each, k), blocks.len() as nat, each),
    decreases k,
{
    if k == 0 {
        assert forall|i: int| 0 <= i < init_flow(blocks.len(), each).len() implies (
        #[trigger] init_flow(blocks.len(), each)[i]).len() == each by {}
    } else {
        lemma_iter_in_shape(blocks, each, (k - 1) as nat);
        let prev = spec_iter_in(blocks, each, (k - 1) as nat);
        lemma_propagate_le(blocks, spec_outs(blocks, prev), prev, each, blocks.len() as nat);
        let cur = spec_iter_in(blocks, each, k);
        assert forall|i: int| 0 <= i < cur.len() implies (#[trigger] cur[i]).len() == each by {
            assert(env_le(cur[i], prev[i]));
        }
    }
}

/// Law: across rounds, no entry fact of any block ever moves back up:
/// each round's entry table lies pointwise at or below the round
/// before. Precision of the entry facts only decreases.
pub proof fn lemma_iterates_monotone(blocks: Seq<BB>, each: nat, k: nat)
    requires
        forall|b: int| 0 <= b < blocks.len() ==> wf_block(#[trigger] blocks[b], blocks.len() as nat, each),
    ensures
        flow_le(spec_iter_in(blocks, each, k + 1), spec_iter_in(blocks, each, k)),
{
    lemma_iter_in_shape(blocks, each, k);
    let prev = spec_iter_in(blocks, each, k);
    lemma_propagate_le(blocks, spec_outs(blocks, prev), prev, each, blocks.len() as nat);
}

/// Computes every block's exit vector from its entry vector.
fn transfer_all(f: &FuncBB, ins: &Vec<Vec<Value>>) -> (outs: Vec<Vec<Value>>)
    requires
        wf_func(*f),
        wf_flow(flow_view(*ins), f.bb@.len() as nat, f.max_reg as nat),
    ensures
        flow_view(outs) == spec_outs(f.bb@, flow_view(*ins)),
        wf_flow(flow_view(outs), f.bb@.len() as nat, f.max_reg as nat),
{
    let mut outs: Vec<Vec<Value>> = Vec::new();
    let mut idx: usize = 0;
    while idx < f.bb.len()
        invariant
            0 <= idx <= f.bb@.len(),
            wf_func(*f),
            wf_flow(flow_view(*ins), f.bb@.len() as nat, f.max_reg as nat),
            outs@.len() == idx,
            forall|j: int|
                0 <= j < idx ==> (#[trigger] outs@[j])@ == spec_transfer_seq(
                    f.bb@[j].insns@,
                    flow_view(*ins)[j],
                ),
        decreases f.bb@.len() - idx,
    {
        let mut row = copy_env(&ins[idx]);
        assert(wf_block(f.bb@[idx as int], f.bb@.len() as nat, f.max_reg as nat));
        assert(row@ == flow_view(*ins)[idx as int]);
        assert(row@.len() == f.max_reg as nat);
        transfer_seq(&f.bb[idx].insns, &mut row);
        outs.push(row);
        idx = idx + 1;
    }
    proof {
        assert(flow_view(outs) =~= spec_outs(f.bb@, flow_view(*ins)));
        assert forall|i: int| 0 <= i < flow_view(outs).len() implies (#[trigger] flow_view(outs)[i]).len()
            == f.max_reg as nat by {
            assert(wf_block(f.bb@[i], f.bb@.len() as nat, f.max_reg as nat));
            lemma_transfer_seq_len(f.bb@[i].insns@, flow_view(*ins)[i]);
        }
    }
    outs
}

/// Runs the propagate phase once: every block's exit vector is met into
/// each of its successors' entry vectors, in block order.
fn propagate(f: &FuncBB, ins: &Vec<Vec<Value>>, outs: &Vec<Vec<Value>>) -> (r: Vec<Vec<Value>>)
    requires
        wf_func(*f),
        wf_flow(flow_view(*ins), f.bb@.len() as nat, f.max_reg as nat),
        wf_flow(flow_view(*outs), f.bb@.len() as nat, f.max_reg as nat),
    ensures
        flow_view(r) == spec_propagate(f.bb@, flow_view(*outs), flow_view(*ins)),
        wf_flow(flow_view(r), f.bb@.len() as nat, f.max_reg as nat),
{
    let n = f.bb.len();
    let mut r = copy_flow(ins);
    let mut idx: usize = 0;
    while idx < n
        invariant
            0 <= idx <= n,
            n == f.bb@.len(),
            wf_func(*f),
            wf_flow(flow_view(*ins), n as nat, f.max_reg as nat),
            wf_flow(flow_view(*outs), n as nat, f.max_reg as nat),
            wf_flow(flow_view(r), n as nat, f.max_reg as nat),
            flow_view(r) == spec_prop_upto(f.bb@, flow_view(*outs), flow_view(*ins), idx as nat),
        decreases n - idx,
    {
        let ghost fl0 = flow_view(r);
        let ghost out_row = flow_view(*outs)[idx as int];
        assert(wf_block(f.bb@[idx as int], n as nat, f.max_reg as nat));
        let nx = f.bb[idx].next;
        assert(outs@[idx as int]@ == flow_view(*outs)[idx as int]);
        assert(outs@[idx as int]@.len() == f.max_reg as nat);
        match nx {
            NextKind::Jmp { label } => {
                assert(r@[label as int]@ == flow_view(r)[label as int]);
                prop_edge(&mut r, label, &outs[idx]);
                proof {
                    let ss = spec_succs(nx);
                    assert(ss == seq![label as int]);
                    assert(ss.drop_first() =~= Seq::<int>::empty());
                    assert(spec_prop_edges(fl0, out_row, ss) == spec_prop_edges(
                        fl0.update(label as int, spec_meet_env(fl0[label as int], out_row)),
                        out_row,
                        ss.drop_first(),
                    ));
                }
            },
            NextKind::Jif { fail, jump, .. } => {
                let ghost fl1 = fl0.update(
                    fail as int,
                    spec_meet_env(fl0[fail as int], out_row),
                );
                assert(r@[fail as int]@ == flow_view(r)[fail as int]);
                prop_edge(&mut r, fail, &outs[idx]);
                assert(flow_view(r) == fl1);
                assert(r@[jump as int]@ == flow_view(r)[jump as int]);
                assert(flow_view(r)[jump as int].len() == f.max_reg as nat) by {
                    if jump as int == fail as int {
                        assert(fl1[jump as int] == spec_meet_env(fl0[fail as int], out_row));
                    }
                }
                prop_edge(&mut r, jump, &outs[idx]);
                proof {
                    let ss = spec_succs(nx);
                    assert(ss == seq![fail as int, jump as int]);
                    assert(ss.drop_first() =~= seq![jump as int]);
                    assert(ss.drop_first().drop_first() =~= Seq::<int>::empty());
                    let fl2 = fl1.update(
                        jump as int,
                        spec_meet_env(fl1[jump as int], out_row),
                    );
                    assert(spec_prop_edges(fl0, out_row, ss) == spec_prop_edges(
                        fl1,
                        out_row,
                        ss.drop_first(),
                    ));
                    assert(spec_prop_edges(fl1, out_row, ss.drop_first()) == spec_prop_edges(
                        fl2,
                        out_row,
                        ss.drop_first().drop_first(),
                    ));
                    assert(flow_view(r) == fl2);
                }
            },
            NextKind::Ret { .. } => {
                proof {
                    assert(spec_succs(nx) =~= Seq::<int>::empty());
                }
            },
            NextKind::Stop => {
                proof {
                    assert(spec_succs(nx) =~= Seq::<int>::empty());
                }
            },
        }
        proof {
            assert(flow_view(r) == spec_prop_edges(fl0, out_row, spec_succs(nx)));
            assert(spec_prop_upto(f.bb@, flow_view(*outs), flow_view(*ins), (idx + 1) as nat)
                == spec_prop_edges(fl0, out_row, spec_succs(f.bb@[idx as int].next)));
        }
        idx = idx + 1;
    }
    r
}

/// Runs the solver to its fixed point: the returned entry table is
/// reached from the all-`Unk` start by whole rounds, and one more round
/// leaves it unchanged. The sum of lattice ranks of the entry table
/// strictly decreases with every round that changes anything, which
/// bounds the number of rounds.
pub fn solve(f: &FuncBB) -> (ins: Vec<Vec<Value>>)
    requires
        wf_func(*f),
    ensures
        wf_flow(flow_view(ins), f.bb@.len() as nat, f.max_reg as nat),
        is_solution(f.bb@, f.max_reg as nat, flow_view(ins)),
{
    let n = f.bb.len();
    let each = f.max_reg;
    let mut ins: Vec<Vec<Value>> = Vec::new();
    let mut i: usize = 0;
    while i < n
        invariant
            0 <= i <= n,
            ins@.len() == i,
            forall|j: int| 0 <= j < i ==> (#[trigger] ins@[j])@ =~= Seq::new(each as nat, |x: int| Value::Unk),
        decreases n - i,
    {
        let mut row: Vec<Value> = Vec::new();
        let mut j: usize = 0;
        while j < each
            invariant
                0 <= j <= each,
                row@.len() == j,
                forall|x: int| 0 <= x < j ==> row@[x] == Value::Unk,
            decreases each - j,
        {
            row.push(Value::Unk);
            j = j + 1;
        }
        proof {
            assert(row@ =~= Seq::new(each as nat, |x: int| Value::Unk));
        }
        ins.push(row);
        i = i + 1;
    }
    proof {
        assert(flow_view(ins) =~= init_flow(n as nat, each as nat));
    }
    let ghost mut k: nat = 0nat;
    loop
        invariant
            n == f.bb@.len(),
            each == f.max_reg,
            wf_func(*f),
            wf_flow(flow_view(ins), n as nat, each as nat),
            flow_view(ins) == spec_iter_in(f.bb@, each as nat, k),
        ensures
            wf_flow(flow_view(ins), n as nat, each as nat),
            spec_step_in(f.bb@, flow_view(ins)) == flow_view(ins),
            exists|kk: nat| flow_view(ins) == spec_iter_in(f.bb@, each as nat, kk),
        decreases flow_rank(flow_view(ins)),
    {
        let outs = transfer_all(f, &ins);
        let new_ins = propagate(f, &ins, &outs);
        assert(flow_view(new_ins) == spec_step_in(f.bb@, flow_view(ins)));
        if flows_eq(&new_ins, &ins) {
            proof {
                assert(flow_view(ins) == spec_iter_in(f.bb@, each as nat, k));
            }
            break;
        }
        proof {
            assert forall|b: int| 0 <= b < f.bb@.len() implies wf_block(
                #[trigger] f.bb@[b],
                f.bb@.len() as nat,
                each as nat,
            ) by {}
            lemma_propagate_le(
                f.bb@,
                flow_view(outs),
                flow_view(ins),
                each as nat,
                f.bb@.len() as nat,
            );
            lemma_flow_le_rank(flow_view(new_ins), flow_view(ins));
            k = k + 1;
        }
        ins = new_ins;
    }
    ins
}

/// After a pass along one edge list, the entry vector of every listed
/// successor lies at or below the propagated exit vector.
proof fn lemma_prop_edges_after(fl: Seq<Seq<Value>>, src_row: Seq<Value>, ss: Seq<int>, j: int)
    requires
        0 <= j < ss.len(),
        forall|x: int| 0 <= x < ss.len() ==> 0 <= #[trigger] ss[x] < fl.len(),
        forall|i: int| 0 <= i < fl.len() ==> (#[trigger] fl[i]).len() == src_row.len(),
    ensures
        env_le(spec_prop_edges(fl, src_row, ss)[ss[j]], src_row),
    decreases ss.len(),
{
    let fl1 = fl.update(ss[0], spec_meet_env(fl[ss[0]], src_row));
    assert forall|i: int| 0 <= i < fl1.len() implies (#[trigger] fl1[i]).len() == src_row.len() by {
        if i == ss[0] {
            assert(fl1[i] == spec_meet_env(fl[ss[0]], src_row));
        }
    }
    assert forall|x: int| 0 <= x < ss.drop_first().len() implies 0 <= #[trigger] ss.drop_first()[x]
        < fl1.len() by {
        assert(ss.drop_first()[x] == ss[x + 1]);
    }
    if j == 0 {
        assert(env_le(fl1[ss[0]], src_row)) by {
            assert forall|x: int| 0 <= x < spec_meet_env(fl[ss[0]], src_row).len() implies lat_le(
                #[trigger] spec_meet_env(fl[ss[0]], src_row)[x],
                src_row[x],
            ) by {
                lemma_meet_lower(fl[ss[0]][x], src_row[x]);
            }
        }
        lemma_prop_edges_le(fl1, src_row, ss.drop_first());
        assert(env_le(spec_prop_edges(fl1, src_row, ss.drop_first())[ss[0]], fl1[ss[0]]));
        lemma_env_le_transitive(
            spec_prop_edges(fl1, src_row, ss.drop_first())[ss[0]],
            fl1[ss[0]],
            src_row,
        );
    } else {
        lemma_prop_edges_after(fl1, src_row, ss.drop_first(), j - 1);
        assert(ss.drop_first()[j - 1] == ss[j]);
    }
}

/// After propagating blocks `0..i`, the entry vector of every successor
/// of a block already walked lies at or below that block's exit vector.
proof fn lemma_prop_upto_after(
    blocks: Seq<BB>,
    outs: Seq<Seq<Value>>,
    fl: Seq<Seq<Value>>,
    each: nat,
    i: nat,
    p: int,
    j: int,
)
    requires
        0 <= p < i <= blocks.len(),
        0 <= j < spec_succs(blocks[p].next).len(),
        forall|b: int| 0 <= b < blocks.len() ==> wf_block(#[trigger] blocks[b], blocks.len() as nat, each),
        wf_flow(fl, blocks.len() as nat, each),
        wf_flow(outs, blocks.len() as nat, each),
    ensures
        env_le(spec_prop_upto(blocks, outs, fl, i)[spec_succs(blocks[p].next)[j]], outs[p]),
    decreases i,
{
    let prev = spec_prop_upto(blocks, outs, fl, (i - 1) as nat);
    lemma_propagate_le(blocks, outs, fl, each, (i - 1) as nat);
    assert(wf_flow(prev, blocks.len() as nat, each)) by {
        assert forall|b: int| 0 <= b < prev.len() implies (#[trigger] prev[b]).len() == each by {
            assert(env_le(prev[b], fl[b]));
        }
    }
    lemma_succs_in_bounds(blocks, each, i - 1);
    lemma_succs_in_bounds(blocks, each, p);
    let s = spec_succs(blocks[p].next)[j];
    if p == i - 1 {
        lemma_prop_edges_after(prev, outs[p], spec_succs(blocks[p].next), j);
    } else {
        lemma_prop_upto_after(blocks, outs, fl, each, (i - 1) as nat, p, j);
        lemma_prop_edges_le(prev, outs[i - 1], spec_succs(blocks[i - 1].next));
        let cur = spec_prop_upto(blocks, outs, fl, i);
        assert(env_le(cur[s], prev[s]));
        lemma_env_le_transitive(cur[s], prev[s], outs[p]);
    }
}

/// Law: at the solver's fixed point, a block's entry facts lie at or
/// below the exit facts of every one of its predecessors. A fact used
/// for folding — in particular the constant guard that resolves a
/// conditional jump — is therefore agreed on by every incoming edge,
/// never supplied by a single predecessor's local constant alone.
pub proof fn lemma_solution_covers_predecessors(
    blocks: Seq<BB>,
    each: nat,
    ins: Seq<Seq<Value>>,
    p: int,
    j: int,
)
    requires
        forall|b: int| 0 <= b < blocks.len() ==> wf_block(#[trigger] blocks[b], blocks.len() as nat, each),
        wf_flow(ins, blocks.len() as nat, each),
        spec_step_in(blocks, ins) == ins,
        0 <= p < blocks.len(),
        0 <= j < spec_succs(blocks[p].next).len(),
    ensures
        env_le(ins[spec_succs(blocks[p].next)[j]], spec_outs(blocks, ins)[p]),
{
    let outs = spec_outs(blocks, ins);
    assert(wf_flow(outs, blocks.len() as nat, each)) by {
        assert forall|b: int| 0 <= b < outs.len() implies (#[trigger] outs[b]).len() == each by {
            assert(wf_block(blocks[b], blocks.len() as nat, each));
            lemma_transfer_seq_len(blocks[b].insns@, ins[b]);
        }
    }
    lemma_prop_upto_after(blocks, outs, ins, each, blocks.len() as nat, p, j);
}

/// An operand after folding: a register whose slot is a known constant
/// becomes that immediate; every other operand is left unchanged.
pub open spec fn spec_fold_opnd(o: Operand, env: Seq<Value>) -> Operand {
    match o {
        Operand::Reg(r) => match env[r as int] {
            Value::Const(c) => Operand::Const(c),
            _ => o,
        },
        Operand::Const(_) => o,
    }
}

/// An instruction after folding: each readable operand slot is folded
/// under `spec_fold_opnd`; destinations and every other field stay.
pub open spec fn spec_fold_insn(k: TacKind, env: Seq<Value>) -> TacKind {
    match k {
        TacKind::Bin { op, dst, l, r } => TacKind::Bin {
            op: op,
            dst: dst,
            l: spec_fold_opnd(l, env),
            r: spec_fold_opnd(r, env),
        },
        TacKind::Un { op, dst, r } => TacKind::Un { op: op, dst: dst, r: spec_fold_opnd(r, env) },
        TacKind::Assign { dst, src } => TacKind::Assign { dst: dst, src: spec_fold_opnd(src, env) },
        TacKind::Load { dst, base, off } => TacKind::Load {
            dst: dst,
            base: spec_fold_opnd(base, env),
            off: off,
        },
        TacKind::Param { src } => TacKind::Param { src: spec_fold_opnd(src, env) },
        TacKind::Ret { src } => match src {
            Some(o) => TacKind::Ret { src: Some(spec_fold_opnd(o, env)) },
            None => k,
        },
        TacKind::Jif { label, z, cond } => TacKind::Jif {
            label: label,
            z: z,
            cond: spec_fold_opnd(cond, env),
        },
        TacKind::Store { src, base, off } => TacKind::Store {
            src: spec_fold_opnd(src, env),
            base: spec_fold_opnd(base, env),
            off: off,
        },
        _ => k,
    }
}

/// Law: folding an operand never changes the abstract value it carries:
/// the value computed from the register reference equals the one computed
/// from the folded immediate.
pub proof fn lemma_fold_opnd_value(o: Operand, env: Seq<Value>)
    ensures
        opnd_value(spec_fold_opnd(o, env), env) == opnd_value(o, env),
{
}

/// Law: folding an instruction's operands never changes what the transfer
/// function makes of it, so the facts computed before folding remain
/// exact for the folded program.
pub proof fn lemma_fold_insn_transfer(k: TacKind, env: Seq<Value>)
    ensures
        spec_transfer(spec_fold_insn(k, env), env) == spec_transfer(k, env),
{
    match k {
        TacKind::Bin { op, dst, l, r } => {
            lemma_fold_opnd_value(l, env);
            lemma_fold_opnd_value(r, env);
        },
        TacKind::Un { op, dst, r } => {
            lemma_fold_opnd_value(r, env);
        },
        TacKind::Assign { dst, src } => {
            lemma_fold_opnd_value(src, env);
        },
        _ => {},
    }
}

/// Folding keeps an instruction well formed.
pub proof fn lemma_fold_insn_wf(k: TacKind, env: Seq<Value>, each: nat)
    requires
        wf_insn(k, each),
    ensures
        wf_insn(spec_fold_insn(k, env), each),
{
}

/// The rewrite of one block's instruction sequence: each instruction is
/// folded under the current facts, then its transfer keeps the facts
/// current for the instructions after it. Returns the folded sequence
/// and the facts at the end of the block.
pub open spec fn spec_rewrite_insns(insns: Seq<TacKind>, env: Seq<Value>) -> (Seq<TacKind>, Seq<
    Value,
>)
    decreases insns.len(),
{
    if insns.len() == 0 {
        (Seq::<TacKind>::empty(), env)
    } else {
        let k1 = spec_fold_insn(insns[0], env);
        let env1 = spec_transfer(k1, env);
        let rest = spec_rewrite_insns(insns.drop_first(), env1);
        (seq![k1] + rest.0, rest.1)
    }
}

/// Unrolling `spec_rewrite_insns` at the back.
pub proof fn lemma_rewrite_insns_snoc(insns: Seq<TacKind>, k: TacKind, env: Seq<Value>)
    ensures
        ({
            let pre = spec_rewrite_insns(insns, env);
            let k1 = spec_fold_insn(k, pre.1);
            spec_rewrite_insns(insns.push(k), env) == (pre.0.push(k1), spec_transfer(k1, pre.1))
        }),
    decreases insns.len(),
{
    if insns.len() == 0 {
        let s1 = insns.push(k);
        assert(s1[0] == k);
        assert(s1.drop_first() =~= Seq::<TacKind>::empty());
        let k1 = spec_fold_insn(k, env);
        let env1 = spec_transfer(k1, env);
        assert(spec_rewrite_insns(s1, env) == (
            seq![k1] + spec_rewrite_insns(s1.drop_first(), env1).0,
            spec_rewrite_insns(s1.drop_first(), env1).1,
        ));
        assert(spec_rewrite_insns(Seq::<TacKind>::empty(), env1) == (
            Seq::<TacKind>::empty(),
            env1,
        ));
        assert(seq![k1] + Seq::<TacKind>::empty() =~= Seq::<TacKind>::empty().push(k1));
    } else {
        let s1 = insns.push(k);
        assert(s1[0] == insns[0]);
        assert(s1.drop_first() =~= insns.drop_first().push(k));
        let k0 = spec_fold_insn(insns[0], env);
        let env1 = spec_transfer(k0, env);
        lemma_rewrite_insns_snoc(insns.drop_first(), k, env1);
        let pred = spec_rewrite_insns(insns.drop_first(), env1);
        let k1 = spec_fold_insn(k, pred.1);
        assert(spec_rewrite_insns(insns, env) == (seq![k0] + pred.0, pred.1));
        assert(seq![k0] + pred.0.push(k1) =~= (seq![k0] + pred.0).push(k1));
    }
}

/// The rewrite yields one instruction per instruction and keeps the
/// facts vector's length.
pub proof fn lemma_rewrite_insns_len(insns: Seq<TacKind>, env: Seq<Value>)
    requires
        forall|i: int| 0 <= i < insns.len() ==> wf_insn(#[trigger] insns[i], env.len() as nat),
    ensures
        spec_rewrite_insns(insns, env).0.len() == insns.len(),
        spec_rewrite_insns(insns, env).1.len() == env.len(),
    decreases insns.len(),
{
    if insns.len() > 0 {
        let k1 = spec_fold_insn(insns[0], env);
        lemma_fold_insn_wf(insns[0], env, env.len() as nat);
        crate::transfer::lemma_transfer_len(k1, env);
        let env1 = spec_transfer(k1, env);
        assert forall|i: int| 0 <= i < insns.drop_first().len() implies wf_insn(
            #[trigger] insns.drop_first()[i],
            env1.len() as nat,
        ) by {
            assert(insns.drop_first()[i] == insns[i + 1]);
        }
        lemma_rewrite_insns_len(insns.drop_first(), env1);
    }
}

/// Law: replaying the transfer function over the folded instructions
/// computes exactly the facts of the instructions before folding —
/// folding changes representation, never the analysis' view of the
/// values.
pub proof fn lemma_rewrite_preserves_facts(insns: Seq<TacKind>, env: Seq<Value>)
    ensures
        spec_rewrite_insns(insns, env).1 == spec_transfer_seq(insns, env),
    decreases insns.len(),
{
    if insns.len() > 0 {
        lemma_fold_insn_transfer(insns[0], env);
        lemma_rewrite_preserves_facts(insns.drop_first(), spec_transfer(insns[0], env));
    }
}

/// The terminator after folding: a returned register that is a known
/// constant becomes that immediate; a conditional jump whose guard
/// register is a known constant `c` becomes the unconditional jump to
/// the target that `(c == 0) == z` picks; everything else is unchanged.
pub open spec fn spec_fold_next(nx: NextKind, env: Seq<Value>) -> NextKind {
    match nx {
        NextKind::Ret { src } => match src {
            Some(o) => NextKind::Ret { src: Some(spec_fold_opnd(o, env)) },
            None => nx,
        },
        NextKind::Jif { cond, z, fail, jump } => match env[cond as int] {
            Value::Const(c) => NextKind::Jmp { label: if (c == 0) == z {
                jump
            } else {
                fail
            } },
            _ => nx,
        },
        _ => nx,
    }
}

/// Folding keeps the terminator well formed: a resolved conditional
/// jump turns into an unconditional jump to one of its two targets.
pub proof fn lemma_fold_next_wf(nx: NextKind, env: Seq<Value>, n: nat, each: nat)
    requires
        wf_next(nx, n, each),
    ensures
        wf_next(spec_fold_next(nx, env), n, each),
{
}

/// Whether folding the terminator resolves a conditional jump: true
/// exactly when it is a conditional jump whose guard register holds a
/// known constant in the block's final facts.
pub open spec fn spec_next_folds(nx: NextKind, env: Seq<Value>) -> bool {
    match nx {
        NextKind::Jif { cond, .. } => env[cond as int] is Const,
        _ => false,
    }
}

/// Whether the rewrite resolves this block's terminator, judged under
/// the facts at the end of the block.
pub open spec fn spec_block_folds(b: BB, env0: Seq<Value>) -> bool {
    spec_next_folds(b.next, spec_rewrite_insns(b.insns@, env0).1)
}

/// Whether the rewrite resolves any block's terminator.
pub open spec fn spec_any_fold(blocks: Seq<BB>, ins: Seq<Seq<Value>>) -> bool {
    exists|j: int| 0 <= j < blocks.len() && spec_block_folds(#[trigger] blocks[j], ins[j])
}

/// How the rewrite pass relates the function after to the function
/// before, given the per-block entry facts `ins`: every block's
/// instructions are folded under its facts, its terminator is folded
/// under its end-of-block facts, and `folded` says whether any
/// conditional jump was resolved.
pub open spec fn spec_rewritten(pre: FuncBB, post: FuncBB, ins: Seq<Seq<Value>>, folded: bool) -> bool {
    &&& post.max_reg == pre.max_reg
    &&& post.bb@.len() == pre.bb@.len()
    &&& forall|i: int|
        0 <= i < pre.bb@.len() ==> ({
            let rb = spec_rewrite_insns(pre.bb@[i].insns@, ins[i]);
            (#[trigger] post.bb@[i]).insns@ == rb.0 && post.bb@[i].next == spec_fold_next(
                pre.bb@[i].next,
                rb.1,
            )
        })
    &&& folded == spec_any_fold(pre.bb@, ins)
}

/// The whole pass: the facts are a fixed point of the solver reached
/// from the all-`Unk` start, and the function was rewritten under them.
pub open spec fn spec_work_rel(pre: FuncBB, post: FuncBB, folded: bool, ins: Seq<Seq<Value>>) -> bool {
    &&& wf_flow(ins, pre.bb@.len() as nat, pre.max_reg as nat)
    &&& is_solution(pre.bb@, pre.max_reg as nat, ins)
    &&& spec_rewritten(pre, post, ins, folded)
}

/// Folds one operand under the current facts.
fn fold_opnd(o: Operand, env: &Vec<Value>) -> (r: Operand)
    requires
        wf_operand(o, env@.len() as nat),
    ensures
        r == spec_fold_opnd(o, env@),
{
    match o {
        Operand::Reg(rr) => match env[rr] {
            Value::Const(c) => Operand::Const(c),
            _ => o,
        },
        Operand::Const(_) => o,
    }
}

/// Folds one instruction's readable operand slots under the current facts.
fn fold_insn(k: TacKind, env: &Vec<Value>) -> (r: TacKind)
    requires
        wf_insn(k, env@.len() as nat),
    ensures
        r == spec_fold_insn(k, env@),
        wf_insn(r, env@.len() as nat),
{
    proof {
        lemma_fold_insn_wf(k, env@, env@.len() as nat);
    }
    match k {
        TacKind::Bin { op, dst, l, r } => TacKind::Bin {
            op: op,
            dst: dst,
            l: fold_opnd(l, env),
            r: fold_opnd(r, env),
        },
        TacKind::Un { op, dst, r } => TacKind::Un { op: op, dst: dst, r: fold_opnd(r, env) },
        TacKind::Assign { dst, src } => TacKind::Assign { dst: dst, src: fold_opnd(src, env) },
        TacKind::Load { dst, base, off } => TacKind::Load {
            dst: dst,
            base: fold_opnd(base, env),
            off: off,
        },
        TacKind::Param { src } => TacKind::Param { src: fold_opnd(src, env) },
        TacKind::Ret { src } => match src {
            Some(o) => TacKind::Ret { src: Some(fold_opnd(o, env)) },
            None => k,
        },
        TacKind::Jif { label, z, cond } => TacKind::Jif {
            label: label,
            z: z,
            cond: fold_opnd(cond, env),
        },
        TacKind::Store { src, base, off } => TacKind::Store {
            src: fold_opnd(src, env),
            base: fold_opnd(base, env),
            off: off,
        },
        _ => k,
    }
}

/// Rewrites one block's instruction sequence in program order, keeping
/// the facts current after each folded instruction.
fn rewrite_insns(insns: &Vec<TacKind>, env: &mut Vec<Value>) -> (r: Vec<TacKind>)
    requires
        forall|i: int| 0 <= i < insns@.len() ==> wf_insn(#[trigger] insns@[i], old(env)@.len() as nat),
    ensures
        r@ == spec_rewrite_insns(insns@, old(env)@).0,
        final(env)@ == spec_rewrite_insns(insns@, old(env)@).1,
        forall|i: int| 0 <= i < r@.len() ==> wf_insn(#[trigger] r@[i], old(env)@.len() as nat),
{
    let ghost env0 = env@;
    let mut r: Vec<TacKind> = Vec::new();
    let mut j: usize = 0;
    while j < insns.len()
        invariant
            0 <= j <= insns@.len(),
            r@ == spec_rewrite_insns(insns@.take(j as int), env0).0,
            env@ == spec_rewrite_insns(insns@.take(j as int), env0).1,
            env@.len() == env0.len(),
            forall|i: int| 0 <= i < insns@.len() ==> wf_insn(#[trigger] insns@[i], env0.len() as nat),
            forall|i: int| 0 <= i < r@.len() ==> wf_insn(#[trigger] r@[i], env0.len() as nat),
        decreases insns@.len() - j,
    {
        let k1 = fold_insn(insns[j], env);
        transfer(k1, env);
        r.push(k1);
        proof {
            assert(insns@.take(j as int).push(insns@[j as int]) =~= insns@.take(j + 1));
            lemma_rewrite_insns_snoc(insns@.take(j as int), insns@[j as int], env0);
        }
        j = j + 1;
    }
    proof {
        assert(insns@.take(insns@.len() as int) =~= insns@);
    }
    r
}

/// The register bounds a terminator's folding needs.
pub open spec fn wf_next_regs(nx: NextKind, each: nat) -> bool {
    match nx {
        NextKind::Ret { src } => match src {
            Some(o) => wf_operand(o, each),
            None => true,
        },
        NextKind::Jif { cond, .. } => (cond as nat) < each,
        _ => true,
    }
}

/// Folds the terminator under the block's final facts; the second part
/// of the result says whether a conditional jump was resolved.
fn fold_next(nx: NextKind, env: &Vec<Value>) -> (r: (NextKind, bool))
    requires
        wf_next_regs(nx, env@.len() as nat),
    ensures
        r.0 == spec_fold_next(nx, env@),
        r.1 == spec_next_folds(nx, env@),
{
    match nx {
        NextKind::Ret { src } => match src {
            Some(o) => {
                let fo = fold_opnd(o, env);
                (NextKind::Ret { src: Some(fo) }, false)
            },
            None => (nx, false),
        },
        NextKind::Jif { cond, z, fail, jump } => match env[cond] {
            Value::Const(c) => {
                let target = if (c == 0) == z {
                    jump
                } else {
                    fail
                };
                (NextKind::Jmp { label: target }, true)
            },
            _ => (nx, false),
        },
        _ => (nx, false),
    }
}

/// The rewrite pass: folds every block's constant operands and resolves
/// every conditional jump whose guard is a known constant, under the
/// per-block entry facts `ins`. Returns whether any branch was resolved.
pub fn rewrite(f: &mut FuncBB, ins: &Vec<Vec<Value>>) -> (folded: bool)
    requires
        wf_func(*old(f)),
        wf_flow(flow_view(*ins), old(f).bb@.len() as nat, old(f).max_reg as nat),
    ensures
        spec_rewritten(*old(f), *final(f), flow_view(*ins), folded),
        wf_func(*final(f)),
{
    let n = f.bb.len();
    let each = f.max_reg;
    let mut new_bb: Vec<BB> = Vec::new();
    let mut folded: bool = false;
    let mut idx: usize = 0;
    while idx < n
        invariant
            0 <= idx <= n,
            *f == *old(f),
            n == f.bb@.len(),
            each == f.max_reg,
            wf_func(*f),
            wf_flow(flow_view(*ins), n as nat, each as nat),
            new_bb@.len() == idx,
            forall|i: int| 0 <= i < idx ==> wf_block(#[trigger] new_bb@[i], n as nat, each as nat),
            forall|i: int|
                0 <= i < idx ==> ({
                    let rb = spec_rewrite_insns(f.bb@[i].insns@, flow_view(*ins)[i]);
                    (#[trigger] new_bb@[i]).insns@ == rb.0 && new_bb@[i].next == spec_fold_next(
                        f.bb@[i].next,
                        rb.1,
                    )
                }),
            folded == (exists|j: int|
                0 <= j < idx && spec_block_folds(#[trigger] f.bb@[j], flow_view(*ins)[j])),
        decreases n - idx,
    {
        assert(wf_block(f.bb@[idx as int], n as nat, each as nat));
        let mut env = copy_env(&ins[idx]);
        assert(env@ == flow_view(*ins)[idx as int]);
        assert(env@.len() == each as nat);
        let new_insns = rewrite_insns(&f.bb[idx].insns, &mut env);
        proof {
            lemma_rewrite_insns_len(f.bb@[idx as int].insns@, flow_view(*ins)[idx as int]);
            assert(wf_next(f.bb@[idx as int].next, n as nat, each as nat));
            assert(env@.len() == each as nat);
        }
        let (new_next, did) = fold_next(f.bb[idx].next, &env);
        proof {
            lemma_fold_next_wf(f.bb@[idx as int].next, env@, n as nat, each as nat);
        }
        new_bb.push(BB { insns: new_insns, next: new_next });
        assert(wf_block(new_bb@[idx as int], n as nat, each as nat));
        let ghost old_folded = folded;
        folded = folded || did;
        proof {
            if did {
                assert(spec_block_folds(f.bb@[idx as int], flow_view(*ins)[idx as int]));
            }
            assert(folded == (exists|j: int|
                0 <= j < idx + 1 && spec_block_folds(#[trigger] f.bb@[j], flow_view(*ins)[j])))
                by {
                if folded {
                    if did {
                        assert(spec_block_folds(f.bb@[idx as int], flow_view(*ins)[idx as int]));
                    } else {
                        let w = choose|j: int|
                            0 <= j < idx && spec_block_folds(
                                #[trigger] f.bb@[j],
                                flow_view(*ins)[j],
                            );
                        assert(spec_block_folds(f.bb@[w], flow_view(*ins)[w]));
                    }
                } else {
                    assert forall|j: int| 0 <= j < idx + 1 implies !spec_block_folds(
                        #[trigger] f.bb@[j],
                        flow_view(*ins)[j],
                    ) by {
                        if j == idx as int {
                            assert(!did);
                        }
                    }
                }
            }
        }
        idx = idx + 1;
    }
    f.bb = new_bb;
    folded
}

/// The whole pass on one function: run the solver to its fixed point,
/// then rewrite every block under the stabilized facts. Returns whether
/// any conditional jump was resolved; when it was, the caller hands the
/// block list to the CFG simplifier, which is this pass's one external
/// collaborator.
pub fn work(f: &mut FuncBB) -> (folded: bool)
    requires
        wf_func(*old(f)),
    ensures
        exists|ins: Seq<Seq<Value>>| spec_work_rel(*old(f), *final(f), folded, ins),
        wf_func(*final(f)),
{
    let ins = solve(f);
    let folded = rewrite(f, &ins);
    proof {
        assert(spec_work_rel(*old(f), *f, folded, flow_view(ins)));
    }
    folded
}

} // verus!
