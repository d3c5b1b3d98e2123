//! The transfer function: how one instruction updates a block's vector of
//! abstract register values, and its extension to instruction sequences.

use vstd::prelude::*;

use crate::lattice::Value;
use crate::tac::{spec_eval_bin, spec_eval_un, wf_insn, wf_operand, Operand, TacKind};

verus! {

/// The abstract value an operand carries under `env`: an immediate is that
/// constant; a register reads its slot.
pub open spec fn opnd_value(o: Operand, env: Seq<Value>) -> Value {
    match o {
        Operand::Const(c) => Value::Const(c),
        Operand::Reg(r) => env[r as int],
    }
}

/// The value written by a binary operation: the evaluated constant when
/// both operands are known constants, else `Nac` — also when an operand
/// is still `Unk`, since the instruction will execute and produce some
/// run-time value the analysis cannot name.
pub open spec fn bin_value(op: crate::tac::BinOp, l: Operand, r: Operand, env: Seq<Value>) -> Value {
    match (opnd_value(l, env), opnd_value(r, env)) {
        (Value::Const(a), Value::Const(b)) => Value::Const(spec_eval_bin(op, a, b)),
        _ => Value::Nac,
    }
}

/// The value written by a unary operation, under the same rule.
pub open spec fn un_value(op: crate::tac::UnOp, r: Operand, env: Seq<Value>) -> Value {
    match opnd_value(r, env) {
        Value::Const(a) => Value::Const(spec_eval_un(op, a)),
        _ => Value::Nac,
    }
}

/// How one instruction transforms the state vector: the written register's
/// slot is updated, every other slot is unchanged, and an instruction
/// without a destination changes nothing. Loads from memory, string
/// constants, vtable pointers and call results are conservatively `Nac`.
pub open spec fn spec_transfer(k: TacKind, env: Seq<Value>) -> Seq<Value> {
    match k {
        TacKind::Bin { op, dst, l, r } => env.update(dst as int, bin_value(op, l, r, env)),
        TacKind::Un { op, dst, r } => env.update(dst as int, un_value(op, r, env)),
        TacKind::Assign { dst, src } => env.update(dst as int, opnd_value(src, env)),
        TacKind::Call { dst } => match dst {
            Some(d) => env.update(d as int, Value::Nac),
            None => env,
        },
        TacKind::LoadInt { dst, i } => env.update(dst as int, Value::Const(i)),
        TacKind::Load { dst, .. } => env.update(dst as int, Value::Nac),
        TacKind::LoadStr { dst, .. } => env.update(dst as int, Value::Nac),
        TacKind::LoadVTbl { dst, .. } => env.update(dst as int, Value::Nac),
        TacKind::Param { .. } => env,
        TacKind::Ret { .. } => env,
        TacKind::Jmp { .. } => env,
        TacKind::Jif { .. } => env,
        TacKind::Label { .. } => env,
        TacKind::Store { .. } => env,
    }
}

/// The transfer function keeps the vector's length.
pub proof fn lemma_transfer_len(k: TacKind, env: Seq<Value>)
    requires
        wf_insn(k, env.len() as nat),
    ensures
        spec_transfer(k, env).len() == env.len(),
{
}

/// Running the whole instruction sequence through the transfer function,
/// each instruction feeding the next.
pub open spec fn spec_transfer_seq(insns: Seq<TacKind>, env: Seq<Value>) -> Seq<Value>
    decreases insns.len(),
{
    if insns.len() == 0 {
        env
    } else {
        spec_transfer_seq(insns.drop_first(), spec_transfer(insns[0], env))
    }
}

/// Unrolling `spec_transfer_seq` at the back: one more instruction after
/// a sequence is one more transfer after its result.
pub proof fn lemma_transfer_seq_snoc(insns: Seq<TacKind>, k: TacKind, env: Seq<Value>)
    ensures
        spec_transfer_seq(insns.push(k), env) == spec_transfer(
            k,
            spec_transfer_seq(insns, env),
        ),
    decreases insns.len(),
{
    if insns.len() == 0 {
        let s1 = insns.push(k);
        assert(s1[0] == k);
        assert(s1.drop_first() =~= Seq::<TacKind>::empty());
        assert(spec_transfer_seq(s1, env) == spec_transfer_seq(
            s1.drop_first(),
            spec_transfer(k, env),
        ));
        assert(spec_transfer_seq(Seq::<TacKind>::empty(), spec_transfer(k, env)) == spec_transfer(
            k,
            env,
        ));
    } else {
        assert(insns.push(k).drop_first() =~= insns.drop_first().push(k));
        lemma_transfer_seq_snoc(insns.drop_first(), k, spec_transfer(insns[0], env));
    }
}

/// A whole instruction sequence keeps the vector's length.
pub proof fn lemma_transfer_seq_len(insns: Seq<TacKind>, env: Seq<Value>)
    requires
        forall|i: int| 0 <= i < insns.len() ==> wf_insn(#[trigger] insns[i], env.len() as nat),
    ensures
        spec_transfer_seq(insns, env).len() == env.len(),
    decreases insns.len(),
{
    if insns.len() > 0 {
        lemma_transfer_len(insns[0], env);
        let env1 = spec_transfer(insns[0], env);
        assert forall|i: int| 0 <= i < insns.drop_first().len() implies wf_insn(
            #[trigger] insns.drop_first()[i],
            env1.len() as nat,
        ) by {
            assert(insns.drop_first()[i] == insns[i + 1]);
        }
        lemma_transfer_seq_len(insns.drop_first(), env1);
    }
}

/// Reads an operand's abstract value from the state vector.
pub fn opnd_get(o: Operand, env: &Vec<Value>) -> (v: Value)
    requires
        wf_operand(o, env@.len() as nat),
    ensures
        v == opnd_value(o, env@),
{
    match o {
        Operand::Const(c) => Value::Const(c),
        Operand::Reg(r) => env[r],
    }
}

/// Applies one instruction's transfer to the state vector in place,
/// exactly as `spec_transfer` states.
pub fn transfer(k: TacKind, env: &mut Vec<Value>)
    requires
        wf_insn(k, old(env)@.len() as nat),
    ensures
        final(env)@ == spec_transfer(k, old(env)@),
{
    match k {
        TacKind::Bin { op, dst, l, r } => {
            let lv = opnd_get(l, env);
            let rv = opnd_get(r, env);
            let v = match (lv, rv) {
                (Value::Const(a), Value::Const(b)) => Value::Const(op.eval(a, b)),
                _ => Value::Nac,
            };
            env.set(dst, v);
        },
        TacKind::Un { op, dst, r } => {
            let v = match opnd_get(r, env) {
                Value::Const(a) => Value::Const(op.eval(a)),
                _ => Value::Nac,
            };
            env.set(dst, v);
        },
        TacKind::Assign { dst, src } => {
            let v = opnd_get(src, env);
            env.set(dst, v);
        },
        TacKind::Call { dst } => {
            if let Some(d) = dst {
                env.set(d, Value::Nac);
            }
        },
        TacKind::LoadInt { dst, i } => {
            env.set(dst, Value::Const(i));
        },
        TacKind::Load { dst, .. } => {
            env.set(dst, Value::Nac);
        },
        TacKind::LoadStr { dst, .. } => {
            env.set(dst, Value::Nac);
        },
        TacKind::LoadVTbl { dst, .. } => {
            env.set(dst, Value::Nac);
        },
        TacKind::Param { .. } => {},
        TacKind::Ret { .. } => {},
        TacKind::Jmp { .. } => {},
        TacKind::Jif { .. } => {},
        TacKind::Label { .. } => {},
        TacKind::Store { .. } => {},
    }
}

/// Applies a whole instruction sequence to the state vector in place, in
/// program order, exactly as `spec_transfer_seq` states.
pub fn transfer_seq(insns: &Vec<TacKind>, env: &mut Vec<Value>)
    requires
        forall|i: int| 0 <= i < insns@.len() ==> wf_insn(#[trigger] insns@[i], old(env)@.len() as nat),
    ensures
        final(env)@ == spec_transfer_seq(insns@, old(env)@),
{
    let ghost env0 = env@;
    let mut j: usize = 0;
    while j < insns.len()
        invariant
            0 <= j <= insns@.len(),
            env@ == spec_transfer_seq(insns@.take(j as int), env0),
            env@.len() == env0.len(),
            forall|i: int| 0 <= i < insns@.len() ==> wf_insn(#[trigger] insns@[i], env0.len() as nat),
        decreases insns@.len() - j,
    {
        proof {
            lemma_transfer_seq_len(insns@.take(j as int), env0);
        }
        transfer(insns[j], env);
        proof {
            assert(insns@.take(j as int).push(insns@[j as int]) =~= insns@.take(j + 1));
            lemma_transfer_seq_snoc(insns@.take(j as int), insns@[j as int], env0);
        }
        j = j + 1;
    }
    proof {
        assert(insns@.take(insns@.len() as int) =~= insns@);
    }
}

} // verus!
