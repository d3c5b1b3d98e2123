//! The three-address-code model the pass works on: operands, instruction
//! kinds, basic blocks with their terminators, and the integer evaluation
//! of binary and unary operators used when folding.

use vstd::prelude::*;

verus! {

/// One operand slot of an instruction: an immediate integer or a register.
#[derive(Copy, Clone, PartialEq, Eq, Structural, Debug)]
pub enum Operand {
    /// An immediate integer literal.
    Const(i32),
    /// A virtual register, a dense index below the function's `max_reg`.
    Reg(usize),
}

/// Binary operators over 32-bit integers. Arithmetic wraps; comparisons
/// and logical operators yield 0 or 1; division and remainder truncate
/// toward zero and yield 0 when the divisor is 0 or the quotient
/// overflows, so evaluation is total.
#[derive(Copy, Clone, PartialEq, Eq, Structural, Debug)]
pub enum BinOp {
    Add,
    Sub,
    Mul,
    Div,
    Rem,
    Lt,
    Le,
    Gt,
    Ge,
    Eql,
    Neq,
    And,
    Or,
}

/// Unary operators over 32-bit integers.
#[derive(Copy, Clone, PartialEq, Eq, Structural, Debug)]
pub enum UnOp {
    /// Wrapping arithmetic negation.
    Neg,
    /// Logical not: 1 when the operand is 0, else 0.
    Not,
}

/// One instruction of the linear TAC. Each kind writes at most one
/// register (its `dst`), and its register reads are the `Operand` fields.
#[derive(Copy, Clone, PartialEq, Eq, Debug)]
pub enum TacKind {
    /// `dst := l op r`.
    Bin { op: BinOp, dst: usize, l: Operand, r: Operand },
    /// `dst := op r`.
    Un { op: UnOp, dst: usize, r: Operand },
    /// `dst := src`.
    Assign { dst: usize, src: Operand },
    /// A call, writing its result to `dst` when one is named.
    Call { dst: Option<usize> },
    /// `dst := i`, an immediate integer load.
    LoadInt { dst: usize, i: i32 },
    /// A load from memory at `base + off`.
    Load { dst: usize, base: Operand, off: i32 },
    /// A load of the address of string constant number `s`.
    LoadStr { dst: usize, s: usize },
    /// A load of the vtable pointer of class number `v`.
    LoadVTbl { dst: usize, v: usize },
    /// A parameter push for a coming call.
    Param { src: Operand },
    /// A return, in linear form; writes no register.
    Ret { src: Option<Operand> },
    /// An unconditional jump, in linear form; writes no register.
    Jmp { label: usize },
    /// A conditional jump, in linear form; writes no register.
    Jif { label: usize, z: bool, cond: Operand },
    /// A jump target marker; writes no register.
    Label { label: usize },
    /// A store to memory at `base + off`; writes no register.
    Store { src: Operand, base: Operand, off: i32 },
}

/// The terminator of a basic block.
#[derive(Copy, Clone, PartialEq, Eq, Debug)]
pub enum NextKind {
    /// Return, with an optional result operand; no successor.
    Ret { src: Option<Operand> },
    /// Unconditional jump to block `label`; one successor.
    Jmp { label: usize },
    /// Conditional jump on register `cond` compared to zero: when
    /// `(cond == 0) == z` control goes to `jump`, else to `fail`.
    Jif { cond: usize, z: bool, fail: usize, jump: usize },
    /// No terminator; no successor.
    Stop,
}

/// A basic block: an instruction sequence and one terminator.
#[derive(PartialEq, Eq, Debug)]
pub struct BB {
    pub insns: Vec<TacKind>,
    pub next: NextKind,
}

/// A function: an ordered block sequence and the number of virtual
/// registers; every register index is below `max_reg`.
#[derive(PartialEq, Eq, Debug)]
pub struct FuncBB {
    pub bb: Vec<BB>,
    pub max_reg: usize,
}

/// Absolute value, in the integers.
pub open spec fn int_abs(x: int) -> int {
    if x < 0 {
        -x
    } else {
        x
    }
}

/// Division truncating toward zero, total: 0 when the divisor is 0, and 0
/// when the quotient overflows `i32` (only `i32::MIN / -1`).
pub open spec fn spec_tdiv(l: i32, r: i32) -> i32 {
    if r == 0 {
        0
    } else if l == i32::MIN && r == -1 {
        0
    } else {
        if (l < 0) != (r < 0) {
            (-(int_abs(l as int) / int_abs(r as int))) as i32
        } else {
            (int_abs(l as int) / int_abs(r as int)) as i32
        }
    }
}

/// Remainder matching `spec_tdiv`, total: 0 when the divisor is 0 or on
/// the overflowing quotient; otherwise it carries the dividend's sign.
pub open spec fn spec_trem(l: i32, r: i32) -> i32 {
    if r == 0 {
        0
    } else if l == i32::MIN && r == -1 {
        0
    } else {
        if l < 0 {
            (-(int_abs(l as int) % int_abs(r as int))) as i32
        } else {
            (int_abs(l as int) % int_abs(r as int)) as i32
        }
    }
}

/// What a binary operator evaluates to on two known integers.
pub open spec fn spec_eval_bin(op: BinOp, l: i32, r: i32) -> i32 {
    match op {
        BinOp::Add => l.wrapping_add(r),
        BinOp::Sub => l.wrapping_sub(r),
        BinOp::Mul => l.wrapping_mul(r),
        BinOp::Div => spec_tdiv(l, r),
        BinOp::Rem => spec_trem(l, r),
        BinOp::Lt => if l < r {
            1
        } else {
            0
        },
        BinOp::Le => if l <= r {
            1
        } else {
            0
        },
        BinOp::Gt => if l > r {
            1
        } else {
            0
        },
        BinOp::Ge => if l >= r {
            1
        } else {
            0
        },
        BinOp::Eql => if l == r {
            1
        } else {
            0
        },
        BinOp::Neq => if l != r {
            1
        } else {
            0
        },
        BinOp::And => if l != 0 && r != 0 {
            1
        } else {
            0
        },
        BinOp::Or => if l != 0 || r != 0 {
            1
        } else {
            0
        },
    }
}

/// What a unary operator evaluates to on a known integer.
pub open spec fn spec_eval_un(op: UnOp, v: i32) -> i32 {
    match op {
        UnOp::Neg => (0i32).wrapping_sub(v),
        UnOp::Not => if v == 0 {
            1
        } else {
            0
        },
    }
}

/// Magnitude of an `i32` as a `u32`.
fn abs_u32(x: i32) -> (r: u32)
    ensures
        r as int == int_abs(x as int),
{
    if x >= 0 {
        x as u32
    } else if x == i32::MIN {
        0x8000_0000u32
    } else {
        (-x) as u32
    }
}

/// Division truncating toward zero, total as `spec_tdiv` says.
fn eval_div(l: i32, r: i32) -> (q: i32)
    ensures
        q == spec_tdiv(l, r),
{
    if r == 0 {
        0
    } else if l == i32::MIN && r == -1 {
        0
    } else {
        let la = abs_u32(l);
        let ra = abs_u32(r);
        let qa: u32 = la / ra;
        proof {
            vstd::arithmetic::div_mod::lemma_div_is_ordered_by_denominator(la as int, 1, ra as int);
            if ra >= 2 {
                vstd::arithmetic::div_mod::lemma_div_is_ordered_by_denominator(
                    la as int,
                    2,
                    ra as int,
                );
            }
        }
        if (l < 0) != (r < 0) {
            if qa == 0x8000_0000u32 {
                i32::MIN
            } else {
                -(qa as i32)
            }
        } else {
            qa as i32
        }
    }
}

/// Remainder matching `eval_div`, total as `spec_trem` says.
fn eval_rem(l: i32, r: i32) -> (m: i32)
    ensures
        m == spec_trem(l, r),
{
    if r == 0 {
        0
    } else if l == i32::MIN && r == -1 {
        0
    } else {
        let la = abs_u32(l);
        let ra = abs_u32(r);
        let ma: u32 = la % ra;
        proof {
            vstd::arithmetic::div_mod::lemma_mod_division_less_than_divisor(la as int, ra as int);
        }
        if l < 0 {
            -(ma as i32)
        } else {
            ma as i32
        }
    }
}

impl BinOp {
    /// Evaluates the operator on two known integers, exactly as
    /// `spec_eval_bin` states.
    pub fn eval(self, l: i32, r: i32) -> (v: i32)
        ensures
            v == spec_eval_bin(self, l, r),
    {
        match self {
            BinOp::Add => l.wrapping_add(r),
            BinOp::Sub => l.wrapping_sub(r),
            BinOp::Mul => l.wrapping_mul(r),
            BinOp::Div => eval_div(l, r),
            BinOp::Rem => eval_rem(l, r),
            BinOp::Lt => if l < r {
                1
            } else {
                0
            },
            BinOp::Le => if l <= r {
                1
            } else {
                0
            },
            BinOp::Gt => if l > r {
                1
            } else {
                0
            },
            BinOp::Ge => if l >= r {
                1
            } else {
                0
            },
            BinOp::Eql => if l == r {
                1
            } else {
                0
            },
            BinOp::Neq => if l != r {
                1
            } else {
                0
            },
            BinOp::And => if l != 0 && r != 0 {
                1
            } else {
                0
            },
            BinOp::Or => if l != 0 || r != 0 {
                1
            } else {
                0
            },
        }
    }
}

impl UnOp {
    /// Evaluates the operator on a known integer, exactly as
    /// `spec_eval_un` states.
    pub fn eval(self, v: i32) -> (w: i32)
        ensures
            w == spec_eval_un(self, v),
    {
        match self {
            UnOp::Neg => (0i32).wrapping_sub(v),
            UnOp::Not => if v == 0 {
                1
            } else {
                0
            },
        }
    }
}

/// A register operand must name a register below `each`.
pub open spec fn wf_operand(o: Operand, each: nat) -> bool {
    match o {
        Operand::Const(_) => true,
        Operand::Reg(r) => (r as nat) < each,
    }
}

/// Every register an instruction names, written or read, is below `each`.
pub open spec fn wf_insn(k: TacKind, each: nat) -> bool {
    match k {
        TacKind::Bin { dst, l, r, .. } => (dst as nat) < each && wf_operand(l, each) && wf_operand(
            r,
            each,
        ),
        TacKind::Un { dst, r, .. } => (dst as nat) < each && wf_operand(r, each),
        TacKind::Assign { dst, src } => (dst as nat) < each && wf_operand(src, each),
        TacKind::Call { dst } => match dst {
            Some(d) => (d as nat) < each,
            None => true,
        },
        TacKind::LoadInt { dst, .. } => (dst as nat) < each,
        TacKind::Load { dst, base, .. } => (dst as nat) < each && wf_operand(base, each),
        TacKind::LoadStr { dst, .. } => (dst as nat) < each,
        TacKind::LoadVTbl { dst, .. } => (dst as nat) < each,
        TacKind::Param { src } => wf_operand(src, each),
        TacKind::Ret { src } => match src {
            Some(o) => wf_operand(o, each),
            None => true,
        },
        TacKind::Jmp { .. } => true,
        TacKind::Jif { cond, .. } => wf_operand(cond, each),
        TacKind::Label { .. } => true,
        TacKind::Store { src, base, .. } => wf_operand(src, each) && wf_operand(base, each),
    }
}

/// A terminator's successors are blocks below `n` and its guard register
/// is below `each`.
pub open spec fn wf_next(nx: NextKind, n: nat, each: nat) -> bool {
    match nx {
        NextKind::Ret { src } => match src {
            Some(o) => wf_operand(o, each),
            None => true,
        },
        NextKind::Jmp { label } => (label as nat) < n,
        NextKind::Jif { cond, fail, jump, .. } => (cond as nat) < each && (fail as nat) < n && (
        jump as nat) < n,
        NextKind::Stop => true,
    }
}

/// Every instruction and the terminator of the block are in bounds.
pub open spec fn wf_block(b: BB, n: nat, each: nat) -> bool {
    &&& forall|i: int| 0 <= i < b.insns@.len() ==> wf_insn(#[trigger] b.insns@[i], each)
    &&& wf_next(b.next, n, each)
}

/// Every block of the function is well formed: register indices below
/// `max_reg` and successor indices below the block count.
pub open spec fn wf_func(f: FuncBB) -> bool {
    forall|i: int|
        0 <= i < f.bb@.len() ==> wf_block(#[trigger] f.bb@[i], f.bb@.len(), f.max_reg as nat)
}

/// Decides `wf_operand`.
fn check_operand(o: Operand, each: usize) -> (r: bool)
    ensures
        r == wf_operand(o, each as nat),
{
    match o {
        Operand::Const(_) => true,
        Operand::Reg(rr) => rr < each,
    }
}

/// Decides `wf_insn`.
fn check_insn(k: TacKind, each: usize) -> (r: bool)
    ensures
        r == wf_insn(k, each as nat),
{
    match k {
        TacKind::Bin { dst, l, r, .. } => dst < each && check_operand(l, each) && check_operand(
            r,
            each,
        ),
        TacKind::Un { dst, r, .. } => dst < each && check_operand(r, each),
        TacKind::Assign { dst, src } => dst < each && check_operand(src, each),
        TacKind::Call { dst } => match dst {
            Some(d) => d < each,
            None => true,
        },
        TacKind::LoadInt { dst, .. } => dst < each,
        TacKind::Load { dst, base, .. } => dst < each && check_operand(base, each),
        TacKind::LoadStr { dst, .. } => dst < each,
        TacKind::LoadVTbl { dst, .. } => dst < each,
        TacKind::Param { src } => check_operand(src, each),
        TacKind::Ret { src } => match src {
            Some(o) => check_operand(o, each),
            None => true,
        },
        TacKind::Jmp { .. } => true,
        TacKind::Jif { cond, .. } => check_operand(cond, each),
        TacKind::Label { .. } => true,
        TacKind::Store { src, base, .. } => check_operand(src, each) && check_operand(base, each),
    }
}

/// Decides `wf_next`.
fn check_next(nx: NextKind, n: usize, each: usize) -> (r: bool)
    ensures
        r == wf_next(nx, n as nat, each as nat),
{
    match nx {
        NextKind::Ret { src } => match src {
            Some(o) => check_operand(o, each),
            None => true,
        },
        NextKind::Jmp { label } => label < n,
        NextKind::Jif { cond, fail, jump, .. } => cond < each && fail < n && jump < n,
        NextKind::Stop => true,
    }
}

/// Decides `wf_func`: whether every register index of every instruction
/// and terminator is below `max_reg` and every successor index is below
/// the block count. The pass demands this of its input; a pipeline
/// driver can test it before handing a function over.
pub fn check_func(f: &FuncBB) -> (r: bool)
    ensures
        r == wf_func(*f),
{
    let n = f.bb.len();
    let each = f.max_reg;
    let mut i: usize = 0;
    while i < n
        invariant
            0 <= i <= n,
            n == f.bb@.len(),
            each == f.max_reg,
            forall|b: int| 0 <= b < i ==> wf_block(#[trigger] f.bb@[b], n as nat, each as nat),
        decreases n - i,
    {
        let blk = &f.bb[i];
        assert(*blk == f.bb@[i as int]);
        let mut j: usize = 0;
        while j < blk.insns.len()
            invariant
                0 <= j <= blk.insns@.len(),
                0 <= i < n,
                n == f.bb@.len(),
                each == f.max_reg,
                *blk == f.bb@[i as int],
                forall|x: int| 0 <= x < j ==> wf_insn(#[trigger] blk.insns@[x], each as nat),
            decreases blk.insns@.len() - j,
        {
            if !check_insn(blk.insns[j], each) {
                assert(!wf_insn(f.bb@[i as int].insns@[j as int], each as nat));
                assert(!wf_block(f.bb@[i as int], n as nat, each as nat));
                return false;
            }
            j = j + 1;
        }
        if !check_next(blk.next, n, each) {
            assert(!wf_block(f.bb@[i as int], n as nat, each as nat));
            return false;
        }
        assert(wf_block(f.bb@[i as int], n as nat, each as nat));
        i = i + 1;
    }
    true
}

/// Successor block indices of a terminator, in the order the solver
/// walks them: none for return or stop, the target for a jump, the fail
/// target then the jump target for a conditional jump.
pub open spec fn spec_succs(nx: NextKind) -> Seq<int> {
    match nx {
        NextKind::Ret { .. } => Seq::empty(),
        NextKind::Jmp { label } => seq![label as int],
        NextKind::Jif { fail, jump, .. } => seq![fail as int, jump as int],
        NextKind::Stop => Seq::empty(),
    }
}

} // verus!
