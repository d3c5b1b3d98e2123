use tacopt::const_prop::{solve, work};
use tacopt::lattice::{meet, Value};
use tacopt::tac::{check_func, BinOp, FuncBB, NextKind, Operand, TacKind, UnOp, BB};

fn block(insns: Vec<TacKind>, next: NextKind) -> BB {
    BB { insns, next }
}

#[test]
fn meet_concrete_values() {
    assert_eq!(meet(Value::Const(1), Value::Const(1)), Value::Const(1));
    assert_eq!(meet(Value::Const(1), Value::Const(2)), Value::Nac);
    assert_eq!(meet(Value::Unk, Value::Const(5)), Value::Const(5));
    assert_eq!(meet(Value::Const(5), Value::Unk), Value::Const(5));
    assert_eq!(meet(Value::Unk, Value::Unk), Value::Unk);
    assert_eq!(meet(Value::Nac, Value::Const(3)), Value::Nac);
    assert_eq!(meet(Value::Const(3), Value::Nac), Value::Nac);
    assert_eq!(meet(Value::Unk, Value::Nac), Value::Nac);
}

#[test]
fn meet_laws_on_samples() {
    let samples = [
        Value::Unk,
        Value::Nac,
        Value::Const(0),
        Value::Const(1),
        Value::Const(-7),
    ];
    for &x in &samples {
        assert_eq!(meet(x, x), x);
        assert_eq!(meet(x, Value::Unk), x);
        assert_eq!(meet(Value::Unk, x), x);
        assert_eq!(meet(x, Value::Nac), Value::Nac);
        assert_eq!(meet(Value::Nac, x), Value::Nac);
        for &y in &samples {
            assert_eq!(meet(x, y), meet(y, x));
            for &z in &samples {
                assert_eq!(meet(meet(x, y), z), meet(x, meet(y, z)));
            }
        }
    }
}

#[test]
fn eval_exact_values() {
    assert_eq!(BinOp::Add.eval(2, 3), 5);
    assert_eq!(BinOp::Add.eval(i32::MAX, 1), i32::MIN);
    assert_eq!(BinOp::Sub.eval(i32::MIN, 1), i32::MAX);
    assert_eq!(BinOp::Mul.eval(-4, 5), -20);
    assert_eq!(BinOp::Div.eval(7, 2), 3);
    assert_eq!(BinOp::Div.eval(-7, 2), -3);
    assert_eq!(BinOp::Div.eval(7, -2), -3);
    assert_eq!(BinOp::Div.eval(-7, -2), 3);
    assert_eq!(BinOp::Div.eval(5, 0), 0);
    assert_eq!(BinOp::Div.eval(i32::MIN, -1), 0);
    assert_eq!(BinOp::Div.eval(i32::MIN, 1), i32::MIN);
    assert_eq!(BinOp::Rem.eval(7, 2), 1);
    assert_eq!(BinOp::Rem.eval(-7, 2), -1);
    assert_eq!(BinOp::Rem.eval(7, -2), 1);
    assert_eq!(BinOp::Rem.eval(5, 0), 0);
    assert_eq!(BinOp::Rem.eval(i32::MIN, -1), 0);
    assert_eq!(BinOp::Lt.eval(1, 2), 1);
    assert_eq!(BinOp::Le.eval(2, 2), 1);
    assert_eq!(BinOp::Gt.eval(1, 2), 0);
    assert_eq!(BinOp::Ge.eval(1, 2), 0);
    assert_eq!(BinOp::Eql.eval(4, 4), 1);
    assert_eq!(BinOp::Neq.eval(4, 4), 0);
    assert_eq!(BinOp::And.eval(2, 0), 0);
    assert_eq!(BinOp::And.eval(2, 3), 1);
    assert_eq!(BinOp::Or.eval(0, 0), 0);
    assert_eq!(BinOp::Or.eval(0, 9), 1);
    assert_eq!(UnOp::Neg.eval(5), -5);
    assert_eq!(UnOp::Neg.eval(i32::MIN), i32::MIN);
    assert_eq!(UnOp::Not.eval(0), 1);
    assert_eq!(UnOp::Not.eval(3), 0);
}

// Scenario: r0=5; r1=3; r2=r0+r1; return r2. The sum folds to the
// immediate 8 and the return carries 8.
#[test]
fn straight_line_folds_sum() {
    let mut f = FuncBB {
        bb: vec![block(
            vec![
                TacKind::LoadInt { dst: 0, i: 5 },
                TacKind::LoadInt { dst: 1, i: 3 },
                TacKind::Bin {
                    op: BinOp::Add,
                    dst: 2,
                    l: Operand::Reg(0),
                    r: Operand::Reg(1),
                },
            ],
            NextKind::Ret {
                src: Some(Operand::Reg(2)),
            },
        )],
        max_reg: 3,
    };
    assert!(check_func(&f));
    let folded = work(&mut f);
    assert!(!folded);
    assert_eq!(
        f.bb[0].insns[2],
        TacKind::Bin {
            op: BinOp::Add,
            dst: 2,
            l: Operand::Const(5),
            r: Operand::Const(3),
        }
    );
    assert_eq!(
        f.bb[0].next,
        NextKind::Ret {
            src: Some(Operand::Const(8)),
        }
    );
}

// Scenario: predecessors A (r0=2) and B (r0=2) both jump to C, which
// uses r0: the two paths agree, so r0 folds to 2 in C.
#[test]
fn agreeing_predecessors_fold() {
    let mut f = FuncBB {
        bb: vec![
            block(
                vec![TacKind::LoadInt { dst: 0, i: 2 }],
                NextKind::Jmp { label: 2 },
            ),
            block(
                vec![TacKind::LoadInt { dst: 0, i: 2 }],
                NextKind::Jmp { label: 2 },
            ),
            block(
                vec![TacKind::Assign {
                    dst: 1,
                    src: Operand::Reg(0),
                }],
                NextKind::Ret { src: None },
            ),
        ],
        max_reg: 2,
    };
    assert!(check_func(&f));
    let folded = work(&mut f);
    assert!(!folded);
    assert_eq!(
        f.bb[2].insns[0],
        TacKind::Assign {
            dst: 1,
            src: Operand::Const(2),
        }
    );
}

// Scenario: predecessors A (r0=1) and B (r0=2) both jump to C: the
// paths disagree, so r0 stays a register operand in C.
#[test]
fn disagreeing_predecessors_do_not_fold() {
    let mut f = FuncBB {
        bb: vec![
            block(
                vec![TacKind::LoadInt { dst: 0, i: 1 }],
                NextKind::Jmp { label: 2 },
            ),
            block(
                vec![TacKind::LoadInt { dst: 0, i: 2 }],
                NextKind::Jmp { label: 2 },
            ),
            block(
                vec![TacKind::Assign {
                    dst: 1,
                    src: Operand::Reg(0),
                }],
                NextKind::Ret { src: None },
            ),
        ],
        max_reg: 2,
    };
    assert!(check_func(&f));
    let folded = work(&mut f);
    assert!(!folded);
    assert_eq!(
        f.bb[2].insns[0],
        TacKind::Assign {
            dst: 1,
            src: Operand::Reg(0),
        }
    );
}

// Scenario: r0 = call f() then a use of r0: a call result is never
// folded, regardless of surrounding constants.
#[test]
fn call_result_never_folds() {
    let mut f = FuncBB {
        bb: vec![block(
            vec![
                TacKind::LoadInt { dst: 2, i: 7 },
                TacKind::Call { dst: Some(0) },
                TacKind::Bin {
                    op: BinOp::Add,
                    dst: 1,
                    l: Operand::Reg(0),
                    r: Operand::Reg(2),
                },
            ],
            NextKind::Ret {
                src: Some(Operand::Reg(1)),
            },
        )],
        max_reg: 3,
    };
    assert!(check_func(&f));
    let folded = work(&mut f);
    assert!(!folded);
    assert_eq!(
        f.bb[0].insns[2],
        TacKind::Bin {
            op: BinOp::Add,
            dst: 1,
            l: Operand::Reg(0),
            r: Operand::Const(7),
        }
    );
    assert_eq!(
        f.bb[0].next,
        NextKind::Ret {
            src: Some(Operand::Reg(1)),
        }
    );
}

// Scenario: r0=0; if r0==0 goto L1 else L2: the terminator becomes the
// unconditional jump to L1 and the pass reports that a branch folded,
// so the caller invokes the CFG simplifier.
#[test]
fn constant_guard_folds_branch() {
    let mut f = FuncBB {
        bb: vec![
            block(
                vec![TacKind::LoadInt { dst: 0, i: 0 }],
                NextKind::Jif {
                    cond: 0,
                    z: true,
                    fail: 2,
                    jump: 1,
                },
            ),
            block(vec![], NextKind::Ret { src: None }),
            block(vec![], NextKind::Ret { src: None }),
        ],
        max_reg: 1,
    };
    assert!(check_func(&f));
    let folded = work(&mut f);
    assert!(folded);
    assert_eq!(f.bb[0].next, NextKind::Jmp { label: 1 });
}

// The other polarity: a nonzero guard under z=true goes to the fail
// target.
#[test]
fn nonzero_guard_takes_fail_target() {
    let mut f = FuncBB {
        bb: vec![
            block(
                vec![TacKind::LoadInt { dst: 0, i: 4 }],
                NextKind::Jif {
                    cond: 0,
                    z: true,
                    fail: 2,
                    jump: 1,
                },
            ),
            block(vec![], NextKind::Ret { src: None }),
            block(vec![], NextKind::Ret { src: None }),
        ],
        max_reg: 1,
    };
    assert!(check_func(&f));
    let folded = work(&mut f);
    assert!(folded);
    assert_eq!(f.bb[0].next, NextKind::Jmp { label: 2 });
}

// A guard that only one path makes constant is not folded: block C's
// guard meets Const(0) from A with Nac from B.
#[test]
fn guard_not_folded_without_all_paths_agreeing() {
    let mut f = FuncBB {
        bb: vec![
            block(
                vec![TacKind::LoadInt { dst: 0, i: 0 }],
                NextKind::Jmp { label: 2 },
            ),
            block(
                vec![TacKind::Call { dst: Some(0) }],
                NextKind::Jmp { label: 2 },
            ),
            block(
                vec![],
                NextKind::Jif {
                    cond: 0,
                    z: true,
                    fail: 3,
                    jump: 4,
                },
            ),
            block(vec![], NextKind::Ret { src: None }),
            block(vec![], NextKind::Ret { src: None }),
        ],
        max_reg: 1,
    };
    assert!(check_func(&f));
    let folded = work(&mut f);
    assert!(!folded);
    assert_eq!(
        f.bb[2].next,
        NextKind::Jif {
            cond: 0,
            z: true,
            fail: 3,
            jump: 4,
        }
    );
}

// Memory, string-constant and vtable loads are conservatively never
// constant.
#[test]
fn loads_are_conservative() {
    let mut f = FuncBB {
        bb: vec![block(
            vec![
                TacKind::LoadInt { dst: 1, i: 0 },
                TacKind::Load {
                    dst: 0,
                    base: Operand::Reg(1),
                    off: 4,
                },
                TacKind::Assign {
                    dst: 2,
                    src: Operand::Reg(0),
                },
            ],
            NextKind::Ret {
                src: Some(Operand::Reg(2)),
            },
        )],
        max_reg: 3,
    };
    assert!(check_func(&f));
    let folded = work(&mut f);
    assert!(!folded);
    // The load's address operand folds, its destination never does.
    assert_eq!(
        f.bb[0].insns[1],
        TacKind::Load {
            dst: 0,
            base: Operand::Const(0),
            off: 4,
        }
    );
    assert_eq!(
        f.bb[0].insns[2],
        TacKind::Assign {
            dst: 2,
            src: Operand::Reg(0),
        }
    );
}

// A two-block loop: the counter is written on every round, so it never
// folds, while a loop-invariant constant still does. The solver reaches
// its fixed point on a cyclic graph.
#[test]
fn loop_reaches_fixed_point() {
    let mut f = FuncBB {
        bb: vec![
            block(
                vec![
                    TacKind::LoadInt { dst: 0, i: 0 },
                    TacKind::LoadInt { dst: 1, i: 10 },
                ],
                NextKind::Jmp { label: 1 },
            ),
            block(
                vec![
                    TacKind::Bin {
                        op: BinOp::Add,
                        dst: 0,
                        l: Operand::Reg(0),
                        r: Operand::Const(1),
                    },
                    TacKind::Bin {
                        op: BinOp::Lt,
                        dst: 2,
                        l: Operand::Reg(0),
                        r: Operand::Reg(1),
                    },
                ],
                NextKind::Jif {
                    cond: 2,
                    z: true,
                    fail: 1,
                    jump: 2,
                },
            ),
            block(vec![], NextKind::Ret { src: None }),
        ],
        max_reg: 3,
    };
    assert!(check_func(&f));
    let folded = work(&mut f);
    assert!(!folded);
    // The loop-invariant bound folds; the counter does not.
    assert_eq!(
        f.bb[1].insns[1],
        TacKind::Bin {
            op: BinOp::Lt,
            dst: 2,
            l: Operand::Reg(0),
            r: Operand::Const(10),
        }
    );
    assert_eq!(
        f.bb[1].insns[0],
        TacKind::Bin {
            op: BinOp::Add,
            dst: 0,
            l: Operand::Reg(0),
            r: Operand::Const(1),
        }
    );
}

// The solver's facts for the straight-line scenario, read directly.
#[test]
fn solve_returns_entry_facts() {
    let f = FuncBB {
        bb: vec![
            block(
                vec![TacKind::LoadInt { dst: 0, i: 5 }],
                NextKind::Jmp { label: 1 },
            ),
            block(vec![], NextKind::Ret { src: None }),
        ],
        max_reg: 1,
    };
    assert!(check_func(&f));
    let ins = solve(&f);
    // Entry facts: nothing is known at the entry block, and block 1
    // inherits r0 = 5 from its one predecessor.
    assert_eq!(ins[0], vec![Value::Unk]);
    assert_eq!(ins[1], vec![Value::Const(5)]);
}

// Unary operations, parameter pushes and stores fold their readable
// operands; a store writes no register.
#[test]
fn unary_param_and_store_fold() {
    let mut f = FuncBB {
        bb: vec![block(
            vec![
                TacKind::LoadInt { dst: 0, i: 6 },
                TacKind::Un {
                    op: UnOp::Neg,
                    dst: 1,
                    r: Operand::Reg(0),
                },
                TacKind::Param {
                    src: Operand::Reg(1),
                },
                TacKind::Store {
                    src: Operand::Reg(1),
                    base: Operand::Reg(0),
                    off: 8,
                },
            ],
            NextKind::Ret { src: None },
        )],
        max_reg: 2,
    };
    assert!(check_func(&f));
    let folded = work(&mut f);
    assert!(!folded);
    assert_eq!(
        f.bb[0].insns[1],
        TacKind::Un {
            op: UnOp::Neg,
            dst: 1,
            r: Operand::Const(6),
        }
    );
    assert_eq!(
        f.bb[0].insns[2],
        TacKind::Param {
            src: Operand::Const(-6),
        }
    );
    assert_eq!(
        f.bb[0].insns[3],
        TacKind::Store {
            src: Operand::Const(-6),
            base: Operand::Const(6),
            off: 8,
        }
    );
}

// The transfer function, called directly: loads set exact constants, a
// binary operation over known constants evaluates, and a call result is
// never constant.
#[test]
fn transfer_updates_facts() {
    let mut env = vec![Value::Unk, Value::Unk, Value::Unk];
    tacopt::transfer::transfer(TacKind::LoadInt { dst: 0, i: 5 }, &mut env);
    assert_eq!(env, vec![Value::Const(5), Value::Unk, Value::Unk]);
    tacopt::transfer::transfer(
        TacKind::Bin {
            op: BinOp::Mul,
            dst: 1,
            l: Operand::Reg(0),
            r: Operand::Const(4),
        },
        &mut env,
    );
    assert_eq!(env[1], Value::Const(20));
    tacopt::transfer::transfer(TacKind::Call { dst: Some(1) }, &mut env);
    assert_eq!(env[1], Value::Nac);
    // Reading a register with no information yet still yields a value
    // at run time, so the destination becomes not-constant, not unknown.
    tacopt::transfer::transfer(
        TacKind::Bin {
            op: BinOp::Add,
            dst: 1,
            l: Operand::Reg(2),
            r: Operand::Const(1),
        },
        &mut env,
    );
    assert_eq!(env[1], Value::Nac);
}

#[test]
fn check_func_rejects_bad_indices() {
    let f = FuncBB {
        bb: vec![block(
            vec![TacKind::LoadInt { dst: 3, i: 1 }],
            NextKind::Ret { src: None },
        )],
        max_reg: 3,
    };
    assert!(!check_func(&f));
    let g = FuncBB {
        bb: vec![block(vec![], NextKind::Jmp { label: 5 })],
        max_reg: 0,
    };
    assert!(!check_func(&g));
}
