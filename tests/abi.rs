use rcore_lab::abi::{
    arg_reg, clock_gettime, exit, marshal, sched_yield, syscall0, syscall1, syscall2, syscall3,
    syscall4, syscall5, syscall6, ClockId, Reg, SyscallId, TrapFrame, CLOCK_MONOTONIC,
    ID_REG, RET_REG, SYS_CLOCK_GETTIME, SYS_EXIT, SYS_SCHED_YIELD, SYS_WRITE,
};

/// A supervisor stand-in that answers with the sum of every register it was handed, after
/// checking the call identifier.
fn sum_stub(expected_id: usize) -> impl FnOnce(TrapFrame) -> TrapFrame {
    move |f: TrapFrame| {
        assert_eq!(f.a7, expected_id);
        let total = f.a0 + f.a1 + f.a2 + f.a3 + f.a4 + f.a5 + f.a6;
        TrapFrame { a0: total, ..f }
    }
}

#[test]
fn argument_slots_follow_position() {
    let regs = [Reg::A0, Reg::A1, Reg::A2, Reg::A3, Reg::A4, Reg::A5];
    for (i, r) in regs.iter().enumerate() {
        assert_eq!(arg_reg(i), *r);
    }
    assert_eq!(ID_REG, Reg::A7);
    assert_eq!(RET_REG, Reg::A0);
}

#[test]
fn marshal_places_each_argument() {
    let f = marshal(SyscallId(7), &[10, 20, 30]);
    assert_eq!(f, TrapFrame { a0: 10, a1: 20, a2: 30, a3: 0, a4: 0, a5: 0, a6: 0, a7: 7 });
    let g = marshal(SyscallId(9), &[1, 2, 3, 4, 5, 6]);
    assert_eq!(g, TrapFrame { a0: 1, a1: 2, a2: 3, a3: 4, a4: 5, a5: 6, a6: 0, a7: 9 });
    assert_eq!(g.get(Reg::A5), 6);
}

#[test]
fn every_arity_hands_over_its_registers() {
    let id = SyscallId(42);
    let expect = |seen: TrapFrame, want: TrapFrame| assert_eq!(seen, want);
    let z = TrapFrame { a0: 0, a1: 0, a2: 0, a3: 0, a4: 0, a5: 0, a6: 0, a7: 42 };
    assert_eq!(syscall0(|f| { expect(f, z); TrapFrame { a0: 5, ..f } }, id), 5);
    assert_eq!(
        syscall1(|f| { expect(f, TrapFrame { a0: 1, ..z }); TrapFrame { a0: 6, ..f } }, id, 1),
        6
    );
    assert_eq!(
        syscall2(|f| { expect(f, TrapFrame { a0: 1, a1: 2, ..z }); f }, id, 1, 2),
        1
    );
    assert_eq!(syscall3(sum_stub(42), id, 1, 2, 3), 6);
    assert_eq!(syscall4(sum_stub(42), id, 1, 2, 3, 4), 10);
    assert_eq!(syscall5(sum_stub(42), id, 1, 2, 3, 4, 5), 15);
    assert_eq!(
        syscall6(
            |f| {
                expect(f, TrapFrame { a0: 1, a1: 2, a2: 3, a3: 4, a4: 5, a5: 6, ..z });
                TrapFrame { a0: 21, ..f }
            },
            id,
            1,
            2,
            3,
            4,
            5,
            6
        ),
        21
    );
}

#[test]
fn result_register_is_read_as_signed() {
    let r = syscall0(|f| TrapFrame { a0: usize::MAX, ..f }, SyscallId(1));
    assert_eq!(r, -1);
    let r = syscall1(|f| TrapFrame { a0: (-22isize) as usize, ..f }, SyscallId(1), 3);
    assert_eq!(r, -22);
}

#[test]
fn named_calls_use_their_identifiers() {
    assert_eq!(rcore_lab::abi::write(sum_stub(SYS_WRITE), 1, 0x1000, 12), 1 + 0x1000 + 12);
    assert_eq!(exit(sum_stub(SYS_EXIT), 3), 3);
    assert_eq!(exit(|f| { assert_eq!(f.a0, usize::MAX); TrapFrame { a0: 0, ..f } }, -1), 0);
    assert_eq!(sched_yield(sum_stub(SYS_SCHED_YIELD)), 0);
    assert_eq!(
        clock_gettime(sum_stub(SYS_CLOCK_GETTIME), ClockId(CLOCK_MONOTONIC), 0x2000),
        1 + 0x2000
    );
}
