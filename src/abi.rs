use vstd::prelude::*;

verus! {

/// A general-purpose register of the RISC-V calling convention that takes part in a trap.
#[derive(Clone, Copy, Debug, PartialEq, Eq, Structural)]
pub enum Reg {
    A0,
    A1,
    A2,
    A3,
    A4,
    A5,
    A6,
    A7,
}

/// The register that carries the call identifier.
pub const ID_REG: Reg = Reg::A7;

/// The register that carries the result back to the caller.
pub const RET_REG: Reg = Reg::A0;

/// Number of argument slots a trap can carry.
pub const MAX_ARGS: usize = 6;

/// The register that holds argument `i` (for `i < 6`).
pub open spec fn arg_reg_spec(i: int) -> Reg {
    if i == 0 {
        Reg::A0
    } else if i == 1 {
        Reg::A1
    } else if i == 2 {
        Reg::A2
    } else if i == 3 {
        Reg::A3
    } else if i == 4 {
        Reg::A4
    } else {
        Reg::A5
    }
}

/// The register slot of argument position `i`.
pub fn arg_reg(i: usize) -> (r: Reg)
    requires
        i < MAX_ARGS,
    ensures
        r == arg_reg_spec(i as int),
{
    match i {
        0 => Reg::A0,
        1 => Reg::A1,
        2 => Reg::A2,
        3 => Reg::A3,
        4 => Reg::A4,
        _ => Reg::A5,
    }
}

/// The values of the trap registers `a0` to `a7`.
#[derive(Clone, Copy, Debug, PartialEq, Eq, Structural)]
pub struct TrapFrame {
    pub a0: usize,
    pub a1: usize,
    pub a2: usize,
    pub a3: usize,
    pub a4: usize,
    pub a5: usize,
    pub a6: usize,
    pub a7: usize,
}

impl TrapFrame {
    pub open spec fn reg(self, r: Reg) -> usize {
        match r {
            Reg::A0 => self.a0,
            Reg::A1 => self.a1,
            Reg::A2 => self.a2,
            Reg::A3 => self.a3,
            Reg::A4 => self.a4,
            Reg::A5 => self.a5,
            Reg::A6 => self.a6,
            Reg::A7 => self.a7,
        }
    }

    /// A frame with every register cleared.
    pub fn zeroed() -> (f: TrapFrame)
        ensures
            forall|r: Reg| f.reg(r) == 0,
    {
        TrapFrame { a0: 0, a1: 0, a2: 0, a3: 0, a4: 0, a5: 0, a6: 0, a7: 0 }
    }

    /// Reads register `r`.
    pub fn get(&self, r: Reg) -> (v: usize)
        ensures
            v == self.reg(r),
    {
        match r {
            Reg::A0 => self.a0,
            Reg::A1 => self.a1,
            Reg::A2 => self.a2,
            Reg::A3 => self.a3,
            Reg::A4 => self.a4,
            Reg::A5 => self.a5,
            Reg::A6 => self.a6,
            Reg::A7 => self.a7,
        }
    }

    /// Writes `v` into register `r`, leaving the others alone.
    pub fn set(&mut self, r: Reg, v: usize)
        ensures
            final(self).reg(r) == v,
            forall|q: Reg| q != r ==> final(self).reg(q) == old(self).reg(q),
    {
        match r {
            Reg::A0 => self.a0 = v,
            Reg::A1 => self.a1 = v,
            Reg::A2 => self.a2 = v,
            Reg::A3 => self.a3 = v,
            Reg::A4 => self.a4 = v,
            Reg::A5 => self.a5 = v,
            Reg::A6 => self.a6 = v,
            Reg::A7 => self.a7 = v,
        }
    }
}

/// What argument slot `i` holds for the argument list `args`: the argument if there is one,
/// zero otherwise.
pub open spec fn slot(args: Seq<usize>, i: int) -> usize {
    if 0 <= i < args.len() {
        args[i]
    } else {
        0
    }
}

/// The frame that a trap with identifier `id` and arguments `args` loads: the identifier in
/// `a7`, argument `i` in `a<i>`, every other register cleared.
pub open spec fn frame_of(id: usize, args: Seq<usize>) -> TrapFrame {
    TrapFrame {
        a0: slot(args, 0),
        a1: slot(args, 1),
        a2: slot(args, 2),
        a3: slot(args, 3),
        a4: slot(args, 4),
        a5: slot(args, 5),
        a6: 0,
        a7: id,
    }
}

/// Two frames that agree on every register are the same frame.
pub proof fn lemma_frame_ext(f: TrapFrame, g: TrapFrame)
    requires
        forall|r: Reg| f.reg(r) == g.reg(r),
    ensures
        f == g,
{
    assert(f.reg(Reg::A0) == g.reg(Reg::A0));
    assert(f.reg(Reg::A1) == g.reg(Reg::A1));
    assert(f.reg(Reg::A2) == g.reg(Reg::A2));
    assert(f.reg(Reg::A3) == g.reg(Reg::A3));
    assert(f.reg(Reg::A4) == g.reg(Reg::A4));
    assert(f.reg(Reg::A5) == g.reg(Reg::A5));
    assert(f.reg(Reg::A6) == g.reg(Reg::A6));
    assert(f.reg(Reg::A7) == g.reg(Reg::A7));
}

/// The identifier of a supervisor call.
#[derive(Clone, Copy, Debug, PartialEq, Eq, Structural)]
pub struct SyscallId(pub usize);

/// Call identifier of `write`.
pub const SYS_WRITE: usize = 64;

/// Call identifier of `exit`.
pub const SYS_EXIT: usize = 93;

/// Call identifier of `sched_yield`.
pub const SYS_SCHED_YIELD: usize = 124;

/// Call identifier of `clock_gettime`.
pub const SYS_CLOCK_GETTIME: usize = 113;

/// The identifier of a clock that `clock_gettime` reads.
#[derive(Clone, Copy, Debug, PartialEq, Eq, Structural)]
pub struct ClockId(pub usize);

/// The wall clock.
pub const CLOCK_REALTIME: usize = 0;

/// The monotonic clock.
pub const CLOCK_MONOTONIC: usize = 1;

/// Loads the trap registers for a call: the identifier into `ID_REG`, argument `i` into
/// `arg_reg(i)`, zero everywhere else.
pub fn marshal(id: SyscallId, args: &[usize]) -> (f: TrapFrame)
    requires
        args@.len() <= MAX_ARGS,
    ensures
        f == frame_of(id.0, args@),
{
    let mut f = TrapFrame::zeroed();
    f.set(ID_REG, id.0);
    let mut i: usize = 0;
    while i < args.len()
        invariant
            i <= args@.len() <= MAX_ARGS,
            forall|r: Reg| f.reg(r) == #[trigger] frame_of(id.0, args@.take(i as int)).reg(r),
        decreases args@.len() - i,
    {
        let r = arg_reg(i);
        f.set(r, args[i]);
        proof {
            let prev = args@.take(i as int);
            let next = args@.take(i + 1);
            assert(next.len() == i + 1);
            assert(next[i as int] == args@[i as int]);
            assert(forall|k: int| 0 <= k < i ==> next[k] == prev[k]);
            assert forall|q: Reg| f.reg(q) == #[trigger] frame_of(id.0, next).reg(q) by {
                if q != r {
                    assert(f.reg(q) == frame_of(id.0, prev).reg(q));
                }
            }
        }
        i = i + 1;
    }
    proof {
        assert(args@.take(i as int) =~= args@);
        lemma_frame_ext(f, frame_of(id.0, args@));
    }
    f
}

/// Performs one trap through `trap`, which stands for the `ecall` instruction: it receives the
/// loaded registers and gives back the registers as the supervisor left them.
fn invoke<F: FnOnce(TrapFrame) -> TrapFrame>(trap: F, id: SyscallId, args: &[usize]) -> (r: isize)
    requires
        args@.len() <= MAX_ARGS,
        trap.requires((frame_of(id.0, args@),)),
    ensures
        traps_to(trap, id.0, args@, r),
{
    let f = marshal(id, args);
    let out = trap(f);
    let v = out.get(RET_REG);
    v as isize
}

/// A supervisor call with 0 arguments.
pub fn syscall0<F: FnOnce(TrapFrame) -> TrapFrame>(trap: F, id: SyscallId) -> (r: isize)
    requires
        trap.requires((frame_of(id.0, seq![]),)),
    ensures
        traps_to(trap, id.0, seq![], r),
{
    let args: [usize; 0] = [];
    proof {
        assert(args@ =~= seq![]);
    }
    invoke(trap, id, args.as_slice())
}

/// A supervisor call with 1 argument.
pub fn syscall1<F: FnOnce(TrapFrame) -> TrapFrame>(trap: F, id: SyscallId, a0: usize) -> (r: isize)
    requires
        trap.requires((frame_of(id.0, seq![a0]),)),
    ensures
        traps_to(trap, id.0, seq![a0], r),
{
    let args: [usize; 1] = [a0];
    proof {
        assert(args@ =~= seq![a0]);
    }
    invoke(trap, id, args.as_slice())
}

/// A supervisor call with 2 arguments.
pub fn syscall2<F: FnOnce(TrapFrame) -> TrapFrame>(
    trap: F,
    id: SyscallId,
    a0: usize,
    a1: usize,
) -> (r: isize)
    requires
        trap.requires((frame_of(id.0, seq![a0, a1]),)),
    ensures
        traps_to(trap, id.0, seq![a0, a1], r),
{
    let args: [usize; 2] = [a0, a1];
    proof {
        assert(args@ =~= seq![a0, a1]);
    }
    invoke(trap, id, args.as_slice())
}

/// A supervisor call with 3 arguments.
pub fn syscall3<F: FnOnce(TrapFrame) -> TrapFrame>(
    trap: F,
    id: SyscallId,
    a0: usize,
    a1: usize,
    a2: usize,
) -> (r: isize)
    requires
        trap.requires((frame_of(id.0, seq![a0, a1, a2]),)),
    ensures
        traps_to(trap, id.0, seq![a0, a1, a2], r),
{
    let args: [usize; 3] = [a0, a1, a2];
    proof {
        assert(args@ =~= seq![a0, a1, a2]);
    }
    invoke(trap, id, args.as_slice())
}

/// A supervisor call with 4 arguments.
pub fn syscall4<F: FnOnce(TrapFrame) -> TrapFrame>(
    trap: F,
    id: SyscallId,
    a0: usize,
    a1: usize,
    a2: usize,
    a3: usize,
) -> (r: isize)
    requires
        trap.requires((frame_of(id.0, seq![a0, a1, a2, a3]),)),
    ensures
        traps_to(trap, id.0, seq![a0, a1, a2, a3], r),
{
    let args: [usize; 4] = [a0, a1, a2, a3];
    proof {
        assert(args@ =~= seq![a0, a1, a2, a3]);
    }
    invoke(trap, id, args.as_slice())
}

/// A supervisor call with 5 arguments.
pub fn syscall5<F: FnOnce(TrapFrame) -> TrapFrame>(
    trap: F,
    id: SyscallId,
    a0: usize,
    a1: usize,
    a2: usize,
    a3: usize,
    a4: usize,
) -> (r: isize)
    requires
        trap.requires((frame_of(id.0, seq![a0, a1, a2, a3, a4]),)),
    ensures
        traps_to(trap, id.0, seq![a0, a1, a2, a3, a4], r),
{
    let args: [usize; 5] = [a0, a1, a2, a3, a4];
    proof {
        assert(args@ =~= seq![a0, a1, a2, a3, a4]);
    }
    invoke(trap, id, args.as_slice())
}

/// A supervisor call with 6 arguments.
pub fn syscall6<F: FnOnce(TrapFrame) -> TrapFrame>(
    trap: F,
    id: SyscallId,
    a0: usize,
    a1: usize,
    a2: usize,
    a3: usize,
    a4: usize,
    a5: usize,
) -> (r: isize)
    requires
        trap.requires((frame_of(id.0, seq![a0, a1, a2, a3, a4, a5]),)),
    ensures
        traps_to(trap, id.0, seq![a0, a1, a2, a3, a4, a5], r),
{
    let args: [usize; 6] = [a0, a1, a2, a3, a4, a5];
    proof {
        assert(args@ =~= seq![a0, a1, a2, a3, a4, a5]);
    }
    invoke(trap, id, args.as_slice())
}

/// `r` is what a trap through `trap` with identifier `id` and arguments `args` can return: the
/// result register of a frame that `trap` may hand back for the loaded frame.
pub open spec fn traps_to<F: FnOnce(TrapFrame) -> TrapFrame>(
    trap: F,
    id: usize,
    args: Seq<usize>,
    r: isize,
) -> bool {
    exists|out: TrapFrame| #[trigger] trap.ensures((frame_of(id, args),), out) && r == result_of(out)
}

/// The signed machine word a trap hands back in its result register.
pub open spec fn result_of(f: TrapFrame) -> isize {
    f.reg(RET_REG) as isize
}

/// Each argument of a call lands in the register slot of its position, the identifier in `a7`,
/// and nothing else is loaded, whatever the number of arguments.
pub proof fn lemma_register_slots(id: usize, args: Seq<usize>)
    requires
        args.len() <= MAX_ARGS,
    ensures
        frame_of(id, args).reg(ID_REG) == id,
        forall|i: int| 0 <= i < args.len() ==> frame_of(id, args).reg(#[trigger] arg_reg_spec(i)) == args[i],
        forall|i: int|
            args.len() <= i < MAX_ARGS ==> frame_of(id, args).reg(#[trigger] arg_reg_spec(i)) == 0,
        frame_of(id, args).reg(Reg::A6) == 0,
{
}

/// A call returns exactly the signed value the supervisor left in the result register.
pub proof fn lemma_result_register<F: FnOnce(TrapFrame) -> TrapFrame>(
    trap: F,
    id: usize,
    args: Seq<usize>,
    r: isize,
    v: usize,
)
    requires
        traps_to(trap, id, args, r),
        forall|out: TrapFrame| #[trigger] trap.ensures((frame_of(id, args),), out) ==> out.a0 == v,
    ensures
        r == v as isize,
{
}

/// Writes the `len` bytes at address `buf` to the file descriptor `fd`.
pub fn write<F: FnOnce(TrapFrame) -> TrapFrame>(trap: F, fd: usize, buf: usize, len: usize) -> (r:
    isize)
    requires
        trap.requires((frame_of(SYS_WRITE, seq![fd, buf, len]),)),
    ensures
        traps_to(trap, SYS_WRITE, seq![fd, buf, len], r),
{
    syscall3(trap, SyscallId(SYS_WRITE), fd, buf, len)
}

/// Ends the calling program with `exit_code`.
pub fn exit<F: FnOnce(TrapFrame) -> TrapFrame>(trap: F, exit_code: i32) -> (r: isize)
    requires
        trap.requires((frame_of(SYS_EXIT, seq![exit_code as usize]),)),
    ensures
        traps_to(trap, SYS_EXIT, seq![exit_code as usize], r),
{
    syscall1(trap, SyscallId(SYS_EXIT), exit_code as usize)
}

/// Gives up the rest of the current time slice.
pub fn sched_yield<F: FnOnce(TrapFrame) -> TrapFrame>(trap: F) -> (r: isize)
    requires
        trap.requires((frame_of(SYS_SCHED_YIELD, seq![]),)),
    ensures
        traps_to(trap, SYS_SCHED_YIELD, seq![], r),
{
    syscall0(trap, SyscallId(SYS_SCHED_YIELD))
}

/// Reads clock `clockid` into the time record at address `tp`.
pub fn clock_gettime<F: FnOnce(TrapFrame) -> TrapFrame>(trap: F, clockid: ClockId, tp: usize) -> (r:
    isize)
    requires
        trap.requires((frame_of(SYS_CLOCK_GETTIME, seq![clockid.0, tp]),)),
    ensures
        traps_to(trap, SYS_CLOCK_GETTIME, seq![clockid.0, tp], r),
{
    syscall2(trap, SyscallId(SYS_CLOCK_GETTIME), clockid.0, tp)
}

} // verus!
