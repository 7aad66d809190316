//! The context that is saved when a program traps into the kernel.

use vstd::prelude::*;

verus! {

/// The SPP bit of `sstatus`: whether the trap came from supervisor mode.
pub const SSTATUS_SPP: usize = 0x100;

/// Trap Context
pub struct TrapContext {
    /// general regs[0..31]
    pub x: [usize; 32],
    /// CSR sstatus
    pub sstatus: usize,
    /// CSR sepc
    pub sepc: usize,
    /// float regs
    pub f: [usize; 32],
    /// float control and state reg
    pub fcsr: usize,
    /// padding for sp align(68*8)
    pub _padding: usize,
}

/// `sstatus` with user mode as the previous privilege mode, and every other bit
/// as it is.
pub open spec fn from_user_mode(sstatus: usize) -> usize {
    (sstatus - (sstatus / SSTATUS_SPP) % 2 * SSTATUS_SPP) as usize
}

/// A file of 32 registers, all zero.
pub open spec fn zero_regs() -> Seq<usize> {
    Seq::new(32, |i: int| 0usize)
}

impl TrapContext {
    /// set stack pointer to x_2 reg (sp)
    pub fn set_sp(&mut self, sp: usize)
        ensures
            final(self).x@ == old(self).x@.update(2, sp),
            *final(self) == (TrapContext { x: final(self).x, ..*old(self) }),
    {
        self.x[2] = sp;
    }

    /// init app context, where CSR sstatus holds `sstatus`
    pub fn app_init_context(entry: usize, sp: usize, sstatus: usize) -> (r: TrapContext)
        ensures
            r.x@ == zero_regs().update(2, sp),
            r.sstatus == from_user_mode(sstatus),
            r.sepc == entry,
            r.f@ == zero_regs(),
            r.fcsr == 0,
            r._padding == 0,
    {
        let cleared: usize = if (sstatus / SSTATUS_SPP) % 2 == 1 {
            sstatus - SSTATUS_SPP
        } else {
            sstatus
        };
        let mut cx = TrapContext {
            x: [0; 32],
            sstatus: cleared,
            sepc: entry,
            f: [0; 32],
            fcsr: 0,
            _padding: 0,
        };
        assert(cx.x@ =~= zero_regs());
        assert(cx.f@ =~= zero_regs());
        cx.set_sp(sp);
        cx
    }
}

/// A new context returns to user mode, and differs from the `sstatus` it was
/// made with in no other bit.
pub proof fn law_context_returns_to_user_mode(sstatus: usize)
    ensures
        from_user_mode(sstatus) & SSTATUS_SPP == 0,
        from_user_mode(sstatus) | SSTATUS_SPP == sstatus | SSTATUS_SPP,
        from_user_mode(from_user_mode(sstatus)) == from_user_mode(sstatus),
{
    let r = from_user_mode(sstatus);
    assert(r == sstatus - (sstatus / 0x100) % 2 * 0x100);
    assert(r & 0x100 == 0 && r | 0x100 == sstatus | 0x100 && (r / 0x100) % 2 == 0)
        by (bit_vector)
        requires
            r == sstatus - (sstatus / 0x100) % 2 * 0x100,
    ;
}

/// A context for user mode has bit 8 of the status cleared and no other bit
/// changed, and 32 registers of zero.
pub proof fn law_user_context(sstatus: usize, i: int)
    requires
        0 <= i < 32,
    ensures
        from_user_mode(sstatus) & 0x100 == 0,
        from_user_mode(sstatus) | 0x100 == sstatus | 0x100,
        zero_regs().len() == 32,
        zero_regs()[i] == 0,
{
    law_context_returns_to_user_mode(sstatus);
}

} // verus!
