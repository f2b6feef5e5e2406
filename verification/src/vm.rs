//! The dispatch engine.
//!
//! A state machine over the address space: fetch one opcode byte at the
//! program counter, decode it through the total opcode table, execute it,
//! and repeat until the exit opcode, a fatal fault, or the step budget runs
//! out. Its whole behavior is the spec-level small-step function
//! [`spec_step`]; the executable engine is proved equal to it.
//!
//! Float opcodes are the one place the engine asks for outside help: it
//! fetches both 4-byte operands and hands them out as a [`StepOut::FloatOp`]
//! request, the caller computes the IEEE754 result and writes it back
//! through the address space, and execution resumes. The engine itself
//! never computes on floats.

use vstd::arithmetic::div_mod::lemma_fundamental_div_mod;
use vstd::arithmetic::mul::lemma_mul_inequality;
use vstd::bytes::spec_u64_to_le_bytes;
use vstd::prelude::*;

use crate::fault::Fault;
use crate::mem::alloc_of;
use crate::mem::first_none;
use crate::mem::loaded_fast;
use crate::mem::Memory;
use crate::mem::MemView;
use crate::mem::FAST_SIZE;
use crate::mem::MAX_FRAME;
use crate::mem::MAX_PAGES;
use crate::mem::OFF_CAP;
use crate::mem::PAGE_SIZE;
use crate::mem::PROG_OFFSET;
use crate::ops::spec_classify;
use crate::ops::spec_decode;
use crate::ops::FloatFam;
use crate::ops::Instr;
use crate::ops::IntFam;
use crate::ops::Op;
use crate::ops::SrcKind;
use crate::ops::Width;

verus! {

/// The mathematical model of a machine: its address space and its program
/// counter.
#[verifier::ext_equal]
pub ghost struct VmView {
    pub mem: MemView,
    pub pc: nat,
}

/// What one step of the machine produced.
#[derive(Clone, Copy, Debug, PartialEq, Eq, Structural)]
pub enum StepOut {
    /// The instruction completed; execution continues.
    KeepGoing,
    /// The exit opcode ran; the byte is the program's exit value.
    Exited(u8),
    /// A float instruction needs its arithmetic done outside: the family,
    /// the destination address, and the two operands' 4-byte contents. The
    /// counter has already moved past the instruction; the caller computes
    /// the result and stores it at the destination.
    FloatOp(FloatFam, u64, u32, u32),
    /// A fatal fault; nothing after it may execute.
    Faulted(Fault),
}

/// What a bounded run of the machine produced.
#[derive(Clone, Copy, Debug, PartialEq, Eq, Structural)]
pub enum RunOut {
    Exited(u8),
    Faulted(Fault),
    /// As [`StepOut::FloatOp`]: the caller does the float arithmetic, writes
    /// the result at the given address, and runs on.
    FloatReq(FloatFam, u64, u32, u32),
    OutOfFuel,
}

/// The value an integer-family operand read produces: one byte, or an
/// 8-byte little-endian word, at `addr`.
pub open spec fn spec_read_val(m: MemView, w: Width, addr: nat) -> Result<u64, Fault> {
    match w {
        Width::W1 => if m.can_read(addr, 1) {
            Ok(m.read_u8_at(addr) as u64)
        } else {
            Err(m.access_fault(addr))
        },
        Width::W8 => if m.can_read(addr, 8) {
            Ok(m.read_u64_at(addr))
        } else {
            Err(m.access_fault(addr))
        },
    }
}

/// The state after storing a value of width `w` at `addr` (the value is
/// taken modulo the width).
pub open spec fn spec_write_val(m: MemView, w: Width, addr: nat, x: u64) -> Result<
    MemView,
    Fault,
> {
    match w {
        Width::W1 => if m.can_read(addr, 1) {
            Ok(m.write_seq(addr, seq![x as u8]))
        } else {
            Err(m.access_fault(addr))
        },
        Width::W8 => if m.can_read(addr, 8) {
            Ok(m.write_seq(addr, spec_u64_to_le_bytes(x)))
        } else {
            Err(m.access_fault(addr))
        },
    }
}

/// Integer arithmetic at the destination's bit width, with wraparound:
/// additive and multiplicative results are reduced modulo the width,
/// division and remainder by zero fault, and shift amounts are reduced
/// modulo the width's bit count. Operands are within the width.
pub open spec fn spec_apply_int(f: IntFam, w: Width, a: u64, b: u64) -> Result<u64, Fault> {
    match w {
        Width::W1 => match f {
            IntFam::Add => Ok((((a + b) % 256) as u64)),
            IntFam::Sub => Ok((((a - b) % 256) as u64)),
            IntFam::Mul => Ok((((a * b) % 256) as u64)),
            IntFam::Div => if b == 0 {
                Err(Fault::DivideByZero)
            } else {
                Ok(a / b)
            },
            IntFam::Mod => if b == 0 {
                Err(Fault::DivideByZero)
            } else {
                Ok(a % b)
            },
            IntFam::Shr => Ok(a >> (b % 8)),
            IntFam::Shl => Ok((a << (b % 8)) & 0xff),
            IntFam::And => Ok(a & b),
            IntFam::Orr => Ok(a | b),
            IntFam::Xor => Ok(a ^ b),
        },
        Width::W8 => match f {
            IntFam::Add => Ok((((a + b) % 0x10000000000000000) as u64)),
            IntFam::Sub => Ok((((a - b) % 0x10000000000000000) as u64)),
            IntFam::Mul => Ok((((a * b) % 0x10000000000000000) as u64)),
            IntFam::Div => if b == 0 {
                Err(Fault::DivideByZero)
            } else {
                Ok(a / b)
            },
            IntFam::Mod => if b == 0 {
                Err(Fault::DivideByZero)
            } else {
                Ok(a % b)
            },
            IntFam::Shr => Ok(a >> (b % 64)),
            IntFam::Shl => Ok(a << (b % 64)),
            IntFam::And => Ok(a & b),
            IntFam::Orr => Ok(a | b),
            IntFam::Xor => Ok(a ^ b),
        },
    }
}

/// One step of an integer-family instruction: fetch the operands (the
/// destination address, then the immediate or the source address), read the
/// destination's current value, read the source value, combine them at the
/// instruction's width, and write the result back at the destination.
pub open spec fn spec_int_step(v: VmView, f: IntFam, w: Width, k: SrcKind) -> (VmView, StepOut) {
    let m = v.mem;
    let pc1 = (v.pc + 1) as nat;
    match k {
        SrcKind::Imm => {
            if !m.can_read(pc1, 8) {
                (v, StepOut::Faulted(m.access_fault(pc1)))
            } else {
                let dst = m.read_u64_at(pc1) as nat;
                match spec_read_val(m, w, dst) {
                    Err(fa) => (v, StepOut::Faulted(fa)),
                    Ok(a) => match spec_read_val(m, w, (pc1 + 8) as nat) {
                        Err(fb) => (v, StepOut::Faulted(fb)),
                        Ok(b) => match spec_apply_int(f, w, a, b) {
                            Err(fr) => (v, StepOut::Faulted(fr)),
                            Ok(res) => match spec_write_val(m, w, dst, res) {
                                Err(fw) => (v, StepOut::Faulted(fw)),
                                Ok(m2) => (
                                    VmView { mem: m2, pc: (pc1 + 8 + w.spec_bytes()) as nat },
                                    StepOut::KeepGoing,
                                ),
                            },
                        },
                    },
                }
            }
        },
        SrcKind::Ptr => {
            if !m.can_read(pc1, 16) {
                (v, StepOut::Faulted(m.access_fault(pc1)))
            } else {
                let dst = m.read_pair_at(pc1).0 as nat;
                let src = m.read_pair_at(pc1).1 as nat;
                match spec_read_val(m, w, dst) {
                    Err(fa) => (v, StepOut::Faulted(fa)),
                    Ok(a) => match spec_read_val(m, w, src) {
                        Err(fb) => (v, StepOut::Faulted(fb)),
                        Ok(b) => match spec_apply_int(f, w, a, b) {
                            Err(fr) => (v, StepOut::Faulted(fr)),
                            Ok(res) => match spec_write_val(m, w, dst, res) {
                                Err(fw) => (v, StepOut::Faulted(fw)),
                                Ok(m2) => (
                                    VmView { mem: m2, pc: (pc1 + 16) as nat },
                                    StepOut::KeepGoing,
                                ),
                            },
                        },
                    },
                }
            }
        },
    }
}

/// One step of a copy instruction: fetch the operands, read the source
/// value (immediate or through its address), and store it at the
/// destination.
pub open spec fn spec_cpy_step(v: VmView, w: Width, k: SrcKind) -> (VmView, StepOut) {
    let m = v.mem;
    let pc1 = (v.pc + 1) as nat;
    match k {
        SrcKind::Imm => {
            if !m.can_read(pc1, 8) {
                (v, StepOut::Faulted(m.access_fault(pc1)))
            } else {
                let dst = m.read_u64_at(pc1) as nat;
                match spec_read_val(m, w, (pc1 + 8) as nat) {
                    Err(fb) => (v, StepOut::Faulted(fb)),
                    Ok(b) => match spec_write_val(m, w, dst, b) {
                        Err(fw) => (v, StepOut::Faulted(fw)),
                        Ok(m2) => (
                            VmView { mem: m2, pc: (pc1 + 8 + w.spec_bytes()) as nat },
                            StepOut::KeepGoing,
                        ),
                    },
                }
            }
        },
        SrcKind::Ptr => {
            if !m.can_read(pc1, 16) {
                (v, StepOut::Faulted(m.access_fault(pc1)))
            } else {
                let dst = m.read_pair_at(pc1).0 as nat;
                let src = m.read_pair_at(pc1).1 as nat;
                match spec_read_val(m, w, src) {
                    Err(fb) => (v, StepOut::Faulted(fb)),
                    Ok(b) => match spec_write_val(m, w, dst, b) {
                        Err(fw) => (v, StepOut::Faulted(fw)),
                        Ok(m2) => (VmView { mem: m2, pc: (pc1 + 16) as nat }, StepOut::KeepGoing),
                    },
                }
            }
        },
    }
}

/// One step of a copy-through instruction: both layouts carry the
/// destination address and then 8 bytes that lead to the final source
/// address — directly (immediate) or through one more load (pointer). The
/// value of the instruction's width at that final address is stored at the
/// destination.
pub open spec fn spec_cpa_step(v: VmView, w: Width, k: SrcKind) -> (VmView, StepOut) {
    let m = v.mem;
    let pc1 = (v.pc + 1) as nat;
    if !m.can_read(pc1, 16) {
        (v, StepOut::Faulted(m.access_fault(pc1)))
    } else {
        let dst = m.read_pair_at(pc1).0 as nat;
        let mid = m.read_pair_at(pc1).1 as nat;
        let ptr_step: Result<nat, Fault> = match k {
            SrcKind::Imm => Ok(mid),
            SrcKind::Ptr => if m.can_read(mid, 8) {
                Ok(m.read_u64_at(mid) as nat)
            } else {
                Err(m.access_fault(mid))
            },
        };
        match ptr_step {
            Err(fp) => (v, StepOut::Faulted(fp)),
            Ok(fin) => match spec_read_val(m, w, fin) {
                Err(fb) => (v, StepOut::Faulted(fb)),
                Ok(b) => match spec_write_val(m, w, dst, b) {
                    Err(fw) => (v, StepOut::Faulted(fw)),
                    Ok(m2) => (VmView { mem: m2, pc: (pc1 + 16) as nat }, StepOut::KeepGoing),
                },
            },
        }
    }
}

/// One step of a float instruction: fetch the destination and source
/// addresses, read 4 bytes at each, and hand the pair out for the caller to
/// combine. Memory is untouched; the counter moves past the instruction.
pub open spec fn spec_flt_step(v: VmView, f: FloatFam) -> (VmView, StepOut) {
    let m = v.mem;
    let pc1 = (v.pc + 1) as nat;
    if !m.can_read(pc1, 16) {
        (v, StepOut::Faulted(m.access_fault(pc1)))
    } else {
        let dst = m.read_pair_at(pc1).0;
        let src = m.read_pair_at(pc1).1;
        if !m.can_read(dst as nat, 4) {
            (v, StepOut::Faulted(m.access_fault(dst as nat)))
        } else if !m.can_read(src as nat, 4) {
            (v, StepOut::Faulted(m.access_fault(src as nat)))
        } else {
            (
                VmView { pc: (pc1 + 16) as nat, ..v },
                StepOut::FloatOp(f, dst, m.read_u32_at(dst as nat), m.read_u32_at(src as nat)),
            )
        }
    }
}

/// One step of the exit instruction: the byte at the program's base offset
/// (the reserved exit-status cell) becomes the exit value.
pub open spec fn spec_xit_step(v: VmView) -> (VmView, StepOut) {
    let m = v.mem;
    let pc1 = (v.pc + 1) as nat;
    if m.can_read(PROG_OFFSET as nat, 1) {
        (VmView { pc: pc1, ..v }, StepOut::Exited(m.read_u8_at(PROG_OFFSET as nat)))
    } else {
        (v, StepOut::Faulted(m.access_fault(PROG_OFFSET as nat)))
    }
}

/// One unconditional jump: the counter becomes the operand address.
pub open spec fn spec_jmp_step(v: VmView) -> (VmView, StepOut) {
    let m = v.mem;
    let pc1 = (v.pc + 1) as nat;
    if !m.can_read(pc1, 8) {
        (v, StepOut::Faulted(m.access_fault(pc1)))
    } else {
        (VmView { pc: m.read_u64_at(pc1) as nat, ..v }, StepOut::KeepGoing)
    }
}

/// One conditional jump: target then test address; the branch is taken when
/// the 8-byte value at the test address is nonzero.
pub open spec fn spec_jit_step(v: VmView) -> (VmView, StepOut) {
    let m = v.mem;
    let pc1 = (v.pc + 1) as nat;
    if !m.can_read(pc1, 16) {
        (v, StepOut::Faulted(m.access_fault(pc1)))
    } else {
        let target = m.read_pair_at(pc1).0;
        let test = m.read_pair_at(pc1).1;
        if !m.can_read(test as nat, 8) {
            (v, StepOut::Faulted(m.access_fault(test as nat)))
        } else if m.read_u64_at(test as nat) != 0 {
            (VmView { pc: target as nat, ..v }, StepOut::KeepGoing)
        } else {
            (VmView { pc: (pc1 + 16) as nat, ..v }, StepOut::KeepGoing)
        }
    }
}

/// One call: the post-operand counter value is pushed on the return stack
/// and the counter becomes the operand address.
pub open spec fn spec_cal_step(v: VmView) -> (VmView, StepOut) {
    let m = v.mem;
    let pc1 = (v.pc + 1) as nat;
    if !m.can_read(pc1, 8) {
        (v, StepOut::Faulted(m.access_fault(pc1)))
    } else if m.sp < 8 {
        (v, StepOut::Faulted(Fault::StackOverflow))
    } else {
        let target = m.read_u64_at(pc1);
        (VmView { mem: m.push_ret((pc1 + 8) as u64), pc: target as nat }, StepOut::KeepGoing)
    }
}

/// One return: the counter becomes the address popped from the return
/// stack.
pub open spec fn spec_ret_step(v: VmView) -> (VmView, StepOut) {
    let m = v.mem;
    if m.sp > FAST_SIZE - 16 {
        (v, StepOut::Faulted(Fault::StackUnderflow))
    } else {
        (VmView { mem: m.pop_ret(), pc: m.pop_val() as nat }, StepOut::KeepGoing)
    }
}

/// One page allocation: the first empty slot (or a fresh one) is filled
/// with zeroes and its address is written into the cell at the operand
/// address. If storing the address then faults, the page stays allocated.
pub open spec fn spec_alp_step(v: VmView) -> (VmView, StepOut) {
    let m = v.mem;
    let pc1 = (v.pc + 1) as nat;
    if !m.can_read(pc1, 8) {
        (v, StepOut::Faulted(m.access_fault(pc1)))
    } else {
        let dst = m.read_u64_at(pc1) as nat;
        if first_none(m.page, 0) is None && m.page.len() >= MAX_PAGES {
            (v, StepOut::Faulted(Fault::OutOfPages))
        } else {
            let m2 = MemView { page: alloc_of(m).0, ..m };
            let a = alloc_of(m).1;
            match spec_write_val(m2, Width::W8, dst, a as u64) {
                Err(fw) => (VmView { mem: m2, ..v }, StepOut::Faulted(fw)),
                Ok(m3) => (VmView { mem: m3, pc: (pc1 + 8) as nat }, StepOut::KeepGoing),
            }
        }
    }
}

/// One page free: the value stored at the operand address names the page,
/// and its slot is emptied.
pub open spec fn spec_frp_step(v: VmView) -> (VmView, StepOut) {
    let m = v.mem;
    let pc1 = (v.pc + 1) as nat;
    if !m.can_read(pc1, 8) {
        (v, StepOut::Faulted(m.access_fault(pc1)))
    } else {
        let src = m.read_u64_at(pc1) as nat;
        if !m.can_read(src, 8) {
            (v, StepOut::Faulted(m.access_fault(src)))
        } else {
            let a = m.read_u64_at(src);
            if a < MAX_FRAME + FAST_SIZE as u64 {
                (v, StepOut::Faulted(Fault::FreeUnallocated))
            } else {
                let i = ((a - MAX_FRAME - FAST_SIZE) as nat) / (PAGE_SIZE as nat);
                if i >= m.page.len() || m.page[i as int] is None {
                    (v, StepOut::Faulted(Fault::FreeUnallocated))
                } else {
                    (
                        VmView {
                            mem: MemView { page: m.page.update(i as int, None), ..m },
                            pc: (pc1 + 8) as nat,
                        },
                        StepOut::KeepGoing,
                    )
                }
            }
        }
    }
}

/// One step of the machine on a decoded instruction class.
pub open spec fn spec_step_instr(v: VmView, ins: Instr) -> (VmView, StepOut) {
    match ins {
        Instr::Nop => (VmView { pc: (v.pc + 1) as nat, ..v }, StepOut::KeepGoing),
        Instr::Xit => spec_xit_step(v),
        Instr::Int(f, w, k) => spec_int_step(v, f, w, k),
        Instr::Flt(f) => spec_flt_step(v, f),
        Instr::Cpy(w, k) => spec_cpy_step(v, w, k),
        Instr::Cpa(w, k) => spec_cpa_step(v, w, k),
        Instr::Jmp => spec_jmp_step(v),
        Instr::Jit => spec_jit_step(v),
        Instr::Cal => spec_cal_step(v),
        Instr::Ret => spec_ret_step(v),
        Instr::Alp => spec_alp_step(v),
        Instr::Frp => spec_frp_step(v),
        Instr::Reserved => (v, StepOut::Faulted(Fault::ReservedOpcode)),
    }
}

/// One step of the machine: fetch the opcode byte at the counter, decode it
/// through the total table, and execute it. On any fault the state is the
/// one the instruction had reached (reads change nothing; the page table
/// keeps a page allocated even if storing its address then faults).
pub open spec fn spec_step(v: VmView) -> (VmView, StepOut) {
    let m = v.mem;
    if !m.can_read(v.pc, 1) {
        (v, StepOut::Faulted(m.access_fault(v.pc)))
    } else {
        match spec_decode(m.read_u8_at(v.pc)) {
            None => (v, StepOut::Faulted(Fault::UnknownOpcode)),
            Some(op) => spec_step_instr(v, spec_classify(op)),
        }
    }
}

/// At most `fuel` steps of the machine, stopping early at anything that is
/// not a completed instruction.
pub open spec fn spec_run(v: VmView, fuel: nat) -> (VmView, RunOut)
    decreases fuel,
{
    if fuel == 0 {
        (v, RunOut::OutOfFuel)
    } else {
        let s = spec_step(v);
        match s.1 {
            StepOut::KeepGoing => spec_run(s.0, (fuel - 1) as nat),
            StepOut::Exited(c) => (s.0, RunOut::Exited(c)),
            StepOut::FloatOp(f, d, x, y) => (s.0, RunOut::FloatReq(f, d, x, y)),
            StepOut::Faulted(f) => (s.0, RunOut::Faulted(f)),
        }
    }
}

/// Read a value of width `w` at `addr`.
fn read_val(m: &Memory, w: Width, addr: u64) -> (r: Result<u64, Fault>)
    requires
        m@.wf(),
    ensures
        r == spec_read_val(m@, w, addr as nat),
        r matches Ok(x) ==> (w == Width::W1 ==> x < 256),
{
    match w {
        Width::W1 => match m.read_u8(addr) {
            Ok(b) => Ok(b as u64),
            Err(f) => Err(f),
        },
        Width::W8 => m.get1(addr),
    }
}

/// Write a value of width `w` at `addr`.
fn write_val(m: &mut Memory, w: Width, addr: u64, x: u64) -> (r: Result<(), Fault>)
    requires
        old(m)@.wf(),
    ensures
        final(m)@.wf(),
        match spec_write_val(old(m)@, w, addr as nat, x) {
            Ok(m2) => r is Ok && final(m)@ == m2,
            Err(f) => r == Err::<(), Fault>(f) && final(m)@ == old(m)@,
        },
{
    match w {
        Width::W1 => m.write_u8(addr, #[verifier::truncate] (x as u8)),
        Width::W8 => m.write_u64(addr, x),
    }
}

/// Combine two width-ranged values under an integer family, wrapping at the
/// width.
fn apply_int(f: IntFam, w: Width, a: u64, b: u64) -> (r: Result<u64, Fault>)
    requires
        w == Width::W1 ==> a < 256 && b < 256,
    ensures
        r == spec_apply_int(f, w, a, b),
{
    match w {
        Width::W1 => match f {
            IntFam::Add => Ok((a + b) % 256),
            IntFam::Sub => {
                let r = (a + 256 - b) % 256;
                proof {
                    vstd::arithmetic::div_mod::lemma_mod_add_multiples_vanish(
                        a as int - b as int,
                        256,
                    );
                }
                Ok(r)
            },
            IntFam::Mul => {
                proof {
                    assert(a * b <= 255 * 255) by (nonlinear_arith)
                        requires
                            a < 256,
                            b < 256,
                    ;
                }
                Ok((a * b) % 256)
            },
            IntFam::Div => if b == 0 {
                Err(Fault::DivideByZero)
            } else {
                Ok(a / b)
            },
            IntFam::Mod => if b == 0 {
                Err(Fault::DivideByZero)
            } else {
                Ok(a % b)
            },
            IntFam::Shr => Ok(a >> (b % 8)),
            IntFam::Shl => Ok((a << (b % 8)) & 0xff),
            IntFam::And => Ok(a & b),
            IntFam::Orr => Ok(a | b),
            IntFam::Xor => Ok(a ^ b),
        },
        Width::W8 => match f {
            IntFam::Add => {
                let wide = ((a as u128) + (b as u128)) % 0x10000000000000000u128;
                Ok(wide as u64)
            },
            IntFam::Sub => {
                let wide = ((a as u128) + 0x10000000000000000u128 - (b as u128))
                    % 0x10000000000000000u128;
                proof {
                    vstd::arithmetic::div_mod::lemma_mod_add_multiples_vanish(
                        a as int - b as int,
                        0x10000000000000000,
                    );
                }
                Ok(wide as u64)
            },
            IntFam::Mul => {
                proof {
                    assert((a as u128) * (b as u128) <= (0xffffffffffffffffu128)
                        * (0xffffffffffffffffu128)) by (nonlinear_arith)
                        requires
                            a <= 0xffffffffffffffffu64,
                            b <= 0xffffffffffffffffu64,
                    ;
                }
                let wide = ((a as u128) * (b as u128)) % 0x10000000000000000u128;
                Ok(wide as u64)
            },
            IntFam::Div => if b == 0 {
                Err(Fault::DivideByZero)
            } else {
                Ok(a / b)
            },
            IntFam::Mod => if b == 0 {
                Err(Fault::DivideByZero)
            } else {
                Ok(a % b)
            },
            IntFam::Shr => Ok(a >> (b % 64)),
            IntFam::Shl => Ok(a << (b % 64)),
            IntFam::And => Ok(a & b),
            IntFam::Orr => Ok(a | b),
            IntFam::Xor => Ok(a ^ b),
        },
    }
}

/// A readable address is far below the top of the address range, so counter
/// arithmetic past an instruction cannot overflow.
pub proof fn lemma_can_read_bound(m: MemView, addr: nat, n: nat)
    requires
        m.wf(),
        m.can_read(addr, n),
        n >= 1,
    ensures
        addr < MAX_FRAME + OFF_CAP,
{
    if addr >= MAX_FRAME {
        let off = (addr - MAX_FRAME) as nat;
        assert(m.byte_at((off + 0) as nat) is Some);
        if off >= FAST_SIZE {
            let rel = (off - FAST_SIZE) as nat;
            let p = rel / (PAGE_SIZE as nat);
            let q = rel % (PAGE_SIZE as nat);
            lemma_fundamental_div_mod(rel as int, PAGE_SIZE as int);
            assert(p < m.page.len());
            assert((p + 1) * PAGE_SIZE <= MAX_PAGES * PAGE_SIZE) by {
                lemma_mul_inequality((p + 1) as int, MAX_PAGES as int, PAGE_SIZE as int);
            }
            assert(rel < (p + 1) * PAGE_SIZE) by (nonlinear_arith)
                requires
                    rel == p * PAGE_SIZE + q,
                    q < PAGE_SIZE,
            ;
        }
    }
}

/// The machine: an exclusively owned address space and the program counter.
pub struct Vm {
    pub mem: Memory,
    pub pc: u64,
}

impl View for Vm {
    type V = VmView;

    open spec fn view(&self) -> VmView {
        VmView { mem: self.mem@, pc: self.pc as nat }
    }
}

impl Vm {
    /// One integer-family instruction, from just past the opcode byte.
    #[verifier::spinoff_prover]
    fn step_int(&mut self, fam: IntFam, w: Width, k: SrcKind, pc1: u64) -> (r: StepOut)
        requires
            old(self)@.mem.wf(),
            pc1 as nat == old(self)@.pc + 1,
            pc1 < 0xffff_ffff_0000_0000u64,
        ensures
            final(self)@.mem.wf(),
            final(self)@ == spec_int_step(old(self)@, fam, w, k).0,
            r == spec_int_step(old(self)@, fam, w, k).1,
    {
        let (dst, b_val, pc2) = match k {
            SrcKind::Imm => {
                let dst = match self.mem.get1(pc1) {
                    Ok(x) => x,
                    Err(f) => {
                        return StepOut::Faulted(f);
                    },
                };
                let a = match read_val(&self.mem, w, dst) {
                    Ok(x) => x,
                    Err(f) => {
                        return StepOut::Faulted(f);
                    },
                };
                let bv = match read_val(&self.mem, w, pc1 + 8) {
                    Ok(x) => x,
                    Err(f) => {
                        return StepOut::Faulted(f);
                    },
                };
                let res = match apply_int(fam, w, a, bv) {
                    Ok(x) => x,
                    Err(f) => {
                        return StepOut::Faulted(f);
                    },
                };
                (dst, res, pc1 + 8 + w.bytes())
            },
            SrcKind::Ptr => {
                let pair = match self.mem.get2(pc1) {
                    Ok(p) => p,
                    Err(f) => {
                        return StepOut::Faulted(f);
                    },
                };
                let dst = pair[0];
                let src = pair[1];
                let a = match read_val(&self.mem, w, dst) {
                    Ok(x) => x,
                    Err(f) => {
                        return StepOut::Faulted(f);
                    },
                };
                let bv = match read_val(&self.mem, w, src) {
                    Ok(x) => x,
                    Err(f) => {
                        return StepOut::Faulted(f);
                    },
                };
                let res = match apply_int(fam, w, a, bv) {
                    Ok(x) => x,
                    Err(f) => {
                        return StepOut::Faulted(f);
                    },
                };
                (dst, res, pc1 + 16)
            },
        };
        match write_val(&mut self.mem, w, dst, b_val) {
            Ok(_) => {
                self.pc = pc2;
                StepOut::KeepGoing
            },
            Err(f) => StepOut::Faulted(f),
        }
    }

    /// One copy instruction, from just past the opcode byte.
    #[verifier::spinoff_prover]
    fn step_cpy(&mut self, w: Width, k: SrcKind, pc1: u64) -> (r: StepOut)
        requires
            old(self)@.mem.wf(),
            pc1 as nat == old(self)@.pc + 1,
            pc1 < 0xffff_ffff_0000_0000u64,
        ensures
            final(self)@.mem.wf(),
            final(self)@ == spec_cpy_step(old(self)@, w, k).0,
            r == spec_cpy_step(old(self)@, w, k).1,
    {
        let (dst, b_val, pc2) = match k {
            SrcKind::Imm => {
                let dst = match self.mem.get1(pc1) {
                    Ok(x) => x,
                    Err(f) => {
                        return StepOut::Faulted(f);
                    },
                };
                let bv = match read_val(&self.mem, w, pc1 + 8) {
                    Ok(x) => x,
                    Err(f) => {
                        return StepOut::Faulted(f);
                    },
                };
                (dst, bv, pc1 + 8 + w.bytes())
            },
            SrcKind::Ptr => {
                let pair = match self.mem.get2(pc1) {
                    Ok(p) => p,
                    Err(f) => {
                        return StepOut::Faulted(f);
                    },
                };
                let bv = match read_val(&self.mem, w, pair[1]) {
                    Ok(x) => x,
                    Err(f) => {
                        return StepOut::Faulted(f);
                    },
                };
                (pair[0], bv, pc1 + 16)
            },
        };
        match write_val(&mut self.mem, w, dst, b_val) {
            Ok(_) => {
                self.pc = pc2;
                StepOut::KeepGoing
            },
            Err(f) => StepOut::Faulted(f),
        }
    }

    /// One copy-through instruction, from just past the opcode byte.
    #[verifier::spinoff_prover]
    fn step_cpa(&mut self, w: Width, k: SrcKind, pc1: u64) -> (r: StepOut)
        requires
            old(self)@.mem.wf(),
            pc1 as nat == old(self)@.pc + 1,
            pc1 < 0xffff_ffff_0000_0000u64,
        ensures
            final(self)@.mem.wf(),
            final(self)@ == spec_cpa_step(old(self)@, w, k).0,
            r == spec_cpa_step(old(self)@, w, k).1,
    {
        let pair = match self.mem.get2(pc1) {
            Ok(p) => p,
            Err(f) => {
                return StepOut::Faulted(f);
            },
        };
        let dst = pair[0];
        let mid = pair[1];
        let fin = match k {
            SrcKind::Imm => mid,
            SrcKind::Ptr => match self.mem.get1(mid) {
                Ok(x) => x,
                Err(f) => {
                    return StepOut::Faulted(f);
                },
            },
        };
        let bv = match read_val(&self.mem, w, fin) {
            Ok(x) => x,
            Err(f) => {
                return StepOut::Faulted(f);
            },
        };
        match write_val(&mut self.mem, w, dst, bv) {
            Ok(_) => {
                self.pc = pc1 + 16;
                StepOut::KeepGoing
            },
            Err(f) => StepOut::Faulted(f),
        }
    }

    /// One float instruction, from just past the opcode byte: fetch both
    /// operands and hand the arithmetic out.
    #[verifier::spinoff_prover]
    fn step_flt(&mut self, fam: FloatFam, pc1: u64) -> (r: StepOut)
        requires
            old(self)@.mem.wf(),
            pc1 as nat == old(self)@.pc + 1,
            pc1 < 0xffff_ffff_0000_0000u64,
        ensures
            final(self)@.mem.wf(),
            final(self)@ == spec_flt_step(old(self)@, fam).0,
            r == spec_flt_step(old(self)@, fam).1,
    {
        let pair = match self.mem.get2(pc1) {
            Ok(p) => p,
            Err(f) => {
                return StepOut::Faulted(f);
            },
        };
        let dst = pair[0];
        let src = pair[1];
        let lhs = match self.mem.read_u32(dst) {
            Ok(x) => x,
            Err(f) => {
                return StepOut::Faulted(f);
            },
        };
        let rhs = match self.mem.read_u32(src) {
            Ok(x) => x,
            Err(f) => {
                return StepOut::Faulted(f);
            },
        };
        self.pc = pc1 + 16;
        StepOut::FloatOp(fam, dst, lhs, rhs)
    }

    /// Execute one instruction. The machine afterwards, and what the
    /// instruction produced, are exactly what the spec-level step says.
    #[verifier::rlimit(60)]
    #[verifier::spinoff_prover]
    pub fn step(&mut self) -> (r: StepOut)
        requires
            old(self)@.mem.wf(),
        ensures
            final(self)@.mem.wf(),
            final(self)@ == spec_step(old(self)@).0,
            r == spec_step(old(self)@).1,
    {
        let ghost v0 = self@;
        let pc = self.pc;
        let b = match self.mem.read_u8(pc) {
            Ok(b) => b,
            Err(f) => {
                return StepOut::Faulted(f);
            },
        };
        proof {
            lemma_can_read_bound(self.mem@, pc as nat, 1);
        }
        let op = match Op::from_byte(b) {
            Some(op) => op,
            None => {
                return StepOut::Faulted(Fault::UnknownOpcode);
            },
        };
        let pc1 = pc + 1;
        proof {
            assert(spec_step(v0) == spec_step_instr(v0, spec_classify(op)));
        }
        match op.classify() {
            Instr::Nop => {
                self.pc = pc1;
                StepOut::KeepGoing
            },
            Instr::Xit => self.step_xit(pc1),
            Instr::Int(fam, w, k) => self.step_int(fam, w, k, pc1),
            Instr::Flt(fam) => self.step_flt(fam, pc1),
            Instr::Cpy(w, k) => self.step_cpy(w, k, pc1),
            Instr::Cpa(w, k) => self.step_cpa(w, k, pc1),
            Instr::Jmp => self.step_jmp(pc1),
            Instr::Jit => self.step_jit(pc1),
            Instr::Cal => self.step_cal(pc1),
            Instr::Ret => self.step_ret(),
            Instr::Alp => self.step_alp(pc1),
            Instr::Frp => self.step_frp(pc1),
            Instr::Reserved => StepOut::Faulted(Fault::ReservedOpcode),
        }
    }

    /// The exit instruction.
    #[verifier::spinoff_prover]
    fn step_xit(&mut self, pc1: u64) -> (r: StepOut)
        requires
            old(self)@.mem.wf(),
            pc1 as nat == old(self)@.pc + 1,
        ensures
            final(self)@.mem.wf(),
            final(self)@ == spec_xit_step(old(self)@).0,
            r == spec_xit_step(old(self)@).1,
    {
        match self.mem.read_u8(PROG_OFFSET) {
            Ok(code) => {
                self.pc = pc1;
                StepOut::Exited(code)
            },
            Err(f) => StepOut::Faulted(f),
        }
    }

    /// The unconditional jump.
    #[verifier::spinoff_prover]
    fn step_jmp(&mut self, pc1: u64) -> (r: StepOut)
        requires
            old(self)@.mem.wf(),
            pc1 as nat == old(self)@.pc + 1,
        ensures
            final(self)@.mem.wf(),
            final(self)@ == spec_jmp_step(old(self)@).0,
            r == spec_jmp_step(old(self)@).1,
    {
        match self.mem.get1(pc1) {
            Ok(target) => {
                self.pc = target;
                StepOut::KeepGoing
            },
            Err(f) => StepOut::Faulted(f),
        }
    }

    /// The conditional jump.
    #[verifier::spinoff_prover]
    fn step_jit(&mut self, pc1: u64) -> (r: StepOut)
        requires
            old(self)@.mem.wf(),
            pc1 as nat == old(self)@.pc + 1,
            pc1 < 0xffff_ffff_0000_0000u64,
        ensures
            final(self)@.mem.wf(),
            final(self)@ == spec_jit_step(old(self)@).0,
            r == spec_jit_step(old(self)@).1,
    {
        let pair = match self.mem.get2(pc1) {
            Ok(p) => p,
            Err(f) => {
                return StepOut::Faulted(f);
            },
        };
        let cond = match self.mem.get1(pair[1]) {
            Ok(x) => x,
            Err(f) => {
                return StepOut::Faulted(f);
            },
        };
        if cond != 0 {
            self.pc = pair[0];
        } else {
            self.pc = pc1 + 16;
        }
        StepOut::KeepGoing
    }

    /// The call instruction.
    #[verifier::spinoff_prover]
    fn step_cal(&mut self, pc1: u64) -> (r: StepOut)
        requires
            old(self)@.mem.wf(),
            pc1 as nat == old(self)@.pc + 1,
            pc1 < 0xffff_ffff_0000_0000u64,
        ensures
            final(self)@.mem.wf(),
            final(self)@ == spec_cal_step(old(self)@).0,
            r == spec_cal_step(old(self)@).1,
    {
        let target = match self.mem.get1(pc1) {
            Ok(x) => x,
            Err(f) => {
                return StepOut::Faulted(f);
            },
        };
        match self.mem.push_addr(pc1 + 8) {
            Ok(_) => {
                self.pc = target;
                StepOut::KeepGoing
            },
            Err(f) => StepOut::Faulted(f),
        }
    }

    /// The return instruction.
    #[verifier::spinoff_prover]
    fn step_ret(&mut self) -> (r: StepOut)
        requires
            old(self)@.mem.wf(),
        ensures
            final(self)@.mem.wf(),
            final(self)@ == spec_ret_step(old(self)@).0,
            r == spec_ret_step(old(self)@).1,
    {
        match self.mem.pop_addr() {
            Ok(a) => {
                self.pc = a;
                StepOut::KeepGoing
            },
            Err(f) => StepOut::Faulted(f),
        }
    }

    /// The page-allocation instruction.
    #[verifier::spinoff_prover]
    fn step_alp(&mut self, pc1: u64) -> (r: StepOut)
        requires
            old(self)@.mem.wf(),
            pc1 as nat == old(self)@.pc + 1,
            pc1 < 0xffff_ffff_0000_0000u64,
        ensures
            final(self)@.mem.wf(),
            final(self)@ == spec_alp_step(old(self)@).0,
            r == spec_alp_step(old(self)@).1,
    {
        let dst = match self.mem.get1(pc1) {
            Ok(x) => x,
            Err(f) => {
                return StepOut::Faulted(f);
            },
        };
        let a = match self.mem.alloc_page() {
            Ok(x) => x,
            Err(f) => {
                return StepOut::Faulted(f);
            },
        };
        match self.mem.write_u64(dst, a) {
            Ok(_) => {
                self.pc = pc1 + 8;
                StepOut::KeepGoing
            },
            Err(f) => StepOut::Faulted(f),
        }
    }

    /// The page-free instruction.
    #[verifier::spinoff_prover]
    fn step_frp(&mut self, pc1: u64) -> (r: StepOut)
        requires
            old(self)@.mem.wf(),
            pc1 as nat == old(self)@.pc + 1,
            pc1 < 0xffff_ffff_0000_0000u64,
        ensures
            final(self)@.mem.wf(),
            final(self)@ == spec_frp_step(old(self)@).0,
            r == spec_frp_step(old(self)@).1,
    {
        let src = match self.mem.get1(pc1) {
            Ok(x) => x,
            Err(f) => {
                return StepOut::Faulted(f);
            },
        };
        let a = match self.mem.get1(src) {
            Ok(x) => x,
            Err(f) => {
                return StepOut::Faulted(f);
            },
        };
        match self.mem.free_page(a) {
            Ok(_) => {
                self.pc = pc1 + 8;
                StepOut::KeepGoing
            },
            Err(f) => StepOut::Faulted(f),
        }
    }

    /// Run up to `fuel` instructions, stopping at exit, at a fault, or at a
    /// float request. The machine afterwards, and the outcome, are exactly
    /// what the spec-level bounded run says.
    pub fn run(&mut self, fuel: u64) -> (r: RunOut)
        requires
            old(self)@.mem.wf(),
        ensures
            final(self)@.mem.wf(),
            final(self)@ == spec_run(old(self)@, fuel as nat).0,
            r == spec_run(old(self)@, fuel as nat).1,
    {
        let mut left: u64 = fuel;
        while left > 0
            invariant
                self@.mem.wf(),
                spec_run(old(self)@, fuel as nat) == spec_run(self@, left as nat),
            decreases left,
        {
            let ghost pre = self@;
            let out = self.step();
            match out {
                StepOut::KeepGoing => {},
                StepOut::Exited(c) => {
                    return RunOut::Exited(c);
                },
                StepOut::FloatOp(f, d, x, y) => {
                    return RunOut::FloatReq(f, d, x, y);
                },
                StepOut::Faulted(f) => {
                    return RunOut::Faulted(f);
                },
            }
            left = left - 1;
        }
        RunOut::OutOfFuel
    }

    /// Load a compiled program buffer (its leading byte is the reserved
    /// exit-status cell) and point the counter at the first instruction.
    pub fn boot(program: &Vec<u8>) -> (vm: Vm)
        requires
            1 <= program.len() <= FAST_SIZE,
        ensures
            vm@.mem.wf(),
            vm@ == boot_view(program@),
    {
        let mut code: Vec<u8> = Vec::new();
        let mut i: usize = 1;
        while i < program.len()
            invariant
                1 <= i <= program.len(),
                program.len() <= FAST_SIZE,
                code@ =~= program@.subrange(1, i as int),
            decreases program.len() - i,
        {
            code.push(program[i]);
            proof {
                assert(code@ =~= program@.subrange(1, i + 1 as int));
            }
            i = i + 1;
        }
        let mem = Memory::new(&code);
        let vm = Vm { mem, pc: PROG_OFFSET + 1 };
        proof {
            assert(vm@ =~= boot_view(program@));
        }
        vm
    }

    /// Boot a program and run it on a fuel budget.
    pub fn eval(program: &Vec<u8>, fuel: u64) -> (r: RunOut)
        requires
            1 <= program.len() <= FAST_SIZE,
        ensures
            r == spec_run(boot_view(program@), fuel as nat).1,
    {
        let mut vm = Vm::boot(program);
        vm.run(fuel)
    }
}

/// Fixed-width arithmetic wraps at the destination's width: additive,
/// subtractive and multiplicative results are their mathematical value
/// modulo the width, at every operand value the width admits.
pub proof fn lemma_arith_wraps(a: u64, b: u64)
    ensures
        a < 256 && b < 256 ==> {
            &&& spec_apply_int(IntFam::Add, Width::W1, a, b) == Ok::<u64, Fault>(
                (((a + b) % 256) as u64),
            )
            &&& spec_apply_int(IntFam::Sub, Width::W1, a, b) == Ok::<u64, Fault>(
                (((a - b) % 256) as u64),
            )
            &&& spec_apply_int(IntFam::Mul, Width::W1, a, b) == Ok::<u64, Fault>(
                (((a * b) % 256) as u64),
            )
        },
        spec_apply_int(IntFam::Add, Width::W8, a, b) == Ok::<u64, Fault>(
            (((a + b) % 0x10000000000000000) as u64),
        ),
        spec_apply_int(IntFam::Sub, Width::W8, a, b) == Ok::<u64, Fault>(
            (((a - b) % 0x10000000000000000) as u64),
        ),
        spec_apply_int(IntFam::Mul, Width::W8, a, b) == Ok::<u64, Fault>(
            (((a * b) % 0x10000000000000000) as u64),
        ),
{
}

/// Dividing or taking a remainder by zero is a fault, never a value, at
/// either width.
pub proof fn lemma_div_zero_faults(a: u64, w: Width)
    ensures
        spec_apply_int(IntFam::Div, w, a, 0) == Err::<u64, Fault>(Fault::DivideByZero),
        spec_apply_int(IntFam::Mod, w, a, 0) == Err::<u64, Fault>(Fault::DivideByZero),
{
}

/// Address 0 can be neither read nor written: any access there is the
/// null-address fault, never a silent no-op.
pub proof fn lemma_null_access_faults(m: MemView, w: Width, x: u64)
    ensures
        spec_read_val(m, w, 0) == Err::<u64, Fault>(Fault::NullAddress),
        spec_write_val(m, w, 0, x) == Err::<MemView, Fault>(Fault::NullAddress),
{
    assert(m.resolve(0) is None);
}

/// A call followed at once by a return resumes at the instruction after
/// the call's operand, not at the call target again: the call pushed the
/// post-operand counter, and the return pops exactly it.
pub proof fn lemma_cal_then_ret(v: VmView)
    requires
        v.mem.wf(),
        v.mem.can_read(v.pc, 1),
        spec_decode(v.mem.read_u8_at(v.pc)) == Some(Op::CAL),
        spec_step(v).1 == StepOut::KeepGoing,
        ({
            let v1 = spec_step(v).0;
            &&& v1.mem.can_read(v1.pc, 1)
            &&& spec_decode(v1.mem.read_u8_at(v1.pc)) == Some(Op::RET)
        }),
    ensures
        spec_step(spec_step(v).0).1 == StepOut::KeepGoing,
        spec_step(spec_step(v).0).0.pc == v.pc + 9,
{
    lemma_can_read_bound(v.mem, v.pc, 1);
    let m = v.mem;
    let pc1 = (v.pc + 1) as nat;
    assert(spec_step(v) == spec_cal_step(v));
    assert(m.can_read(pc1, 8) && m.sp >= 8);
    let v1 = spec_step(v).0;
    let m1 = v1.mem;
    assert(m1 == m.push_ret((pc1 + 8) as u64));
    crate::mem::lemma_push_then_pop(m, (pc1 + 8) as u64);
    assert(m1.sp == m.sp - 8);
    assert(m1.sp <= FAST_SIZE - 16);
    assert(spec_step(v1) == spec_ret_step(v1));
    assert(spec_step(v1).0.pc == m1.pop_val() as nat);
    assert(m1.pop_val() == (pc1 + 8) as u64);
    assert((pc1 + 8) as u64 as nat == v.pc + 9);
}

/// A return is decided by the stack pointer and the top return slot alone:
/// two states that agree there pop the same resume address, however much
/// execution lay between a call and its return.
pub proof fn lemma_ret_reads_only_stack_top(m1: MemView, m2: MemView)
    requires
        m1.sp == m2.sp,
        forall|i: int|
            0 <= i < 8 ==> #[trigger] m1.byte_at((m1.sp + 8 + i) as nat) == m2.byte_at(
                (m2.sp + 8 + i) as nat,
            ),
    ensures
        m1.pop_val() == m2.pop_val(),
{
    assert(Seq::new(8, |i: int| m1.byte0((m1.sp + 8 + i) as nat)) =~= Seq::new(
        8,
        |i: int| m2.byte0((m2.sp + 8 + i) as nat),
    ));
}

/// The machine a program buffer boots into: the buffer's bytes past the
/// reserved leading one sit at linear offsets 1 onward, the page table is
/// empty, the stack pointer is at the top of the fast region, and the
/// counter is at the first instruction.
pub open spec fn boot_view(program: Seq<u8>) -> VmView {
    VmView {
        mem: MemView {
            fast: loaded_fast(program.subrange(1, program.len() as int)),
            page: Seq::empty(),
            sp: (FAST_SIZE - 8) as nat,
        },
        pc: (PROG_OFFSET + 1) as nat,
    }
}

} // verus!
