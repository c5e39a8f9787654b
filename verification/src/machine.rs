//! A model of the few AArch64 instructions the guest programs use, for
//! stating what those programs do.

use crate::guest::{RegWrite, CODE_GPA, DOORBELL_GPA};
use crate::hvf::HV_REG_PC;
use vstd::prelude::*;

verus! {

/// One more than the largest 64-bit number.
pub open spec fn two64() -> int {
    0x1_0000_0000_0000_0000
}

/// A decoded instruction. Branch offsets count instructions.
pub enum Insn {
    /// `str xt, [xn]`
    Store { rt: int, rn: int },
    /// `ldr xt, [xn]`
    Load { rt: int, rn: int },
    /// `add xd, xn, #imm`
    Add { rd: int, rn: int, imm: int },
    /// `cmp xn, xm`
    Compare { rn: int, rm: int },
    /// `mov xd, xm`
    Move { rd: int, rm: int },
    /// `b.eq`
    BranchEqual { off: int },
    /// `b.lo`
    BranchLower { off: int },
    /// `b`
    Branch { off: int },
    /// `wfi`
    Wait,
}

/// A field of `n` values read as a two's complement number.
pub open spec fn as_signed(v: int, n: int) -> int {
    if v < n / 2 {
        v
    } else {
        v - n
    }
}

/// The instruction a word encodes, where it is one of those above. Forms in
/// which register 31 means the stack pointer or a discarded result are left
/// out.
pub open spec fn decode(word: u32) -> Option<Insn> {
    let w = word as int;
    let low = w % 32;
    let mid = w / 0x20 % 32;
    let high = w / 0x1_0000 % 32;
    let imm6 = w / 0x400 % 64;
    if w / 0x400 == 0x3E_4000 && mid != 31 {
        Some(Insn::Store { rt: low, rn: mid })
    } else if w / 0x400 == 0x3E_5000 && mid != 31 && low != 31 {
        Some(Insn::Load { rt: low, rn: mid })
    } else if w / 0x80_0000 == 0x122 && mid != 31 && low != 31 {
        let imm12 = w / 0x400 % 0x1000;
        Some(
            Insn::Add {
                rd: low,
                rn: mid,
                imm: if w / 0x40_0000 % 2 == 1 {
                    imm12 * 0x1000
                } else {
                    imm12
                },
            },
        )
    } else if w / 0x20_0000 == 0x758 && imm6 == 0 && low == 31 {
        Some(Insn::Compare { rn: mid, rm: high })
    } else if w / 0x20_0000 == 0x550 && imm6 == 0 && mid == 31 && low != 31 {
        Some(Insn::Move { rd: low, rm: high })
    } else if w / 0x100_0000 == 0x54 && w % 32 == 0 {
        Some(Insn::BranchEqual { off: as_signed(w / 0x20 % 0x8_0000, 0x8_0000) })
    } else if w / 0x100_0000 == 0x54 && w % 32 == 3 {
        Some(Insn::BranchLower { off: as_signed(w / 0x20 % 0x8_0000, 0x8_0000) })
    } else if w / 0x400_0000 == 5 {
        Some(Insn::Branch { off: as_signed(w % 0x400_0000, 0x400_0000) })
    } else if w == 0xD503_207F {
        Some(Insn::Wait)
    } else {
        None
    }
}

/// The state of a vCPU and the memory it sees, by 64-bit words.
pub struct Cpu {
    /// x0 to x30.
    pub x: Seq<int>,
    pub pc: int,
    /// The last comparison found the operands equal.
    pub equal: bool,
    /// The last comparison found the first operand lower, unsigned.
    pub lower: bool,
    pub mem: Map<int, int>,
}

/// What one instruction leads to.
pub enum Step {
    Next(Cpu),
    /// A store to the doorbell leaves the guest; nothing is written.
    Doorbell,
    /// The guest waits for an interrupt that never comes.
    Waiting,
    /// No instruction of the model.
    Undefined,
}

impl Cpu {
    /// The value of register `r` as an operand; register 31 reads as zero.
    pub open spec fn reg(self, r: int) -> int {
        if r == 31 {
            0
        } else {
            self.x[r]
        }
    }

    /// The state with register `r` set and the next instruction reached.
    pub open spec fn set(self, r: int, v: int) -> Cpu {
        Cpu { x: self.x.update(r, v), pc: self.pc + 4, ..self }
    }

    /// A register write from the host.
    pub open spec fn written(self, w: RegWrite) -> Cpu {
        if w.reg == HV_REG_PC {
            Cpu { pc: w.value as int, ..self }
        } else {
            Cpu { x: self.x.update(w.reg as int, w.value as int), ..self }
        }
    }

    /// Register writes from the host, in order.
    pub open spec fn all_written(self, ws: Seq<RegWrite>) -> Cpu
        decreases ws.len(),
    {
        if ws.len() == 0 {
            self
        } else {
            self.all_written(ws.drop_last()).written(ws.last())
        }
    }

    /// Registers are there and hold 64-bit numbers; memory is there and holds
    /// 64-bit words.
    pub open spec fn wf(self) -> bool {
        &&& self.x.len() == 31
        &&& forall|r: int| 0 <= r < 31 ==> 0 <= #[trigger] self.x[r] < two64()
        &&& forall|a: int| #[trigger] self.mem.dom().contains(a)
        &&& forall|a: int| 0 <= #[trigger] self.mem[a] < two64()
    }
}

/// One instruction of the code page `page`.
pub open spec fn step(page: Seq<u32>, c: Cpu) -> Step {
    match decode(page[(c.pc - CODE_GPA) / 4]) {
        None => Step::Undefined,
        Some(Insn::Store { rt, rn }) => if c.reg(rn) == DOORBELL_GPA {
            Step::Doorbell
        } else {
            Step::Next(Cpu { mem: c.mem.insert(c.reg(rn), c.reg(rt)), pc: c.pc + 4, ..c })
        },
        Some(Insn::Load { rt, rn }) => Step::Next(c.set(rt, c.mem[c.reg(rn)])),
        Some(Insn::Add { rd, rn, imm }) => Step::Next(c.set(rd, (c.reg(rn) + imm) % two64())),
        Some(Insn::Compare { rn, rm }) => Step::Next(
            Cpu {
                equal: c.reg(rn) == c.reg(rm),
                lower: c.reg(rn) < c.reg(rm),
                pc: c.pc + 4,
                ..c
            },
        ),
        Some(Insn::Move { rd, rm }) => Step::Next(c.set(rd, c.reg(rm))),
        Some(Insn::BranchEqual { off }) => Step::Next(
            Cpu {
                pc: if c.equal {
                    c.pc + 4 * off
                } else {
                    c.pc + 4
                },
                ..c
            },
        ),
        Some(Insn::BranchLower { off }) => Step::Next(
            Cpu {
                pc: if c.lower {
                    c.pc + 4 * off
                } else {
                    c.pc + 4
                },
                ..c
            },
        ),
        Some(Insn::Branch { off }) => Step::Next(Cpu { pc: c.pc + 4 * off, ..c }),
        Some(Insn::Wait) => Step::Waiting,
    }
}

/// The state after `n` instructions, where none of them leaves the guest.
pub open spec fn steps(page: Seq<u32>, c: Cpu, n: nat) -> Option<Cpu>
    decreases n,
{
    if n == 0 {
        Some(c)
    } else {
        match step(page, c) {
            Step::Next(d) => steps(page, d, (n - 1) as nat),
            _ => None,
        }
    }
}

/// The guest, entered in state `c`, rings the doorbell in state `d`.
pub open spec fn rings(page: Seq<u32>, c: Cpu, d: Cpu) -> bool {
    &&& step(page, d) is Doorbell
    &&& exists|n: nat| #[trigger] steps(page, c, n) == Some(d)
}

/// Instructions run one after the other.
pub proof fn lemma_steps_add(page: Seq<u32>, c: Cpu, m: nat, n: nat)
    requires
        steps(page, c, m) is Some,
    ensures
        steps(page, c, m + n) == steps(page, steps(page, c, m)->0, n),
    decreases m,
{
    if m > 0 {
        lemma_steps_add(page, step(page, c)->Next_0, (m - 1) as nat, n);
        assert((m + n - 1) as nat == (m - 1) as nat + n);
    }
}

/// A state reached in some steps rings where a state reached from it rings.
pub proof fn lemma_rings_after(page: Seq<u32>, c: Cpu, n: nat, d: Cpu, e: Cpu)
    requires
        steps(page, c, n) == Some(d),
        rings(page, d, e),
    ensures
        rings(page, c, e),
{
    let m = choose|m: nat| #[trigger] steps(page, d, m) == Some(e);
    lemma_steps_add(page, c, n, m);
    assert(steps(page, c, n + m) == Some(e));
}

/// The guest is deterministic: it rings in one state only.
pub proof fn law_guest_is_deterministic(page: Seq<u32>, c: Cpu, d: Cpu, e: Cpu)
    requires
        rings(page, c, d),
        rings(page, c, e),
    ensures
        d == e,
{
    let m = choose|m: nat| #[trigger] steps(page, c, m) == Some(d);
    let n = choose|n: nat| #[trigger] steps(page, c, n) == Some(e);
    if m < n {
        lemma_steps_add(page, c, m, (n - m) as nat);
        assert(steps(page, d, (n - m) as nat) is None);
    } else if n < m {
        lemma_steps_add(page, c, n, (m - n) as nat);
        assert(steps(page, e, (m - n) as nat) is None);
    }
}

}
