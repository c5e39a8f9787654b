//! What the guest programs do to guest memory, proved from their machine code.

use crate::guest::{
    fill_drive, hammer_drive, hammer_writes, pass_writes, read_drive, sweep_drive, touch_drive,
    verify_drive, with_programs, DriveState, RegWrite, CODE_GPA, DOORBELL_GPA, FILL_GPA, HAMMER_GPA,
    RAM_GPA, READ_GPA, VERIFY_GPA,
};
use crate::hvf::{HV_REG_X4, HV_REG_X5, HV_REG_X6};
use crate::ledger::PAGE;
use crate::machine::{decode, lemma_rings_after, rings, step, steps, two64, Cpu, Insn};
use vstd::prelude::*;

verus! {

/// Whether a pass over the addresses `[from, to)` visits address `a`: one word
/// per host page.
pub open spec fn visits(from: int, to: int, a: int) -> bool {
    &&& from <= a < to
    &&& (a - from) % (PAGE as int) == 0
}

/// Whether a pass from `from` to `to` stays inside guest RAM addresses and
/// its cursor does not wrap.
pub open spec fn in_range(from: int, to: int) -> bool {
    &&& RAM_GPA <= from
    &&& from + PAGE < two64()
    &&& to + PAGE < two64()
    &&& 0 <= to
}

/// A visit after the first is a visit of the pass that starts a page later.
proof fn lemma_visits_next(from: int, to: int, a: int)
    requires
        from < to,
    ensures
        visits(from, to, a) <==> a == from || visits(from + PAGE, to, a),
{
    if visits(from, to, a) && a != from {
        let k = (a - from) / (PAGE as int);
        assert(a - from == k * PAGE) by (nonlinear_arith)
            requires
                k == (a - from) / (PAGE as int),
                (a - from) % (PAGE as int) == 0,
                PAGE == 16384,
        ;
        assert(k >= 1);
        assert((a - (from + PAGE)) % (PAGE as int) == 0);
    }
}

proof fn lemma_touch_code(page: Seq<u32>)
    requires
        page.len() >= 0x1000,
    ensures
        ({
            let p = with_programs(page);
            &&& decode(p[0]) == Some(Insn::Store { rt: 1, rn: 1 })
            &&& decode(p[1]) == Some(Insn::Add { rd: 1, rn: 1, imm: 16384 })
            &&& decode(p[2]) == Some(Insn::Compare { rn: 1, rm: 2 })
            &&& decode(p[3]) == Some(Insn::BranchLower { off: -3 })
            &&& decode(p[4]) == Some(Insn::Store { rt: 31, rn: 3 })
        }),
{
}

/// From the loop head of the touch program with the cursor in x1.
proof fn lemma_touch_loop(page: Seq<u32>, c: Cpu) -> (d: Cpu)
    requires
        page.len() >= 0x1000,
        c.wf(),
        c.pc == CODE_GPA,
        c.x[3] == DOORBELL_GPA,
        in_range(c.x[1], c.x[2]),
        c.x[1] < c.x[2],
    ensures
        rings(with_programs(page), c, d),
        forall|a: int| #[trigger]
            d.mem[a] == if visits(c.x[1], c.x[2], a) {
                a
            } else {
                c.mem[a]
            },
    decreases c.x[2] - c.x[1],
{
    let p = with_programs(page);
    lemma_touch_code(page);
    let c1 = step(p, c)->Next_0;
    let c2 = step(p, c1)->Next_0;
    let c3 = step(p, c2)->Next_0;
    let c4 = step(p, c3)->Next_0;
    reveal_with_fuel(steps, 5);
    assert(steps(p, c, 4) == Some(c4));
    assert(c4.wf());
    if c.x[1] + PAGE < c.x[2] {
        let d = lemma_touch_loop(page, c4);
        lemma_rings_after(p, c, 4, c4, d);
        assert forall|a: int| #[trigger]
            d.mem[a] == if visits(c.x[1], c.x[2], a) {
                a
            } else {
                c.mem[a]
            } by {
            lemma_visits_next(c.x[1], c.x[2], a);
        }
        d
    } else {
        assert(step(p, c4) is Doorbell);
        assert(rings(p, c, c4));
        c4
    }
}

proof fn lemma_read_code(page: Seq<u32>)
    requires
        page.len() >= 0x1000,
    ensures
        ({
            let p = with_programs(page);
            &&& decode(p[64]) == Some(Insn::Load { rt: 5, rn: 1 })
            &&& decode(p[65]) == Some(Insn::Add { rd: 1, rn: 1, imm: 16384 })
            &&& decode(p[66]) == Some(Insn::Compare { rn: 1, rm: 2 })
            &&& decode(p[67]) == Some(Insn::BranchLower { off: -3 })
            &&& decode(p[68]) == Some(Insn::Store { rt: 31, rn: 3 })
        }),
{
}

/// From the loop head of the read program with the cursor in x1.
proof fn lemma_read_loop(page: Seq<u32>, c: Cpu) -> (d: Cpu)
    requires
        page.len() >= 0x1000,
        c.wf(),
        c.pc == READ_GPA,
        c.x[3] == DOORBELL_GPA,
        in_range(c.x[1], c.x[2]),
        c.x[1] < c.x[2],
    ensures
        rings(with_programs(page), c, d),
        d.mem == c.mem,
    decreases c.x[2] - c.x[1],
{
    let p = with_programs(page);
    lemma_read_code(page);
    let c1 = step(p, c)->Next_0;
    let c2 = step(p, c1)->Next_0;
    let c3 = step(p, c2)->Next_0;
    let c4 = step(p, c3)->Next_0;
    reveal_with_fuel(steps, 5);
    assert(steps(p, c, 4) == Some(c4));
    assert(c4.wf());
    if c.x[1] + PAGE < c.x[2] {
        let d = lemma_read_loop(page, c4);
        lemma_rings_after(p, c, 4, c4, d);
        d
    } else {
        assert(step(p, c4) is Doorbell);
        assert(rings(p, c, c4));
        c4
    }
}

proof fn lemma_fill_code(page: Seq<u32>)
    requires
        page.len() >= 0x1000,
    ensures
        ({
            let p = with_programs(page);
            &&& decode(p[128]) == Some(Insn::Store { rt: 5, rn: 1 })
            &&& decode(p[129]) == Some(Insn::Add { rd: 1, rn: 1, imm: 16384 })
            &&& decode(p[130]) == Some(Insn::Compare { rn: 1, rm: 2 })
            &&& decode(p[131]) == Some(Insn::BranchLower { off: -3 })
            &&& decode(p[132]) == Some(Insn::Store { rt: 31, rn: 3 })
        }),
{
}

/// From the loop head of the fill program with the cursor in x1.
proof fn lemma_fill_loop(page: Seq<u32>, c: Cpu) -> (d: Cpu)
    requires
        page.len() >= 0x1000,
        c.wf(),
        c.pc == FILL_GPA,
        c.x[3] == DOORBELL_GPA,
        in_range(c.x[1], c.x[2]),
        c.x[1] < c.x[2],
    ensures
        rings(with_programs(page), c, d),
        forall|a: int| #[trigger]
            d.mem[a] == if visits(c.x[1], c.x[2], a) {
                c.x[5]
            } else {
                c.mem[a]
            },
    decreases c.x[2] - c.x[1],
{
    let p = with_programs(page);
    lemma_fill_code(page);
    let c1 = step(p, c)->Next_0;
    let c2 = step(p, c1)->Next_0;
    let c3 = step(p, c2)->Next_0;
    let c4 = step(p, c3)->Next_0;
    reveal_with_fuel(steps, 5);
    assert(steps(p, c, 4) == Some(c4));
    assert(c4.wf());
    if c.x[1] + PAGE < c.x[2] {
        let d = lemma_fill_loop(page, c4);
        lemma_rings_after(p, c, 4, c4, d);
        assert forall|a: int| #[trigger]
            d.mem[a] == if visits(c.x[1], c.x[2], a) {
                c.x[5]
            } else {
                c.mem[a]
            } by {
            lemma_visits_next(c.x[1], c.x[2], a);
        }
        d
    } else {
        assert(step(p, c4) is Doorbell);
        assert(rings(p, c, c4));
        c4
    }
}

/// How many of the visited pages do not hold `expected` in their first word.
pub open spec fn mismatches(mem: Map<int, int>, from: int, to: int, expected: int) -> int
    decreases
        if from < to {
            to - from
        } else {
            0
        },
{
    if from < to {
        (if mem[from] != expected {
            1int
        } else {
            0int
        }) + mismatches(mem, from + PAGE, to, expected)
    } else {
        0
    }
}

proof fn lemma_verify_code(page: Seq<u32>)
    requires
        page.len() >= 0x1000,
    ensures
        ({
            let p = with_programs(page);
            &&& decode(p[96]) == Some(Insn::Load { rt: 6, rn: 1 })
            &&& decode(p[97]) == Some(Insn::Compare { rn: 6, rm: 5 })
            &&& decode(p[98]) == Some(Insn::BranchEqual { off: 2 })
            &&& decode(p[99]) == Some(Insn::Add { rd: 4, rn: 4, imm: 1 })
            &&& decode(p[100]) == Some(Insn::Add { rd: 1, rn: 1, imm: 16384 })
            &&& decode(p[101]) == Some(Insn::Compare { rn: 1, rm: 2 })
            &&& decode(p[102]) == Some(Insn::BranchLower { off: -6 })
            &&& decode(p[103]) == Some(Insn::Store { rt: 4, rn: 3 })
        }),
{
}

/// One round of the verify loop: up to the branch back.
proof fn lemma_verify_round(page: Seq<u32>, c: Cpu) -> (r: (nat, Cpu))
    requires
        page.len() >= 0x1000,
        c.wf(),
        c.pc == VERIFY_GPA,
        in_range(c.x[1], c.x[2]),
        c.x[1] < c.x[2],
    ensures
        steps(with_programs(page), c, r.0) == Some(r.1),
        r.1.wf(),
        r.1.mem == c.mem,
        r.1.x[1] == c.x[1] + PAGE,
        r.1.x[2] == c.x[2],
        r.1.x[3] == c.x[3],
        r.1.x[4] == if c.mem[c.x[1]] != c.x[5] {
            (c.x[4] + 1) % two64()
        } else {
            c.x[4]
        },
        r.1.x[5] == c.x[5],
        r.1.pc == if c.x[1] + PAGE < c.x[2] {
            VERIFY_GPA as int
        } else {
            VERIFY_GPA + 28
        },
{
    let p = with_programs(page);
    lemma_verify_code(page);
    reveal_with_fuel(steps, 8);
    let c1 = step(p, c)->Next_0;
    let c2 = step(p, c1)->Next_0;
    let c3 = step(p, c2)->Next_0;
    let c4 = step(p, c3)->Next_0;
    let c5 = step(p, c4)->Next_0;
    let c6 = step(p, c5)->Next_0;
    if c.mem[c.x[1]] == c.x[5] {
        assert(steps(p, c, 6) == Some(c6));
        (6, c6)
    } else {
        let c7 = step(p, c6)->Next_0;
        assert(steps(p, c, 7) == Some(c7));
        (7, c7)
    }
}

/// From the loop head of the verify program with the cursor in x1.
proof fn lemma_verify_loop(page: Seq<u32>, c: Cpu) -> (d: Cpu)
    requires
        page.len() >= 0x1000,
        c.wf(),
        c.pc == VERIFY_GPA,
        c.x[3] == DOORBELL_GPA,
        in_range(c.x[1], c.x[2]),
        c.x[1] < c.x[2],
    ensures
        rings(with_programs(page), c, d),
        d.mem == c.mem,
        d.x[4] == (c.x[4] + mismatches(c.mem, c.x[1], c.x[2], c.x[5])) % two64(),
    decreases c.x[2] - c.x[1],
{
    let p = with_programs(page);
    lemma_verify_code(page);
    let (n, e) = lemma_verify_round(page, c);
    if c.x[1] + PAGE < c.x[2] {
        let d = lemma_verify_loop(page, e);
        lemma_rings_after(p, c, n, e, d);
        let rest = mismatches(c.mem, c.x[1] + PAGE, c.x[2], c.x[5]);
        assert((((c.x[4] + 1) % two64()) + rest) % two64() == (c.x[4] + 1 + rest) % two64()) by {
            vstd::arithmetic::div_mod::lemma_add_mod_noop(c.x[4] + 1, rest, two64());
            vstd::arithmetic::div_mod::lemma_add_mod_noop((c.x[4] + 1) % two64(), rest, two64());
        }
        d
    } else {
        assert(step(p, e) is Doorbell);
        assert(rings(p, c, e));
        e
    }
}

proof fn lemma_hammer_code(page: Seq<u32>)
    requires
        page.len() >= 0x1000,
    ensures
        ({
            let p = with_programs(page);
            &&& decode(p[32]) == Some(Insn::Move { rd: 1, rm: 6 })
            &&& decode(p[33]) == Some(Insn::Load { rt: 5, rn: 1 })
            &&& decode(p[34]) == Some(Insn::Add { rd: 5, rn: 5, imm: 1 })
            &&& decode(p[35]) == Some(Insn::Store { rt: 5, rn: 1 })
            &&& decode(p[36]) == Some(Insn::Add { rd: 1, rn: 1, imm: 16384 })
            &&& decode(p[37]) == Some(Insn::Compare { rn: 1, rm: 2 })
            &&& decode(p[38]) == Some(Insn::BranchLower { off: -5 })
            &&& decode(p[39]) == Some(Insn::Add { rd: 4, rn: 4, imm: 1 })
            &&& decode(p[40]) == Some(Insn::Store { rt: 4, rn: 3 })
            &&& decode(p[41]) == Some(Insn::Branch { off: -9 })
        }),
{
}

/// What one sweep from `from` to `to` leaves of memory `mem`: every visited
/// word incremented once.
pub open spec fn incremented(mem: Map<int, int>, from: int, to: int) -> Map<int, int> {
    Map::total(
        |a: int|
            if visits(from, to, a) {
                (mem[a] + 1) % two64()
            } else {
                mem[a]
            },
    )
}

/// From the loop head of the hammer program with the cursor in x1.
proof fn lemma_hammer_loop(page: Seq<u32>, c: Cpu) -> (d: Cpu)
    requires
        page.len() >= 0x1000,
        c.wf(),
        c.pc == HAMMER_GPA + 4,
        c.x[3] == DOORBELL_GPA,
        in_range(c.x[1], c.x[2]),
        c.x[1] < c.x[2],
    ensures
        rings(with_programs(page), c, d),
        d.wf(),
        d.mem == incremented(c.mem, c.x[1], c.x[2]),
        d.x[2] == c.x[2],
        d.x[3] == c.x[3],
        d.x[4] == (c.x[4] + 1) % two64(),
        d.x[6] == c.x[6],
        d.pc == HAMMER_GPA + 32,
    decreases c.x[2] - c.x[1],
{
    let p = with_programs(page);
    lemma_hammer_code(page);
    reveal_with_fuel(steps, 8);
    let c1 = step(p, c)->Next_0;
    let c2 = step(p, c1)->Next_0;
    let c3 = step(p, c2)->Next_0;
    let c4 = step(p, c3)->Next_0;
    let c5 = step(p, c4)->Next_0;
    let c6 = step(p, c5)->Next_0;
    assert(steps(p, c, 6) == Some(c6));
    assert(c6.wf());
    if c.x[1] + PAGE < c.x[2] {
        let d = lemma_hammer_loop(page, c6);
        lemma_rings_after(p, c, 6, c6, d);
        assert forall|a: int| #[trigger] d.mem[a] == incremented(c.mem, c.x[1], c.x[2])[a] by {
            lemma_visits_next(c.x[1], c.x[2], a);
        }
        assert(d.mem =~= incremented(c.mem, c.x[1], c.x[2]));
        d
    } else {
        let c7 = step(p, c6)->Next_0;
        assert(steps(p, c, 7) == Some(c7));
        assert(step(p, c7) is Doorbell);
        assert(rings(p, c, c7));
        assert(c7.mem =~= incremented(c.mem, c.x[1], c.x[2]));
        c7
    }
}

/// The vCPU as the register writes of a drive leave it.
pub open spec fn started(c: Cpu, drive: DriveState) -> Cpu {
    c.all_written(drive.writes)
}

/// What the register writes of a pass set, whatever was written before them.
proof fn lemma_pass_written(c: Cpu, first: Seq<RegWrite>, entry: u64, start_off: u64, end_off: u64)
    requires
        c.wf(),
        RAM_GPA + start_off <= u64::MAX,
        RAM_GPA + end_off <= u64::MAX,
        first.len() <= 2,
        forall|i: int| 0 <= i < first.len() ==> 4 <= #[trigger] first[i].reg <= 6,
    ensures
        ({
            let s = c.all_written(first + pass_writes(entry, start_off, end_off));
            let f = c.all_written(first);
            &&& s.wf()
            &&& s.mem == c.mem
            &&& s.pc == entry
            &&& s.x[1] == RAM_GPA + start_off
            &&& s.x[2] == RAM_GPA + end_off
            &&& s.x[3] == DOORBELL_GPA
            &&& s.x[4] == f.x[4]
            &&& s.x[5] == f.x[5]
            &&& s.x[6] == f.x[6]
        }),
{
    let pw = pass_writes(entry, start_off, end_off);
    let ws = first + pw;
    reveal_with_fuel(Cpu::all_written, 3);
    let w0 = first;
    let w1 = w0.push(pw[0]);
    let w2 = w1.push(pw[1]);
    let w3 = w2.push(pw[2]);
    let w4 = w3.push(pw[3]);
    assert(ws =~= w4);
    assert(w4.drop_last() =~= w3);
    assert(w3.drop_last() =~= w2);
    assert(w2.drop_last() =~= w1);
    assert(w1.drop_last() =~= w0);
    if first.len() > 0 {
        assert(4 <= first.last().reg <= 6);
        if first.len() > 1 {
            assert(first.drop_last().last() == first[0]);
        }
    }
    assert(c.all_written(w0).wf());
    assert(c.all_written(w1).wf());
    assert(c.all_written(w2).wf());
    assert(c.all_written(w3).wf());
    assert(c.all_written(w4).wf());
}

/// A touch pass ends at the doorbell with every visited page's first word
/// holding its own guest address, and every other word as it was.
pub proof fn law_touch_range_stamps_addresses(page: Seq<u32>, c: Cpu, start_off: u64, end_off: u64)
    requires
        page.len() >= 0x1000,
        c.wf(),
        in_range(RAM_GPA + start_off, RAM_GPA + end_off),
        start_off < end_off,
    ensures
        ({
            let drive = touch_drive(start_off, end_off);
            exists|d: Cpu| #[trigger]
                rings(with_programs(page), started(c, drive), d) && forall|a: int| #[trigger]
                    d.mem[a] == if visits(RAM_GPA + start_off, RAM_GPA + end_off, a) {
                        a
                    } else {
                        c.mem[a]
                    }
        }),
{
    let none = Seq::<RegWrite>::empty();
    let writes = pass_writes(CODE_GPA, start_off, end_off);
    lemma_pass_written(c, none, CODE_GPA, start_off, end_off);
    assert(none + writes =~= writes);
    let drive = touch_drive(start_off, end_off);
    let d = lemma_touch_loop(page, started(c, drive));
    assert(rings(with_programs(page), started(c, drive), d));
}

/// A read pass ends at the doorbell and changes no memory.
pub proof fn law_read_pass_changes_nothing(page: Seq<u32>, c: Cpu, ram_size: u64)
    requires
        page.len() >= 0x1000,
        c.wf(),
        in_range(RAM_GPA as int, RAM_GPA + ram_size),
        ram_size > 0,
    ensures
        ({
            let drive = read_drive(ram_size);
            exists|d: Cpu| #[trigger]
                rings(with_programs(page), started(c, drive), d) && d.mem == c.mem
        }),
{
    let none = Seq::<RegWrite>::empty();
    let writes = pass_writes(READ_GPA, 0, ram_size);
    lemma_pass_written(c, none, READ_GPA, 0, ram_size);
    assert(none + writes =~= writes);
    let drive = read_drive(ram_size);
    let d = lemma_read_loop(page, started(c, drive));
    assert(rings(with_programs(page), started(c, drive), d));
}

/// What a fill from `from` to `to` leaves of memory `mem`.
pub open spec fn filled(mem: Map<int, int>, from: int, to: int, value: int) -> Map<int, int> {
    Map::total(
        |a: int|
            if visits(from, to, a) {
                value
            } else {
                mem[a]
            },
    )
}

/// A fill ends at the doorbell with the value in the first word of every
/// visited page, and every other word as it was.
pub proof fn law_fill_range_stamps_the_value(
    page: Seq<u32>,
    c: Cpu,
    start_off: u64,
    end_off: u64,
    value: u64,
)
    requires
        page.len() >= 0x1000,
        c.wf(),
        in_range(RAM_GPA + start_off, RAM_GPA + end_off),
        start_off < end_off,
    ensures
        exists|d: Cpu| #[trigger]
            rings(with_programs(page), started(c, fill_drive(start_off, end_off, value)), d)
                && d.mem == filled(c.mem, RAM_GPA + start_off, RAM_GPA + end_off, value as int),
{
    let first = seq![RegWrite { reg: HV_REG_X5, value }];
    lemma_pass_written(c, first, FILL_GPA, start_off, end_off);
    assert(first.drop_last() =~= Seq::<RegWrite>::empty());
    reveal_with_fuel(Cpu::all_written, 2);
    let s = started(c, fill_drive(start_off, end_off, value));
    assert(s.x[5] == value);
    let d = lemma_fill_loop(page, s);
    assert(d.mem =~= filled(c.mem, RAM_GPA + start_off, RAM_GPA + end_off, value as int)) by {
        lemma_rings_keeps_memory_total(with_programs(page), s, d);
    }
}

/// Every run keeps every memory word there.
proof fn lemma_steps_keep_memory_total(page: Seq<u32>, c: Cpu, n: nat)
    requires
        forall|a: int| #[trigger] c.mem.dom().contains(a),
        steps(page, c, n) is Some,
    ensures
        forall|a: int| #[trigger] (steps(page, c, n)->0).mem.dom().contains(a),
    decreases n,
{
    if n > 0 {
        lemma_steps_keep_memory_total(page, step(page, c)->Next_0, (n - 1) as nat);
    }
}

proof fn lemma_rings_keeps_memory_total(page: Seq<u32>, c: Cpu, d: Cpu)
    requires
        forall|a: int| #[trigger] c.mem.dom().contains(a),
        rings(page, c, d),
    ensures
        forall|a: int| #[trigger] d.mem.dom().contains(a),
{
    let n = choose|n: nat| #[trigger] steps(page, c, n) == Some(d);
    lemma_steps_keep_memory_total(page, c, n);
    assert forall|a: int| #[trigger] d.mem.dom().contains(a) by {
        assert((steps(page, c, n)->0).mem.dom().contains(a));
    }
}

/// How many pages a pass from `from` to `to` visits: the last may be cut off.
pub open spec fn pages_visited(from: int, to: int) -> int {
    if from < to {
        (to - from + PAGE - 1) / (PAGE as int)
    } else {
        0
    }
}

/// A verify pass reports at most the pages it visits, which in a range of
/// whole pages are its bytes over the page size.
pub proof fn law_mismatches_are_bounded(mem: Map<int, int>, from: int, to: int, expected: int)
    ensures
        0 <= mismatches(mem, from, to, expected) <= pages_visited(from, to),
        from <= to && (to - from) % (PAGE as int) == 0 ==> pages_visited(from, to) == (to - from)
            / (PAGE as int),
    decreases
        if from < to {
            to - from
        } else {
            0
        },
{
    if from < to {
        law_mismatches_are_bounded(mem, from + PAGE, to, expected);
    }
}

/// A verify pass ends at the doorbell with the exact number of mismatching
/// pages in the register the drive reads, and changes no memory.
pub proof fn law_verify_range_counts_mismatches(
    page: Seq<u32>,
    c: Cpu,
    start_off: u64,
    end_off: u64,
    expected: u64,
)
    requires
        page.len() >= 0x1000,
        c.wf(),
        in_range(RAM_GPA + start_off, RAM_GPA + end_off),
        start_off < end_off,
    ensures
        exists|d: Cpu| #[trigger]
            rings(with_programs(page), started(c, verify_drive(start_off, end_off, expected)), d)
                && d.mem == c.mem && d.x[HV_REG_X4 as int] == mismatches(
                c.mem,
                RAM_GPA + start_off,
                RAM_GPA + end_off,
                expected as int,
            ),
{
    let first = seq![
        RegWrite { reg: HV_REG_X4, value: 0 },
        RegWrite { reg: HV_REG_X5, value: expected },
    ];
    lemma_pass_written(c, first, VERIFY_GPA, start_off, end_off);
    assert(first.drop_last() =~= seq![RegWrite { reg: HV_REG_X4, value: 0 }]);
    assert(first.drop_last().drop_last() =~= Seq::<RegWrite>::empty());
    reveal_with_fuel(Cpu::all_written, 3);
    let s = started(c, verify_drive(start_off, end_off, expected));
    assert(s.x[4] == 0 && s.x[5] == expected);
    law_mismatches_are_bounded(c.mem, RAM_GPA + start_off, RAM_GPA + end_off, expected as int);
    let d = lemma_verify_loop(page, s);
}

/// One sweep ends at the doorbell with every visited page's first word
/// incremented once, and every other word as it was.
pub proof fn law_sweep_range_increments_once(page: Seq<u32>, c: Cpu, start_off: u64, end_off: u64)
    requires
        page.len() >= 0x1000,
        c.wf(),
        in_range(RAM_GPA + start_off, RAM_GPA + end_off),
        start_off < end_off,
    ensures
        exists|d: Cpu| #[trigger]
            rings(with_programs(page), started(c, sweep_drive(start_off, end_off)), d) && d.mem
                == incremented(c.mem, RAM_GPA + start_off, RAM_GPA + end_off),
{
    let first = seq![RegWrite { reg: HV_REG_X6, value: (RAM_GPA + start_off) as u64 }];
    lemma_pass_written(c, first, HAMMER_GPA, start_off, end_off);
    assert(first.drop_last() =~= Seq::<RegWrite>::empty());
    reveal_with_fuel(Cpu::all_written, 2);
    let s = started(c, sweep_drive(start_off, end_off));
    assert(s.x[6] == RAM_GPA + start_off);
    let d = lemma_sweep(page, s);
}

/// One sweep from the start of the hammer program.
proof fn lemma_sweep(page: Seq<u32>, c: Cpu) -> (d: Cpu)
    requires
        page.len() >= 0x1000,
        c.wf(),
        c.pc == HAMMER_GPA,
        c.x[3] == DOORBELL_GPA,
        in_range(c.x[6], c.x[2]),
        c.x[6] < c.x[2],
    ensures
        rings(with_programs(page), c, d),
        d.wf(),
        d.mem == incremented(c.mem, c.x[6], c.x[2]),
        d.x[2] == c.x[2],
        d.x[3] == c.x[3],
        d.x[4] == (c.x[4] + 1) % two64(),
        d.x[6] == c.x[6],
        d.pc == HAMMER_GPA + 32,
{
    let p = with_programs(page);
    lemma_hammer_code(page);
    reveal_with_fuel(steps, 2);
    let c1 = step(p, c)->Next_0;
    assert(steps(p, c, 1) == Some(c1));
    assert(c1.wf());
    let d = lemma_hammer_loop(page, c1);
    lemma_rings_after(p, c, 1, c1, d);
    d
}

/// The vCPU resumed past the doorbell store.
pub open spec fn resumed(d: Cpu) -> Cpu {
    Cpu { pc: d.pc + 4, ..d }
}

/// The guest, entered in state `c` and resumed after every ring but the last,
/// rings for the `n`-th time in state `d`.
pub open spec fn rings_times(page: Seq<u32>, c: Cpu, n: nat, d: Cpu) -> bool
    decreases n,
{
    if n == 0 {
        false
    } else if n == 1 {
        rings(page, c, d)
    } else {
        exists|e: Cpu|
            rings_times(page, c, (n - 1) as nat, e) && #[trigger] rings(page, resumed(e), d)
    }
}

/// What `n` sweeps from `from` to `to` leave of memory `mem`.
pub open spec fn raised(mem: Map<int, int>, from: int, to: int, n: nat) -> Map<int, int> {
    Map::total(
        |a: int|
            if visits(from, to, a) {
                (mem[a] + n) % two64()
            } else {
                mem[a]
            },
    )
}

/// Hammer sweeps one after the other.
proof fn lemma_hammered(page: Seq<u32>, c: Cpu, n: nat) -> (d: Cpu)
    requires
        page.len() >= 0x1000,
        c.wf(),
        c.pc == HAMMER_GPA,
        c.x[3] == DOORBELL_GPA,
        c.x[4] == 0,
        in_range(c.x[6], c.x[2]),
        c.x[6] < c.x[2],
        1 <= n < two64(),
    ensures
        rings_times(with_programs(page), c, n, d),
        d.wf(),
        d.mem == raised(c.mem, c.x[6], c.x[2], n),
        d.x[2] == c.x[2],
        d.x[3] == c.x[3],
        d.x[4] == n,
        d.x[6] == c.x[6],
        d.pc == HAMMER_GPA + 32,
    decreases n,
{
    let p = with_programs(page);
    if n == 1 {
        let d = lemma_sweep(page, c);
        assert(d.mem =~= raised(c.mem, c.x[6], c.x[2], 1));
        d
    } else {
        let e = lemma_hammered(page, c, (n - 1) as nat);
        lemma_hammer_code(page);
        reveal_with_fuel(steps, 2);
        let s = resumed(e);
        let h = step(p, s)->Next_0;
        assert(steps(p, s, 1) == Some(h));
        assert(h.wf());
        let d = lemma_sweep(page, h);
        lemma_rings_after(p, s, 1, h, d);
        assert forall|a: int| #[trigger] d.mem[a] == raised(c.mem, c.x[6], c.x[2], n)[a] by {
            let m = c.mem[a];
            assert(((m + (n - 1)) % two64() + 1) % two64() == (m + n) % two64()) by {
                vstd::arithmetic::div_mod::lemma_add_mod_noop(m + (n - 1), 1, two64());
                vstd::arithmetic::div_mod::lemma_add_mod_noop(
                    (m + (n - 1)) % two64(),
                    1,
                    two64(),
                );
            }
        }
        assert(d.mem =~= raised(c.mem, c.x[6], c.x[2], n));
        assert(rings_times(p, c, (n - 1) as nat, e) && rings(p, resumed(e), d));
        d
    }
}

/// The vCPU as a hammer run starts it.
proof fn lemma_hammer_started(c: Cpu, ram_size: u64)
    requires
        c.wf(),
        in_range(RAM_GPA as int, RAM_GPA + ram_size),
        ram_size > 0,
    ensures
        ({
            let s = started(c, hammer_drive(ram_size));
            &&& s.wf()
            &&& s.mem == c.mem
            &&& s.pc == HAMMER_GPA
            &&& s.x[2] == RAM_GPA + ram_size
            &&& s.x[3] == DOORBELL_GPA
            &&& s.x[4] == 0
            &&& s.x[6] == RAM_GPA
        }),
{
    let ws = hammer_writes(ram_size);
    let w1 = seq![ws[0]];
    let w2 = w1.push(ws[1]);
    let w3 = w2.push(ws[2]);
    let w4 = w3.push(ws[3]);
    let w5 = w4.push(ws[4]);
    assert(ws =~= w5);
    assert(w5.drop_last() =~= w4);
    assert(w4.drop_last() =~= w3);
    assert(w3.drop_last() =~= w2);
    assert(w2.drop_last() =~= w1);
    assert(w1.drop_last() =~= Seq::<RegWrite>::empty());
    reveal_with_fuel(Cpu::all_written, 2);
    assert(c.all_written(w1).wf());
    assert(c.all_written(w2).wf());
    assert(c.all_written(w3).wf());
    assert(c.all_written(w4).wf());
    assert(c.all_written(w5).wf());
}

/// After `n` hammer sweeps over guest RAM every page's first word has grown by
/// exactly `n`, and the register the drive reads holds `n`.
pub proof fn law_hammer_counts_its_sweeps(page: Seq<u32>, c: Cpu, ram_size: u64, n: nat)
    requires
        page.len() >= 0x1000,
        c.wf(),
        in_range(RAM_GPA as int, RAM_GPA + ram_size),
        ram_size > 0,
        1 <= n < two64(),
    ensures
        exists|d: Cpu| #[trigger]
            rings_times(
                with_programs(page),
                started(c, hammer_drive(ram_size)),
                n,
                d,
            ) && d.mem == raised(c.mem, RAM_GPA as int, RAM_GPA + ram_size, n)
                && d.x[HV_REG_X4 as int] == n,
{
    lemma_hammer_started(c, ram_size);
    let s = started(c, hammer_drive(ram_size));
    let d = lemma_hammered(page, s, n);
    assert(rings_times(with_programs(page), s, n, d));
}

/// After `n` hammer sweeps the program counter can be moved past the doorbell
/// store.
pub proof fn lemma_hammer_stops(page: Seq<u32>, c: Cpu, ram_size: u64, n: nat)
    requires
        page.len() >= 0x1000,
        c.wf(),
        in_range(RAM_GPA as int, RAM_GPA + ram_size),
        ram_size > 0,
        1 <= n < two64(),
    ensures
        exists|d: Cpu| #[trigger]
            rings_times(
                with_programs(page),
                started(c, hammer_drive(ram_size)),
                n,
                d,
            ) && d.pc + 4 < two64(),
{
    lemma_hammer_started(c, ram_size);
    let s = started(c, hammer_drive(ram_size));
    let d = lemma_hammered(page, s, n);
    assert(rings_times(with_programs(page), s, n, d));
}

/// Where every visited page but at most `victim` holds `expected`, the count
/// is one if `victim` is visited and differs, and zero otherwise.
proof fn lemma_mismatches_of_one(
    mem: Map<int, int>,
    from: int,
    to: int,
    expected: int,
    victim: int,
)
    requires
        forall|a: int|
            visits(from, to, a) && a != victim ==> #[trigger] mem[a] == expected,
    ensures
        mismatches(mem, from, to, expected) == if visits(from, to, victim) && mem[victim]
            != expected {
            1int
        } else {
            0int
        },
    decreases
        if from < to {
            to - from
        } else {
            0
        },
{
    if from < to {
        assert(visits(from, to, from));
        assert forall|a: int| visits(from + PAGE, to, a) && a != victim implies #[trigger] mem[a]
            == expected by {
            lemma_visits_next(from, to, a);
        }
        lemma_visits_next(from, to, victim);
        lemma_mismatches_of_one(mem, from + PAGE, to, expected, victim);
    }
}

/// A verify pass over a range that was filled with the value it expects finds
/// nothing.
pub proof fn law_filled_range_verifies_clean(mem: Map<int, int>, from: int, to: int, value: int)
    ensures
        mismatches(filled(mem, from, to, value), from, to, value) == 0,
{
    lemma_mismatches_of_one(filled(mem, from, to, value), from, to, value, from);
}

/// Where no visited page holds `expected`, the count is every page.
proof fn lemma_all_mismatch(mem: Map<int, int>, from: int, to: int, expected: int)
    requires
        forall|a: int| visits(from, to, a) ==> #[trigger] mem[a] != expected,
    ensures
        mismatches(mem, from, to, expected) == pages_visited(from, to),
    decreases
        if from < to {
            to - from
        } else {
            0
        },
{
    if from < to {
        assert(visits(from, to, from));
        assert forall|a: int| visits(from + PAGE, to, a) implies #[trigger] mem[a] != expected by {
            lemma_visits_next(from, to, a);
        }
        lemma_all_mismatch(mem, from + PAGE, to, expected);
    }
}

/// A verify pass over a range that was filled with another value than it
/// expects reports every page, whatever the range held before: in a range of
/// whole pages, its bytes over the page size.
pub proof fn law_other_values_mismatch_everywhere(
    mem: Map<int, int>,
    from: int,
    to: int,
    value: int,
    expected: int,
)
    requires
        value != expected,
    ensures
        mismatches(filled(mem, from, to, value), from, to, expected) == pages_visited(from, to),
        from <= to && (to - from) % (PAGE as int) == 0 ==> pages_visited(from, to) == (to - from)
            / (PAGE as int),
{
    lemma_all_mismatch(filled(mem, from, to, value), from, to, expected);
}

/// Memories that agree on the visited pages have the same mismatches.
pub proof fn lemma_same_mismatches(
    m: Map<int, int>,
    n: Map<int, int>,
    from: int,
    to: int,
    expected: int,
)
    requires
        forall|a: int| visits(from, to, a) ==> #[trigger] m[a] == n[a],
    ensures
        mismatches(m, from, to, expected) == mismatches(n, from, to, expected),
    decreases
        if from < to {
            to - from
        } else {
            0
        },
{
    if from < to {
        assert(visits(from, to, from));
        assert(m[from] == n[from]);
        assert forall|a: int| visits(from + PAGE, to, a) implies #[trigger] m[a] == n[a] by {
            lemma_visits_next(from, to, a);
        }
        lemma_same_mismatches(m, n, from + PAGE, to, expected);
    }
}

/// The verify pass sees planted damage: one corrupted page in an otherwise
/// clean range counts exactly once.
pub proof fn law_one_corrupt_page_counts_once(
    mem: Map<int, int>,
    from: int,
    to: int,
    expected: int,
    victim: int,
    bad: int,
)
    requires
        visits(from, to, victim),
        bad != expected,
        mismatches(mem, from, to, expected) == 0,
    ensures
        mismatches(mem.insert(victim, bad), from, to, expected) == 1,
{
    assert forall|a: int| visits(from, to, a) && a != victim implies #[trigger] mem.insert(
        victim,
        bad,
    )[a] == expected by {
        law_clean_means_every_page_matches(mem, from, to, expected, a);
    }
    lemma_mismatches_of_one(mem.insert(victim, bad), from, to, expected, victim);
}

/// A count of zero means that every visited page holds the expected value:
/// no lost page goes unseen.
pub proof fn law_clean_means_every_page_matches(
    mem: Map<int, int>,
    from: int,
    to: int,
    expected: int,
    a: int,
)
    requires
        mismatches(mem, from, to, expected) == 0,
        visits(from, to, a),
    ensures
        mem[a] == expected,
    decreases
        if from < to {
            to - from
        } else {
            0
        },
{
    law_mismatches_are_bounded(mem, from + PAGE, to, expected);
    lemma_visits_next(from, to, a);
    if a != from {
        law_clean_means_every_page_matches(mem, from + PAGE, to, expected, a);
    }
}

}
