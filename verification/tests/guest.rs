use memory_ratchet::guest::{
    classify_exit, run_fill_range, run_hammer, run_read_pass, run_sweep_range, run_touch_pass,
    run_touch_range, run_verify_range, write_code_page, Drive, DriveFault, GuestExit, RegWrite,
    Reply, Request, CODE_GPA, DOORBELL_GPA, FILL_GPA, HAMMER_GPA, RAM_GPA, READ_GPA, VERIFY_GPA,
};
use memory_ratchet::hvf::{
    check, exception_class_of, HvVcpuExitException, HvVcpuExitInfo, HV_REG_PC, HV_REG_X1,
    HV_REG_X2, HV_REG_X3, HV_REG_X4, HV_REG_X5, HV_REG_X6,
};
use std::collections::HashMap;

const PAGE: u64 = 0x4000;

fn exit(reason: u32, syndrome: u64, physical_address: u64) -> HvVcpuExitInfo {
    HvVcpuExitInfo {
        reason,
        exception: HvVcpuExitException { syndrome, virtual_address: 0, physical_address },
    }
}

fn doorbell() -> HvVcpuExitInfo {
    exit(1, 0x24 << 26, DOORBELL_GPA)
}

/// A machine for the few instructions the programs use.
struct Vcpu {
    x: [u64; 32],
    pc: u64,
    equal: bool,
    lower: bool,
    code: Vec<u32>,
    mem: HashMap<u64, u64>,
}

impl Vcpu {
    fn new() -> Vcpu {
        let mut code = vec![0u32; 0x1000];
        write_code_page(&mut code);
        Vcpu { x: [0; 32], pc: 0, equal: false, lower: false, code, mem: HashMap::new() }
    }

    fn reg(&self, r: u32) -> u64 {
        if r == 31 { 0 } else { self.x[r as usize] }
    }

    fn branch(&mut self, words: i64) {
        self.pc = (self.pc as i64 + 4 * words) as u64;
    }

    /// Runs to the doorbell.
    fn run(&mut self) {
        loop {
            let w = self.code[((self.pc - CODE_GPA) / 4) as usize];
            let (rt, rn, rm) = (w & 31, (w >> 5) & 31, (w >> 16) & 31);
            let imm = u64::from((w >> 10) & 0xFFF);
            let imm19 = i64::from(((w >> 5) & 0x7_FFFF) as i32) << 45 >> 45;
            if w & 0xFFC0_0000 == 0xF900_0000 {
                let at = self.reg(rn) + 8 * imm;
                if at == DOORBELL_GPA {
                    return;
                }
                let value = self.reg(rt);
                self.mem.insert(at, value);
            } else if w & 0xFFC0_0000 == 0xF940_0000 {
                let at = self.reg(rn) + 8 * imm;
                self.x[rt as usize] = *self.mem.get(&at).unwrap_or(&0);
            } else if w & 0xFFC0_0000 == 0x9100_0000 {
                self.x[rt as usize] = self.reg(rn).wrapping_add(imm);
            } else if w & 0xFFC0_0000 == 0x9140_0000 {
                self.x[rt as usize] = self.reg(rn).wrapping_add(imm << 12);
            } else if w & 0xFFE0_FC1F == 0xEB00_001F {
                self.equal = self.reg(rn) == self.reg(rm);
                self.lower = self.reg(rn) < self.reg(rm);
            } else if w & 0xFFE0_FFE0 == 0xAA00_03E0 {
                self.x[rt as usize] = self.reg(rm);
            } else if w & 0xFF00_001F == 0x5400_0003 {
                if self.lower {
                    self.branch(imm19);
                    continue;
                }
            } else if w & 0xFF00_001F == 0x5400_0000 {
                if self.equal {
                    self.branch(imm19);
                    continue;
                }
            } else if w & 0xFC00_0000 == 0x1400_0000 {
                self.branch(i64::from((w & 0x3FF_FFFF) as i32) << 38 >> 38);
                continue;
            } else {
                panic!("word {:#x} at {:#x}", w, self.pc);
            }
            self.pc += 4;
        }
    }

    /// Drives the machine to the end, going on for `sweeps` sweeps.
    fn drive(&mut self, mut d: Drive, sweeps: u64) -> u64 {
        loop {
            let reply = match d.request() {
                Request::Write(RegWrite { reg, value }) => {
                    if reg == HV_REG_PC {
                        self.pc = value;
                    } else {
                        self.x[reg as usize] = value;
                    }
                    Reply::Wrote { ret: 0 }
                }
                Request::Run => {
                    self.run();
                    Reply::Ran { ret: 0, info: doorbell() }
                }
                Request::Read { reg } => {
                    let value = if reg == HV_REG_PC { self.pc } else { self.x[reg as usize] };
                    Reply::Value { ret: 0, value }
                }
                Request::KeepGoing { sweeps: done } => Reply::Keep { going: done < sweeps },
                Request::Finished { count } => return count,
            };
            d.reply(reply).unwrap();
        }
    }

    fn word(&self, off: u64) -> u64 {
        *self.mem.get(&(RAM_GPA + off)).unwrap_or(&0)
    }
}

#[test]
fn code_page_holds_the_programs() {
    let mut code = vec![7u32; 0x1000];
    write_code_page(&mut code);
    assert_eq!(code[0], 0xF900_0021);
    assert_eq!(code[6], 0x17FF_FFFF);
    assert_eq!(code[7], 7);
    assert_eq!(code[0x80 / 4], 0xAA06_03E1);
    assert_eq!(code[0x100 / 4], 0xF940_0025);
    assert_eq!(code[0x180 / 4], 0xF940_0026);
    assert_eq!(code[0x200 / 4], 0xF900_0025);
    assert_eq!(code.len(), 0x1000);
    assert_eq!(code[0xFFF], 7);
}

#[test]
fn touch_pass_stamps_every_page() {
    let mut v = Vcpu::new();
    v.drive(run_touch_pass(4 * PAGE), 0);
    assert_eq!(v.mem.len(), 4);
    for i in 0..4 {
        assert_eq!(v.word(i * PAGE), RAM_GPA + i * PAGE);
    }
    let mut w = Vcpu::new();
    w.drive(run_touch_range(2 * PAGE, 3 * PAGE), 0);
    assert_eq!(w.mem.len(), 1);
    assert_eq!(w.word(2 * PAGE), RAM_GPA + 2 * PAGE);
}

#[test]
fn read_pass_writes_nothing() {
    let mut v = Vcpu::new();
    v.drive(run_read_pass(4 * PAGE), 0);
    assert!(v.mem.is_empty());
}

#[test]
fn filled_memory_verifies_and_damage_is_found() {
    let mut v = Vcpu::new();
    v.drive(run_fill_range(PAGE, 5 * PAGE, 0x2A), 0);
    assert_eq!(v.drive(run_verify_range(PAGE, 5 * PAGE, 0x2A), 0), 0);
    v.mem.insert(RAM_GPA + 2 * PAGE, 0x2B);
    assert_eq!(v.drive(run_verify_range(PAGE, 5 * PAGE, 0x2A), 0), 1);
    assert_eq!(v.drive(run_verify_range(PAGE, 5 * PAGE, 0), 0), 4);
    assert_eq!(v.word(0), 0);
}

#[test]
fn sweeps_increment_once_each() {
    let mut v = Vcpu::new();
    v.drive(run_sweep_range(0, 3 * PAGE), 0);
    v.drive(run_sweep_range(0, 3 * PAGE), 0);
    for i in 0..3 {
        assert_eq!(v.word(i * PAGE), 2);
    }
    assert_eq!(v.word(3 * PAGE), 0);
}

#[test]
fn hammer_counts_its_sweeps() {
    let mut v = Vcpu::new();
    v.drive(run_touch_pass(2 * PAGE), 0);
    let sweeps = v.drive(run_hammer(2 * PAGE), 5);
    assert_eq!(sweeps, 5);
    assert_eq!(v.word(0), RAM_GPA + 5);
    assert_eq!(v.word(PAGE), RAM_GPA + PAGE + 5);
}

#[test]
fn drives_arm_the_registers_in_order() {
    let writes = |d: Drive| -> Vec<(u32, u64)> { d.writes.iter().map(|w| (w.reg, w.value)).collect() };
    let end = RAM_GPA + 2 * PAGE;
    assert_eq!(
        writes(run_touch_pass(2 * PAGE)),
        vec![(HV_REG_PC, CODE_GPA), (HV_REG_X1, RAM_GPA), (HV_REG_X2, end), (HV_REG_X3, DOORBELL_GPA)]
    );
    assert_eq!(writes(run_read_pass(2 * PAGE))[0], (HV_REG_PC, READ_GPA));
    assert_eq!(writes(run_fill_range(0, PAGE, 9))[..2], [(HV_REG_X5, 9), (HV_REG_PC, FILL_GPA)]);
    assert_eq!(
        writes(run_verify_range(0, PAGE, 9))[..3],
        [(HV_REG_X4, 0), (HV_REG_X5, 9), (HV_REG_PC, VERIFY_GPA)]
    );
    assert_eq!(
        writes(run_sweep_range(PAGE, 2 * PAGE))[..2],
        [(HV_REG_X6, RAM_GPA + PAGE), (HV_REG_PC, HAMMER_GPA)]
    );
}

#[test]
fn exits_are_told_apart() {
    assert_eq!(classify_exit(&doorbell()), GuestExit::Doorbell);
    assert_eq!(classify_exit(&exit(0, 0x24 << 26, DOORBELL_GPA)), GuestExit::Canceled);
    assert_eq!(
        classify_exit(&exit(1, 0x24 << 26, DOORBELL_GPA + 8)),
        GuestExit::Unexpected { ec: 0x24 }
    );
    assert_eq!(classify_exit(&exit(1, 0x20 << 26, DOORBELL_GPA)), GuestExit::Unexpected { ec: 0x20 });
    assert_eq!(classify_exit(&exit(2, 0, 0)), GuestExit::Unexpected { ec: 0 });
    assert_eq!(exception_class_of(0xFFFF_FFFF_93FF_FFFF), 0x24);
}

#[test]
fn canceled_runs_are_entered_again() {
    let mut d = run_touch_pass(PAGE);
    while let Request::Write(_) = d.request() {
        d.reply(Reply::Wrote { ret: 0 }).unwrap();
    }
    d.reply(Reply::Ran { ret: 0, info: exit(0, 0, 0) }).unwrap();
    assert_eq!(d.request(), Request::Run);
    d.reply(Reply::Ran { ret: 0, info: doorbell() }).unwrap();
    assert!(matches!(d.request(), Request::Finished { .. }));
}

#[test]
fn drives_fail_where_the_machine_does() {
    let mut d = run_touch_pass(PAGE);
    let first = d.request();
    assert_eq!(
        d.reply(Reply::Wrote { ret: -7 }),
        Err(DriveFault::CallFailed { request: first, ret: -7 })
    );
    let keep = Reply::Keep { going: true };
    assert_eq!(d.reply(keep), Err(DriveFault::OutOfTurn { request: first, reply: keep }));
    while let Request::Write(_) = d.request() {
        d.reply(Reply::Wrote { ret: 0 }).unwrap();
    }
    let odd = exit(1, 0x20 << 26, 0x1234);
    assert_eq!(
        d.reply(Reply::Ran { ret: 0, info: odd }),
        Err(DriveFault::UnexpectedExit { info: odd, ec: 0x20 })
    );
}

#[test]
fn calls_are_judged_by_their_return_value() {
    assert!(check(0, "hv_vm_map").is_ok());
    let failed = check(-5, "hv_vm_map").err().unwrap();
    assert_eq!((failed.what.as_str(), failed.ret), ("hv_vm_map", -5));
}

#[test]
fn empty_ranges_are_left_alone() {
    for d in [
        run_touch_pass(0),
        run_read_pass(0),
        run_touch_range(PAGE, PAGE),
        run_touch_range(2 * PAGE, PAGE),
        run_sweep_range(PAGE, PAGE),
        run_fill_range(PAGE, PAGE, 7),
        run_verify_range(PAGE, PAGE, 7),
        run_hammer(0),
    ] {
        assert_eq!(d.request(), Request::Finished { count: 0 });
        let mut v = Vcpu::new();
        assert_eq!(v.drive(d, 3), 0);
        assert!(v.mem.is_empty());
    }
}

#[test]
fn hammer_asks_after_every_sweep() {
    let mut d = run_hammer(PAGE);
    let mut v = Vcpu::new();
    let mut asked = Vec::new();
    loop {
        let reply = match d.request() {
            Request::Write(RegWrite { reg, value }) => {
                if reg == HV_REG_PC {
                    v.pc = value;
                } else {
                    v.x[reg as usize] = value;
                }
                Reply::Wrote { ret: 0 }
            }
            Request::Run => {
                v.run();
                Reply::Ran { ret: 0, info: doorbell() }
            }
            Request::Read { reg } => {
                let value = if reg == HV_REG_PC { v.pc } else { v.x[reg as usize] };
                Reply::Value { ret: 0, value }
            }
            Request::KeepGoing { sweeps } => {
                asked.push(sweeps);
                Reply::Keep { going: sweeps < 4 }
            }
            Request::Finished { count } => {
                assert_eq!(count, 4);
                break;
            }
        };
        d.reply(reply).unwrap();
    }
    assert_eq!(asked, vec![1, 2, 3, 4]);
}

#[test]
fn verify_reports_every_page_of_another_value() {
    let mut v = Vcpu::new();
    v.mem.insert(RAM_GPA + 2 * PAGE, 0x2B);
    v.drive(run_fill_range(PAGE, 8 * PAGE, 0x2A), 0);
    assert_eq!(v.drive(run_verify_range(PAGE, 8 * PAGE, 0x2A), 0), 0);
    for other in [0, 0x2B, u64::MAX] {
        assert_eq!(v.drive(run_verify_range(PAGE, 8 * PAGE, other), 0), 7);
    }
}
