use vstd::prelude::*;
use vstd::string::StringExecFns;

verus! {

/// One instruction of the three-bit computer, with its operand.
#[derive(Clone, Copy, Debug, PartialEq, Eq, Structural)]
pub enum Instr {
    Adv(u8),
    Bxl(u8),
    Bst(u8),
    Jnz(u8),
    Bxc,
    Out(u8),
    Bdv(u8),
    Cdv(u8),
}

pub const REG_A: usize = 0;

pub const REG_B: usize = 1;

pub const REG_C: usize = 2;

/// The value of a combo operand: `0..=3` stand for themselves, `4..=6` for
/// registers A, B and C.
pub open spec fn combo_value(x: u8, regs: Seq<u64>) -> u64 {
    if x < 4 {
        x as u64
    } else {
        regs[x - 4]
    }
}

/// `a` divided by two to the power `s`, rounded down.
pub open spec fn shifted(a: u64, s: u64) -> u64 {
    if s >= 64 {
        0
    } else {
        a >> s
    }
}

/// The instruction takes a combo operand, which must be below 7.
pub open spec fn operand_ok(i: Instr) -> bool {
    match i {
        Instr::Adv(x) | Instr::Bst(x) | Instr::Out(x) | Instr::Bdv(x) | Instr::Cdv(x) => x < 7,
        _ => true,
    }
}

/// The three-bit computer: registers A, B and C, an instruction pointer
/// over the decoded instructions, and what it has printed.
pub struct Vm {
    pub registers: Vec<u64>,
    pub ip: usize,
    pub instructions: Vec<Instr>,
    pub output: Vec<u64>,
}

impl Vm {
    pub open spec fn wf(&self) -> bool {
        &&& self.registers.len() == 3
        &&& forall|k: int| 0 <= k < self.instructions.len() ==> operand_ok(#[trigger] self.instructions@[k])
    }
}

/// What instruction `i` does to registers, instruction pointer and output.
pub open spec fn step(i: Instr, regs: Seq<u64>, ip: usize, out: Seq<u64>) -> (Seq<u64>, int, Seq<u64>) {
    match i {
        Instr::Adv(x) => (regs.update(0, shifted(regs[0], combo_value(x, regs))), ip + 1, out),
        Instr::Bdv(x) => (regs.update(1, shifted(regs[0], combo_value(x, regs))), ip + 1, out),
        Instr::Cdv(x) => (regs.update(2, shifted(regs[0], combo_value(x, regs))), ip + 1, out),
        Instr::Bxl(x) => (regs.update(1, regs[1] ^ (x as u64)), ip + 1, out),
        Instr::Bst(x) => (regs.update(1, combo_value(x, regs) % 8), ip + 1, out),
        Instr::Jnz(x) => if regs[0] != 0 {
            (regs, x as int, out)
        } else {
            (regs, ip + 1, out)
        },
        Instr::Bxc => (regs.update(1, regs[1] ^ regs[2]), ip + 1, out),
        Instr::Out(x) => (regs, ip + 1, out.push(combo_value(x, regs) % 8)),
    }
}

impl Instr {
    pub fn combo(x: u8, reg: &Vec<u64>) -> (r: u64)
        requires
            x < 7,
            reg.len() == 3,
        ensures
            r == combo_value(x, reg@),
    {
        if x < 4 {
            x as u64
        } else {
            reg[(x - 4) as usize]
        }
    }

    /// Sets register `reg` to register A shifted right by the combo operand `x`.
    pub fn div(x: u8, vm: &mut Vm, reg: usize)
        requires
            old(vm).wf(),
            x < 7,
            reg < 3,
        ensures
            final(vm).wf(),
            final(vm).registers@ == old(vm).registers@.update(
                reg as int,
                shifted(old(vm).registers@[0], combo_value(x, old(vm).registers@)),
            ),
            final(vm).ip == old(vm).ip,
            final(vm).output@ == old(vm).output@,
            final(vm).instructions@ == old(vm).instructions@,
    {
        let shr = Instr::combo(x, &vm.registers);
        let num = vm.registers[REG_A];
        let v = if shr >= 64 {
            0
        } else {
            num >> shr
        };
        vm.registers.set(reg, v);
    }

    /// Carries out this instruction on the computer.
    pub fn exec(&self, vm: &mut Vm)
        requires
            old(vm).wf(),
            operand_ok(*self),
            old(vm).ip < usize::MAX,
        ensures
            final(vm).wf(),
            final(vm).instructions@ == old(vm).instructions@,
            (final(vm).registers@, final(vm).ip as int, final(vm).output@) == step(
                *self,
                old(vm).registers@,
                old(vm).ip,
                old(vm).output@,
            ),
    {
        match *self {
            Instr::Adv(x) => Instr::div(x, vm, REG_A),
            Instr::Bxl(x) => {
                let b = vm.registers[REG_B] ^ (x as u64);
                vm.registers.set(REG_B, b);
            },
            Instr::Bst(x) => {
                let b = Instr::combo(x, &vm.registers) % 8;
                vm.registers.set(REG_B, b);
            },
            Instr::Jnz(x) => {
                if vm.registers[REG_A] != 0 {
                    vm.ip = x as usize;
                    return;
                }
            },
            Instr::Bxc => {
                let b = vm.registers[REG_B] ^ vm.registers[REG_C];
                vm.registers.set(REG_B, b);
            },
            Instr::Out(x) => {
                let o = Instr::combo(x, &vm.registers) % 8;
                vm.output.push(o);
            },
            Instr::Bdv(x) => Instr::div(x, vm, REG_B),
            Instr::Cdv(x) => Instr::div(x, vm, REG_C),
        }
        vm.ip = vm.ip + 1;
    }
}

impl Vm {
    pub fn new(instructions: Vec<Instr>, registers: Vec<u64>) -> (r: Vm)
        ensures
            r.instructions@ == instructions@,
            r.registers@ == registers@,
            r.ip == 0,
            r.output@.len() == 0,
    {
        Vm { registers, ip: 0, instructions, output: Vec::new() }
    }

    /// Runs the instruction under the pointer, if there is one; tells whether
    /// the pointer is still inside the program.
    pub fn exec(&mut self) -> (r: bool)
        requires
            old(self).wf(),
        ensures
            final(self).wf(),
            final(self).instructions@ == old(self).instructions@,
            old(self).ip < old(self).instructions.len() ==> (
            final(self).registers@,
            final(self).ip as int,
            final(self).output@,
            ) == step(
                old(self).instructions@[old(self).ip as int],
                old(self).registers@,
                old(self).ip,
                old(self).output@,
            ),
            old(self).ip >= old(self).instructions.len() ==> *final(self) == *old(self),
            r == (final(self).ip < final(self).instructions.len()),
    {
        if self.ip < self.instructions.len() {
            let instr = self.instructions[self.ip];
            instr.exec(self);
        }
        self.ip < self.instructions.len()
    }

    /// Clears the registers, the pointer and the output.
    pub fn reset(&mut self)
        requires
            old(self).wf(),
        ensures
            final(self).wf(),
            final(self).registers@ == seq![0u64, 0, 0],
            final(self).ip == 0,
            final(self).output@.len() == 0,
            final(self).instructions@ == old(self).instructions@,
    {
        self.registers.set(REG_A, 0);
        self.registers.set(REG_B, 0);
        self.registers.set(REG_C, 0);
        self.ip = 0;
        self.output = Vec::new();
        assert(self.registers@ =~= seq![0u64, 0, 0]);
    }
}

/// The number at the start of `t[i..]`, and where its digits end.
fn read_number(t: &[u8], i: usize) -> (r: Option<(u64, usize)>)
    requires
        i <= t.len(),
    ensures
        r matches Some((_, e)) ==> i < e <= t.len(),
{
    let mut v: u64 = 0;
    let mut j = i;
    while j < t.len() && 48 <= t[j] && t[j] <= 57
        invariant
            i <= j <= t.len(),
        decreases t.len() - j,
    {
        let d = (t[j] - 48) as u64;
        if v > (u64::MAX - d) / 10 {
            return None;
        }
        v = v * 10 + d;
        j = j + 1;
    }
    if j == i {
        None
    } else {
        Some((v, j))
    }
}

/// Skips to just past the next `": "` at or after `i`.
fn after_colon(t: &[u8], i: usize) -> (r: Option<usize>)
    requires
        i <= t.len(),
    ensures
        r matches Some(e) ==> i < e <= t.len(),
{
    let mut j = i;
    while j < t.len() && t.len() - j > 1
        invariant
            i <= j <= t.len(),
        decreases t.len() - j,
    {
        if t[j] == 58 && t[j + 1] == 32 {
            return Some(j + 2);
        }
        j = j + 1;
    }
    None
}

/// Reads the three registers and the program, decoding it into
/// instructions. No result where the text has another shape, an opcode is
/// unknown, or a combo operand is 7.
pub fn parse(input: &str) -> (r: Option<Vm>)
    ensures
        r matches Some(vm) ==> vm.wf() && vm.ip == 0,
{
    let t = input.as_bytes();
    let mut regs: Vec<u64> = Vec::new();
    let mut i: usize = 0;
    for k in 0..3usize
        invariant
            i <= t.len(),
            regs.len() == k,
    {
        let s = match after_colon(t, i) {
            Some(s) => s,
            None => {
                return None;
            },
        };
        let (v, e) = match read_number(t, s) {
            Some(p) => p,
            None => {
                return None;
            },
        };
        regs.push(v);
        i = e;
    }
    let mut p = match after_colon(t, i) {
        Some(s) => s,
        None => {
            return None;
        },
    };
    let mut instructions: Vec<Instr> = Vec::new();
    loop
        invariant
            p <= t.len(),
            forall|k: int| 0 <= k < instructions.len() ==> operand_ok(#[trigger] instructions@[k]),
        decreases t.len() - p,
    {
        let (op, e) = match read_number(t, p) {
            Some(x) => x,
            None => {
                return None;
            },
        };
        if e >= t.len() || t[e] != 44 {
            return None;
        }
        let (arg, e2) = match read_number(t, e + 1) {
            Some(x) => x,
            None => {
                return None;
            },
        };
        if op > 7 || arg > 7 {
            return None;
        }
        let x = arg as u8;
        let ins = if op == 0 {
            Instr::Adv(x)
        } else if op == 1 {
            Instr::Bxl(x)
        } else if op == 2 {
            Instr::Bst(x)
        } else if op == 3 {
            Instr::Jnz(x)
        } else if op == 4 {
            Instr::Bxc
        } else if op == 5 {
            Instr::Out(x)
        } else if op == 6 {
            Instr::Bdv(x)
        } else {
            Instr::Cdv(x)
        };
        if !operand_ok_exec(ins) {
            return None;
        }
        instructions.push(ins);
        if e2 >= t.len() || t[e2] != 44 {
            break;
        }
        p = e2 + 1;
    }
    Some(Vm::new(instructions, regs))
}

fn operand_ok_exec(i: Instr) -> (r: bool)
    ensures
        r == operand_ok(i),
{
    match i {
        Instr::Adv(x) | Instr::Bst(x) | Instr::Out(x) | Instr::Bdv(x) | Instr::Cdv(x) => x < 7,
        _ => true,
    }
}

/// The largest number of steps a program is run for.
pub const STEP_LIMIT: u64 = 100_000_000;

/// Runs the program until its pointer leaves it and renders what it
/// printed, comma-separated. No result where the text does not parse or the
/// program runs past the step limit.
pub fn handle_puzzle1(input: &str) -> (r: Option<String>) {
    let mut vm = match parse(input) {
        Some(vm) => vm,
        None => {
            return None;
        },
    };
    let mut steps: u64 = 0;
    while vm.exec()
        invariant
            vm.wf(),
        decreases STEP_LIMIT - steps,
    {
        if steps >= STEP_LIMIT {
            return None;
        }
        steps = steps + 1;
    }
    let mut out = String::new();
    for k in 0..vm.output.len() {
        if k > 0 {
            out.append(",");
        }
        let d = vm.output[k];
        if d == 0 {
            out.append("0");
        } else if d == 1 {
            out.append("1");
        } else if d == 2 {
            out.append("2");
        } else if d == 3 {
            out.append("3");
        } else if d == 4 {
            out.append("4");
        } else if d == 5 {
            out.append("5");
        } else if d == 6 {
            out.append("6");
        } else {
            out.append("7");
        }
    }
    Some(out)
}

} // verus!
