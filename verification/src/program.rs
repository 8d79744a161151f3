//! The register machine: a program is a four-slot register file together
//! with a parsed instruction sequence, and running it is a small-step state
//! machine whose pointer leaves the sequence exactly when execution halts.

pub mod instruction;
pub mod text;

use vstd::prelude::*;

use crate::program::instruction::{
    instruction_wf, is_blank_line, parse_lines_spec, parse_text_spec, registers_after, transfer_of,
    ArgumentType, Increment, Instruction, ParseError, ParseErrorModel, Transfer,
};
use crate::program::text::split_spec;

verus! {

/// A point in an execution: the register values and the instruction
/// pointer. The pointer is an unbounded integer so that a jump past either
/// end of the program is still a state — a halted one.
pub struct State {
    pub regs: Seq<i32>,
    pub pc: int,
}

/// Every instruction of the sequence names only the four register slots.
pub open spec fn instructions_wf(instructions: Seq<Instruction>) -> bool {
    forall|k: int| 0 <= k < instructions.len() ==> instruction_wf(#[trigger] instructions[k])
}

/// The machine halts exactly when the pointer is no index into the program.
pub open spec fn halted(instructions: Seq<Instruction>, s: State) -> bool {
    !(0 <= s.pc < instructions.len())
}

/// Where the pointer goes after an instruction: the uniform one-step
/// advance, which a taken jump first displaces by its offset.
pub open spec fn pc_after(t: Transfer, pc: int) -> int {
    match t {
        Transfer::Advance => pc + 1,
        Transfer::Jump(offset) => pc + offset + 1,
    }
}

/// One step of the machine from a non-halted state: the fetched
/// instruction's effect on the registers and on the pointer.
pub open spec fn step_state(i: Instruction, s: State) -> State {
    State {
        regs: registers_after(i, s.regs),
        pc: pc_after(transfer_of(i, s.regs), s.pc),
    }
}

/// The state reached after at most `n` steps: stepping stops early at a
/// halted state.
pub open spec fn run_n(instructions: Seq<Instruction>, s: State, n: nat) -> State
    decreases n,
{
    if n == 0 || halted(instructions, s) {
        s
    } else {
        run_n(instructions, step_state(instructions[s.pc], s), (n - 1) as nat)
    }
}

/// The state an execution starts from: the given registers, pointer zero.
pub open spec fn start_state(regs: Seq<i32>) -> State {
    State { regs, pc: 0 }
}

/// Taking one more step from a non-halted state appends that step; from a
/// halted state it changes nothing.
proof fn lemma_run_n_snoc(instructions: Seq<Instruction>, s: State, n: nat)
    ensures
        run_n(instructions, s, n + 1) == (if halted(instructions, run_n(instructions, s, n)) {
            run_n(instructions, s, n)
        } else {
            step_state(
                instructions[run_n(instructions, s, n).pc],
                run_n(instructions, s, n),
            )
        }),
    decreases n,
{
    if halted(instructions, s) {
        assert(run_n(instructions, s, n + 1) == s);
        assert(run_n(instructions, s, n) == s);
    } else if n == 0 {
        assert(run_n(instructions, s, n + 1) == run_n(
            instructions,
            step_state(instructions[s.pc], s),
            0,
        ));
    } else {
        let stepped = step_state(instructions[s.pc], s);
        lemma_run_n_snoc(instructions, stepped, (n - 1) as nat);
        assert(run_n(instructions, s, n + 1) == run_n(instructions, stepped, n));
        assert(run_n(instructions, s, n) == run_n(instructions, stepped, (n - 1) as nat));
    }
}

/// Once halted, the machine stays in place: more steps change nothing.
proof fn lemma_halted_stable(instructions: Seq<Instruction>, s: State, n: nat, m: nat)
    requires
        n <= m,
        halted(instructions, run_n(instructions, s, n)),
    ensures
        run_n(instructions, s, m) == run_n(instructions, s, n),
    decreases n,
{
    if n == 0 || halted(instructions, s) {
        assert(halted(instructions, s));
    } else {
        lemma_halted_stable(
            instructions,
            step_state(instructions[s.pc], s),
            (n - 1) as nat,
            (m - 1) as nat,
        );
    }
}

/// For every register index, the program of the single instruction
/// incrementing that register halts after one step with that register at
/// one and the other three at zero.
pub proof fn lemma_single_increment(r: usize)
    requires
        r < 4,
    ensures
        ({
            let p = seq![Instruction::Increment(Increment { target: r })];
            let f = run_n(p, start_state(seq![0i32, 0i32, 0i32, 0i32]), 1);
            &&& halted(p, f)
            &&& f.regs == seq![0i32, 0i32, 0i32, 0i32].update(r as int, 1i32)
            &&& forall|k: int| 0 <= k < 4 && k != r ==> f.regs[k] == 0i32
        }),
{
    let p = seq![Instruction::Increment(Increment { target: r })];
    let init = start_state(seq![0i32, 0i32, 0i32, 0i32]);
    assert(run_n(p, init, 1) == run_n(p, step_state(p[0], init), 0));
}

/// A helper for texts of blank lines: they parse to no instructions at all.
proof fn lemma_parse_lines_all_blank(lines: Seq<Seq<char>>)
    requires
        forall|k: int| 0 <= k < lines.len() ==> is_blank_line(#[trigger] lines[k]),
    ensures
        parse_lines_spec(lines) == Ok::<Seq<Instruction>, ParseErrorModel>(
            Seq::<Instruction>::empty(),
        ),
    decreases lines.len(),
{
    if lines.len() > 0 {
        assert(forall|k: int|
            0 <= k < lines.drop_first().len() ==> is_blank_line(
                #[trigger] lines.drop_first()[k],
            ));
        lemma_parse_lines_all_blank(lines.drop_first());
    }
}

/// A text of blank lines only parses to the empty program, and the empty
/// program is halted before its first step: zero instructions execute and
/// every register keeps its starting value.
pub proof fn lemma_blank_text_runs_nothing(text: Seq<char>, regs: Seq<i32>, fuel: nat)
    requires
        forall|k: int|
            0 <= k < split_spec(text, '\n').len() ==> is_blank_line(
                #[trigger] split_spec(text, '\n')[k],
            ),
    ensures
        parse_text_spec(text) == Ok::<Seq<Instruction>, ParseErrorModel>(
            Seq::<Instruction>::empty(),
        ),
        run_n(Seq::<Instruction>::empty(), start_state(regs), fuel) == start_state(regs),
{
    lemma_parse_lines_all_blank(split_spec(text, '\n'));
}

/// A program: the four-slot register file and the instruction sequence it
/// will run.
#[derive(Debug, Clone)]
pub struct Program {
    pub registers: [i32; 4],
    pub instructions: Vec<Instruction>,
}

impl Program {
    /// A program over the given instructions, all registers zero.
    pub fn new(instructions: Vec<Instruction>) -> (p: Program)
        ensures
            p.registers@ == seq![0i32, 0i32, 0i32, 0i32],
            p.instructions == instructions,
    {
        let registers: [i32; 4] = [0, 0, 0, 0];
        proof {
            assert(registers@ =~= seq![0i32, 0i32, 0i32, 0i32]);
        }
        Self { registers, instructions }
    }

    /// Parses a whole source text into a ready-to-run program.
    pub fn from_str(input: &str) -> (r: Result<Program, ParseError>)
        ensures
            (match r {
                Ok(p) => parse_text_spec(input@) == Ok::<Seq<Instruction>, ParseErrorModel>(
                    p.instructions@,
                ) && p.registers@ == seq![0i32, 0i32, 0i32, 0i32] && instructions_wf(
                    p.instructions@,
                ),
                Err(e) => parse_text_spec(input@) == Err::<Seq<Instruction>, ParseErrorModel>(e@),
            }),
    {
        match Instruction::parse_str(input) {
            Ok(instructions) => Ok(Self::new(instructions)),
            Err(e) => Err(e),
        }
    }

    /// Whether every instruction of the program names only the four
    /// register slots. Parsed programs always do.
    pub fn is_well_formed(&self) -> (b: bool)
        ensures
            b == instructions_wf(self.instructions@),
    {
        let n = self.instructions.len();
        let mut i: usize = 0;
        while i < n
            invariant
                i <= n,
                n == self.instructions@.len(),
                forall|k: int| 0 <= k < i ==> instruction_wf(#[trigger] self.instructions@[k]),
            decreases n - i,
        {
            let wf = match self.instructions[i] {
                Instruction::Copy(c) => (match c.source {
                    ArgumentType::Number(_) => true,
                    ArgumentType::Register(r) => r < 4,
                }) && c.destination < 4,
                Instruction::Increment(x) => x.target < 4,
                Instruction::Decrement(x) => x.target < 4,
                Instruction::JumpNotZero(j) => (match j.target {
                    ArgumentType::Number(_) => true,
                    ArgumentType::Register(r) => r < 4,
                }) && (match j.jump_distance {
                    ArgumentType::Number(_) => true,
                    ArgumentType::Register(r) => r < 4,
                }),
            };
            if !wf {
                return false;
            }
            i = i + 1;
        }
        true
    }

    /// Runs the program for at most `fuel` instructions. Returns the final
    /// register file when the machine halts within that many steps — the
    /// pointer leaves the program — and `None` when it is still running
    /// after `fuel` steps.
    pub fn run(self, fuel: u64) -> (r: Option<[i32; 4]>)
        requires
            instructions_wf(self.instructions@),
        ensures
            ({
                let f = run_n(self.instructions@, start_state(self.registers@), fuel as nat);
                match r {
                    Some(registers) => halted(self.instructions@, f) && registers@ == f.regs,
                    None => !halted(self.instructions@, f),
                }
            }),
    {
        let ghost instrs = self.instructions@;
        let ghost init = start_state(self.registers@);
        let mut registers: [i32; 4] = self.registers;
        let mut pc: usize = 0;
        let mut steps: u64 = 0;
        loop
            invariant
                steps <= fuel,
                instructions_wf(instrs),
                instrs == self.instructions@,
                init == start_state(self.registers@),
                run_n(instrs, init, steps as nat) == (State { regs: registers@, pc: pc as int }),
            decreases fuel - steps,
        {
            if pc >= self.instructions.len() {
                proof {
                    lemma_halted_stable(instrs, init, steps as nat, fuel as nat);
                }
                return Some(registers);
            }
            if steps == fuel {
                return None;
            }
            let ghost before = State { regs: registers@, pc: pc as int };
            proof {
                lemma_run_n_snoc(instrs, init, steps as nat);
            }
            let instruction = self.instructions[pc];
            let t = instruction.run(&mut registers);
            let ghost after = step_state(instrs[pc as int], before);
            match t {
                Transfer::Advance => {
                    pc = pc + 1;
                },
                Transfer::Jump(offset) => {
                    let base = pc + 1;
                    if offset >= 0 {
                        match base.checked_add(offset as usize) {
                            Some(target) => {
                                pc = target;
                            },
                            None => {
                                // the pointer would pass every index: halted
                                proof {
                                    assert(halted(instrs, after));
                                    lemma_halted_stable(
                                        instrs,
                                        init,
                                        (steps + 1) as nat,
                                        fuel as nat,
                                    );
                                }
                                return Some(registers);
                            },
                        }
                    } else {
                        let magnitude: usize = if offset == i32::MIN {
                            0x8000_0000
                        } else {
                            (-offset) as usize
                        };
                        if magnitude <= base {
                            pc = base - magnitude;
                        } else {
                            // the pointer would pass below zero: halted
                            proof {
                                assert(halted(instrs, after));
                                lemma_halted_stable(instrs, init, (steps + 1) as nat, fuel as nat);
                            }
                            return Some(registers);
                        }
                    }
                },
            }
            steps = steps + 1;
        }
    }
}

} // verus!
