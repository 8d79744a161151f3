//! The instruction set: argument and instruction types, the parser that
//! turns source text into instructions, and the effect of each instruction
//! on the register file.

use vstd::prelude::*;

use crate::program::text::{
    chars_of, i32_literal, lemma_split_len, parse_i32, split_chars, split_spec, trim_chars,
    trim_spec, views_of,
};

verus! {

/// An operand as written in the source: either a signed literal or a
/// reference to one of the four registers.
#[derive(Debug, Clone, Copy, PartialEq, Eq, Structural)]
pub enum ArgumentType {
    Number(i32),
    Register(usize),
}

/// A register reference is valid when it names one of the four slots.
pub open spec fn argument_wf(a: ArgumentType) -> bool {
    match a {
        ArgumentType::Number(_) => true,
        ArgumentType::Register(r) => r < 4,
    }
}

/// Copies a literal or another register's value into a register.
#[derive(Debug, Clone, Copy, PartialEq, Eq, Structural)]
pub struct Copy {
    pub source: ArgumentType,
    pub destination: usize,
}

/// Adds one to a register, wrapping on overflow.
#[derive(Debug, Clone, Copy, PartialEq, Eq, Structural)]
pub struct Increment {
    pub target: usize,
}

/// Subtracts one from a register, wrapping on underflow.
#[derive(Debug, Clone, Copy, PartialEq, Eq, Structural)]
pub struct Decrement {
    pub target: usize,
}

/// Moves the instruction pointer by a relative offset when a condition
/// value is nonzero.
#[derive(Debug, Clone, Copy, PartialEq, Eq, Structural)]
pub struct JumpNotZero {
    pub target: ArgumentType,
    pub jump_distance: ArgumentType,
}

/// One parsed instruction.
#[derive(Debug, Clone, Copy, PartialEq, Eq, Structural)]
pub enum Instruction {
    Copy(Copy),
    Increment(Increment),
    Decrement(Decrement),
    JumpNotZero(JumpNotZero),
}

/// Every register index in the instruction names one of the four slots.
pub open spec fn instruction_wf(i: Instruction) -> bool {
    match i {
        Instruction::Copy(c) => argument_wf(c.source) && c.destination < 4,
        Instruction::Increment(x) => x.target < 4,
        Instruction::Decrement(x) => x.target < 4,
        Instruction::JumpNotZero(j) => argument_wf(j.target) && argument_wf(j.jump_distance),
    }
}

/// What an executed instruction asks of the driving loop: take the default
/// one-step advance, or move by a relative offset before that advance.
#[derive(Debug, Clone, Copy, PartialEq, Eq, Structural)]
pub enum Transfer {
    Advance,
    Jump(i32),
}

/// Why a line of source text is not an instruction.
#[derive(Debug, PartialEq, Eq)]
pub enum ParseError {
    /// The first token of the line names no instruction.
    UnknownMnemonic { token: Vec<char> },
    /// The line ends before the named operand position of its instruction.
    MissingOperand { mnemonic: Vec<char>, position: usize },
    /// An operand is neither a register name nor a signed decimal literal
    /// that fits in 32 bits.
    InvalidArgument { token: Vec<char> },
    /// An operand that must name a register is a number instead.
    InvalidDestination { mnemonic: Vec<char> },
}

/// The specification-level image of a [`ParseError`], over character
/// sequences instead of vectors.
pub enum ParseErrorModel {
    UnknownMnemonic { token: Seq<char> },
    MissingOperand { mnemonic: Seq<char>, position: usize },
    InvalidArgument { token: Seq<char> },
    InvalidDestination { mnemonic: Seq<char> },
}

impl View for ParseError {
    type V = ParseErrorModel;

    open spec fn view(&self) -> ParseErrorModel {
        match self {
            ParseError::UnknownMnemonic { token } => ParseErrorModel::UnknownMnemonic {
                token: token@,
            },
            ParseError::MissingOperand { mnemonic, position } => ParseErrorModel::MissingOperand {
                mnemonic: mnemonic@,
                position: *position,
            },
            ParseError::InvalidArgument { token } => ParseErrorModel::InvalidArgument {
                token: token@,
            },
            ParseError::InvalidDestination { mnemonic } => ParseErrorModel::InvalidDestination {
                mnemonic: mnemonic@,
            },
        }
    }
}

/// An executable parse result agrees with its specification-level value:
/// equal on success, equal views on failure.
pub open spec fn result_agrees<T>(r: Result<T, ParseError>, s: Result<T, ParseErrorModel>) -> bool {
    match r {
        Ok(v) => s == Ok::<T, ParseErrorModel>(v),
        Err(e) => s == Err::<T, ParseErrorModel>(e@),
    }
}

/// The register index a token names, if any: the four one-letter names map
/// to their positions in the register alphabet.
pub open spec fn register_of_token(t: Seq<char>) -> Option<usize> {
    if t.len() == 1 {
        if t[0] == 'a' {
            Some(0usize)
        } else if t[0] == 'b' {
            Some(1usize)
        } else if t[0] == 'c' {
            Some(2usize)
        } else if t[0] == 'd' {
            Some(3usize)
        } else {
            None
        }
    } else {
        None
    }
}

/// How a token classifies as an operand: a register name if it is exactly
/// one, otherwise a signed decimal literal; anything else is no operand.
pub open spec fn classify_token_spec(t: Seq<char>) -> Option<ArgumentType> {
    match register_of_token(t) {
        Some(r) => Some(ArgumentType::Register(r)),
        None => match i32_literal(t) {
            Some(v) => Some(ArgumentType::Number(v)),
            None => None,
        },
    }
}

/// Classifies one token as an operand.
fn classify_token(t: &Vec<char>) -> (r: Option<ArgumentType>)
    ensures
        r == classify_token_spec(t@),
        r matches Some(a) ==> argument_wf(a),
{
    if t.len() == 1 {
        let c = t[0];
        if c == 'a' {
            return Some(ArgumentType::Register(0));
        }
        if c == 'b' {
            return Some(ArgumentType::Register(1));
        }
        if c == 'c' {
            return Some(ArgumentType::Register(2));
        }
        if c == 'd' {
            return Some(ArgumentType::Register(3));
        }
    }
    match parse_i32(t) {
        Some(v) => Some(ArgumentType::Number(v)),
        None => None,
    }
}

/// The value an operand resolves to: the literal itself, or the current
/// value of the referenced register.
pub open spec fn argument_value(a: ArgumentType, registers: Seq<i32>) -> i32 {
    match a {
        ArgumentType::Number(v) => v,
        ArgumentType::Register(r) => registers[r as int],
    }
}

/// One more, wrapping per two's-complement arithmetic.
pub open spec fn wrap_inc(v: i32) -> i32 {
    if v == i32::MAX {
        i32::MIN
    } else {
        (v + 1) as i32
    }
}

/// One less, wrapping per two's-complement arithmetic.
pub open spec fn wrap_dec(v: i32) -> i32 {
    if v == i32::MIN {
        i32::MAX
    } else {
        (v - 1) as i32
    }
}

/// The register file after the instruction's effect. A copy writes exactly
/// its destination slot; increment and decrement write exactly their target
/// slot; a jump writes nothing.
pub open spec fn registers_after(i: Instruction, registers: Seq<i32>) -> Seq<i32> {
    match i {
        Instruction::Copy(c) => registers.update(
            c.destination as int,
            argument_value(c.source, registers),
        ),
        Instruction::Increment(x) => registers.update(
            x.target as int,
            wrap_inc(registers[x.target as int]),
        ),
        Instruction::Decrement(x) => registers.update(
            x.target as int,
            wrap_dec(registers[x.target as int]),
        ),
        Instruction::JumpNotZero(_) => registers,
    }
}

/// What the instruction asks of the driving loop: only a jump whose
/// condition resolves to nonzero replaces the default advance, and it moves
/// by its resolved offset.
pub open spec fn transfer_of(i: Instruction, registers: Seq<i32>) -> Transfer {
    match i {
        Instruction::JumpNotZero(j) => if argument_value(j.target, registers) != 0 {
            Transfer::Jump(argument_value(j.jump_distance, registers))
        } else {
            Transfer::Advance
        },
        _ => Transfer::Advance,
    }
}

/// The line's instruction is `cpy`.
pub open spec fn is_cpy(t: Seq<char>) -> bool {
    t.len() == 3 && t[0] == 'c' && t[1] == 'p' && t[2] == 'y'
}

/// The line's instruction is `inc`.
pub open spec fn is_inc(t: Seq<char>) -> bool {
    t.len() == 3 && t[0] == 'i' && t[1] == 'n' && t[2] == 'c'
}

/// The line's instruction is `dec`.
pub open spec fn is_dec(t: Seq<char>) -> bool {
    t.len() == 3 && t[0] == 'd' && t[1] == 'e' && t[2] == 'c'
}

/// The line's instruction is `jnz`.
pub open spec fn is_jnz(t: Seq<char>) -> bool {
    t.len() == 3 && t[0] == 'j' && t[1] == 'n' && t[2] == 'z'
}

/// How a lone token reads as an operand: its classification, or the
/// invalid-argument error naming it.
pub open spec fn parse_argument_spec(t: Seq<char>) -> Result<ArgumentType, ParseErrorModel> {
    match classify_token_spec(t) {
        Some(a) => Ok(a),
        None => Err(ParseErrorModel::InvalidArgument { token: t }),
    }
}

/// How `cpy` reads its operand tokens: any operand as the source, then a
/// register name as the destination.
pub open spec fn parse_copy_spec(source: Seq<char>, destination: Seq<char>) -> Result<
    Copy,
    ParseErrorModel,
> {
    match classify_token_spec(source) {
        None => Err(ParseErrorModel::InvalidArgument { token: source }),
        Some(src) => match classify_token_spec(destination) {
            None => Err(ParseErrorModel::InvalidArgument { token: destination }),
            Some(ArgumentType::Number(_)) => Err(
                ParseErrorModel::InvalidDestination { mnemonic: seq!['c', 'p', 'y'] },
            ),
            Some(ArgumentType::Register(r)) => Ok(Copy { source: src, destination: r }),
        },
    }
}

/// How `inc` and `dec` read their operand token: it must name a register.
pub open spec fn parse_register_operand_spec(target: Seq<char>, mnemonic: Seq<char>) -> Result<
    usize,
    ParseErrorModel,
> {
    match classify_token_spec(target) {
        None => Err(ParseErrorModel::InvalidArgument { token: target }),
        Some(ArgumentType::Number(_)) => Err(ParseErrorModel::InvalidDestination { mnemonic }),
        Some(ArgumentType::Register(r)) => Ok(r),
    }
}

/// How `jnz` reads its operand tokens: any operand as the condition, then
/// any operand as the offset.
pub open spec fn parse_jnz_spec(target: Seq<char>, distance: Seq<char>) -> Result<
    JumpNotZero,
    ParseErrorModel,
> {
    match classify_token_spec(target) {
        None => Err(ParseErrorModel::InvalidArgument { token: target }),
        Some(c) => match classify_token_spec(distance) {
            None => Err(ParseErrorModel::InvalidArgument { token: distance }),
            Some(d) => Ok(JumpNotZero { target: c, jump_distance: d }),
        },
    }
}

/// How one line of source text reads: trimmed, split on single spaces, the
/// first token picks the instruction and the following tokens are its
/// operands; extra tokens are ignored.
pub open spec fn parse_line_spec(line: Seq<char>) -> Result<Instruction, ParseErrorModel> {
    let tokens = split_spec(trim_spec(line), ' ');
    let mnemonic = tokens[0];
    if is_cpy(mnemonic) {
        if tokens.len() < 2 {
            Err(ParseErrorModel::MissingOperand { mnemonic, position: 1 })
        } else if tokens.len() < 3 {
            Err(ParseErrorModel::MissingOperand { mnemonic, position: 2 })
        } else {
            match parse_copy_spec(tokens[1], tokens[2]) {
                Ok(c) => Ok(Instruction::Copy(c)),
                Err(e) => Err(e),
            }
        }
    } else if is_inc(mnemonic) {
        if tokens.len() < 2 {
            Err(ParseErrorModel::MissingOperand { mnemonic, position: 1 })
        } else {
            match parse_register_operand_spec(tokens[1], mnemonic) {
                Ok(r) => Ok(Instruction::Increment(Increment { target: r })),
                Err(e) => Err(e),
            }
        }
    } else if is_dec(mnemonic) {
        if tokens.len() < 2 {
            Err(ParseErrorModel::MissingOperand { mnemonic, position: 1 })
        } else {
            match parse_register_operand_spec(tokens[1], mnemonic) {
                Ok(r) => Ok(Instruction::Decrement(Decrement { target: r })),
                Err(e) => Err(e),
            }
        }
    } else if is_jnz(mnemonic) {
        if tokens.len() < 2 {
            Err(ParseErrorModel::MissingOperand { mnemonic, position: 1 })
        } else if tokens.len() < 3 {
            Err(ParseErrorModel::MissingOperand { mnemonic, position: 2 })
        } else {
            match parse_jnz_spec(tokens[1], tokens[2]) {
                Ok(j) => Ok(Instruction::JumpNotZero(j)),
                Err(e) => Err(e),
            }
        }
    } else {
        Err(ParseErrorModel::UnknownMnemonic { token: mnemonic })
    }
}

/// A line is blank when nothing is left of it after trimming; blank lines
/// carry no instruction.
pub open spec fn is_blank_line(line: Seq<char>) -> bool {
    trim_spec(line).len() == 0
}

/// How a whole source text reads: split into lines, blank lines skipped,
/// every other line one instruction in order; the first malformed line's
/// error is the text's error.
pub open spec fn parse_lines_spec(lines: Seq<Seq<char>>) -> Result<
    Seq<Instruction>,
    ParseErrorModel,
>
    decreases lines.len(),
{
    if lines.len() == 0 {
        Ok(Seq::<Instruction>::empty())
    } else if is_blank_line(lines[0]) {
        parse_lines_spec(lines.drop_first())
    } else {
        match parse_line_spec(lines[0]) {
            Err(e) => Err(e),
            Ok(i) => match parse_lines_spec(lines.drop_first()) {
                Err(e) => Err(e),
                Ok(rest) => Ok(seq![i] + rest),
            },
        }
    }
}

/// How a whole source text reads, from its characters.
pub open spec fn parse_text_spec(text: Seq<char>) -> Result<Seq<Instruction>, ParseErrorModel> {
    parse_lines_spec(split_spec(text, '\n'))
}

/// Parsing is deterministic: any two instruction sequences read from the
/// same text are equal, so re-parsing identical text always yields an
/// identical sequence.
pub proof fn lemma_parse_deterministic(
    text: Seq<char>,
    first: Seq<Instruction>,
    second: Seq<Instruction>,
)
    requires
        parse_text_spec(text) == Ok::<Seq<Instruction>, ParseErrorModel>(first),
        parse_text_spec(text) == Ok::<Seq<Instruction>, ParseErrorModel>(second),
    ensures
        first == second,
{
}

/// A vector holding the three characters of a mnemonic, for error values.
fn mnemonic_vec(c0: char, c1: char, c2: char) -> (r: Vec<char>)
    ensures
        r@ == seq![c0, c1, c2],
{
    let mut r: Vec<char> = Vec::new();
    r.push(c0);
    r.push(c1);
    r.push(c2);
    proof {
        assert(r@ =~= seq![c0, c1, c2]);
    }
    r
}

/// The characters of a token, for error values.
fn token_vec(t: &Vec<char>) -> (r: Vec<char>)
    ensures
        r@ == t@,
{
    let mut r: Vec<char> = Vec::new();
    let mut i: usize = 0;
    while i < t.len()
        invariant
            i <= t@.len(),
            r@ == t@.take(i as int),
        decreases t@.len() - i,
    {
        r.push(t[i]);
        proof {
            assert(r@ =~= t@.take(i + 1 as int));
        }
        i = i + 1;
    }
    proof {
        assert(r@ =~= t@);
    }
    r
}

/// Whether a token is the given three characters.
fn token_is(t: &Vec<char>, c0: char, c1: char, c2: char) -> (r: bool)
    ensures
        r == (t@.len() == 3 && t@[0] == c0 && t@[1] == c1 && t@[2] == c2),
{
    t.len() == 3 && t[0] == c0 && t[1] == c1 && t[2] == c2
}

/// Reads an operand that must name a register, for the instruction whose
/// mnemonic is the given three characters.
fn parse_register_operand(target: &Vec<char>, c0: char, c1: char, c2: char) -> (r: Result<
    usize,
    ParseError,
>)
    ensures
        result_agrees(r, parse_register_operand_spec(target@, seq![c0, c1, c2])),
        r matches Ok(t) ==> t < 4,
{
    match classify_token(target) {
        None => Err(ParseError::InvalidArgument { token: token_vec(target) }),
        Some(ArgumentType::Number(_)) => Err(
            ParseError::InvalidDestination { mnemonic: mnemonic_vec(c0, c1, c2) },
        ),
        Some(ArgumentType::Register(t)) => Ok(t),
    }
}

impl Copy {
    /// Resolves the source and writes it into the destination register.
    pub fn run(&self, registers: &mut [i32; 4])
        requires
            argument_wf(self.source),
            self.destination < 4,
        ensures
            final(registers)@ == registers_after(Instruction::Copy(*self), old(registers)@),
    {
        let value = match self.source {
            ArgumentType::Number(v) => v,
            ArgumentType::Register(r) => registers[r],
        };
        registers[self.destination] = value;
    }

    /// Reads a copy from its two operand tokens.
    pub fn parse(source: &str, destination: &str) -> (r: Result<Copy, ParseError>)
        ensures
            result_agrees(r, parse_copy_spec(source@, destination@)),
            r matches Ok(c) ==> instruction_wf(Instruction::Copy(c)),
    {
        Self::parse_tokens(&chars_of(source), &chars_of(destination))
    }

    /// Reads a copy from its two operand tokens, already as characters.
    fn parse_tokens(source: &Vec<char>, destination: &Vec<char>) -> (r: Result<Copy, ParseError>)
        ensures
            result_agrees(r, parse_copy_spec(source@, destination@)),
            r matches Ok(c) ==> instruction_wf(Instruction::Copy(c)),
    {
        let src = match classify_token(source) {
            None => {
                return Err(ParseError::InvalidArgument { token: token_vec(source) });
            },
            Some(a) => a,
        };
        match classify_token(destination) {
            None => Err(ParseError::InvalidArgument { token: token_vec(destination) }),
            Some(ArgumentType::Number(_)) => Err(
                ParseError::InvalidDestination { mnemonic: mnemonic_vec('c', 'p', 'y') },
            ),
            Some(ArgumentType::Register(r)) => Ok(Copy { source: src, destination: r }),
        }
    }
}

impl Increment {
    /// Adds one to the target register, wrapping at the largest value.
    pub fn run(&self, registers: &mut [i32; 4])
        requires
            self.target < 4,
        ensures
            final(registers)@ == registers_after(Instruction::Increment(*self), old(registers)@),
    {
        let v = registers[self.target];
        registers[self.target] = if v == i32::MAX {
            i32::MIN
        } else {
            v + 1
        };
    }

    /// Reads an increment from its operand token, which must name a
    /// register.
    pub fn parse(target: &str) -> (r: Result<Increment, ParseError>)
        ensures
            result_agrees(
                match r {
                    Ok(x) => Ok(x.target),
                    Err(e) => Err(e),
                },
                parse_register_operand_spec(target@, seq!['i', 'n', 'c']),
            ),
            r matches Ok(x) ==> x.target < 4,
    {
        Self::parse_token(&chars_of(target))
    }

    /// Reads an increment from its operand token, already as characters.
    fn parse_token(target: &Vec<char>) -> (r: Result<Increment, ParseError>)
        ensures
            result_agrees(
                match r {
                    Ok(x) => Ok(x.target),
                    Err(e) => Err(e),
                },
                parse_register_operand_spec(target@, seq!['i', 'n', 'c']),
            ),
            r matches Ok(x) ==> x.target < 4,
    {
        match parse_register_operand(target, 'i', 'n', 'c') {
            Ok(t) => Ok(Increment { target: t }),
            Err(e) => Err(e),
        }
    }
}

impl Decrement {
    /// Subtracts one from the target register, wrapping at the smallest
    /// value.
    pub fn run(&self, registers: &mut [i32; 4])
        requires
            self.target < 4,
        ensures
            final(registers)@ == registers_after(Instruction::Decrement(*self), old(registers)@),
    {
        let v = registers[self.target];
        registers[self.target] = if v == i32::MIN {
            i32::MAX
        } else {
            v - 1
        };
    }

    /// Reads a decrement from its operand token, which must name a
    /// register.
    pub fn parse(target: &str) -> (r: Result<Decrement, ParseError>)
        ensures
            result_agrees(
                match r {
                    Ok(x) => Ok(x.target),
                    Err(e) => Err(e),
                },
                parse_register_operand_spec(target@, seq!['d', 'e', 'c']),
            ),
            r matches Ok(x) ==> x.target < 4,
    {
        Self::parse_token(&chars_of(target))
    }

    /// Reads a decrement from its operand token, already as characters.
    fn parse_token(target: &Vec<char>) -> (r: Result<Decrement, ParseError>)
        ensures
            result_agrees(
                match r {
                    Ok(x) => Ok(x.target),
                    Err(e) => Err(e),
                },
                parse_register_operand_spec(target@, seq!['d', 'e', 'c']),
            ),
            r matches Ok(x) ==> x.target < 4,
    {
        match parse_register_operand(target, 'd', 'e', 'c') {
            Ok(t) => Ok(Decrement { target: t }),
            Err(e) => Err(e),
        }
    }
}

impl JumpNotZero {
    /// Resolves the condition; when it is nonzero, reports a jump by the
    /// resolved offset, otherwise the default advance.
    pub fn run(&self, registers: &[i32; 4]) -> (t: Transfer)
        requires
            argument_wf(self.target),
            argument_wf(self.jump_distance),
        ensures
            t == transfer_of(Instruction::JumpNotZero(*self), registers@),
    {
        let condition = match self.target {
            ArgumentType::Number(v) => v,
            ArgumentType::Register(r) => registers[r],
        };
        if condition != 0 {
            let distance = match self.jump_distance {
                ArgumentType::Number(v) => v,
                ArgumentType::Register(r) => registers[r],
            };
            Transfer::Jump(distance)
        } else {
            Transfer::Advance
        }
    }

    /// Reads a jump from its two operand tokens.
    pub fn parse(target: &str, jump_distance: &str) -> (r: Result<JumpNotZero, ParseError>)
        ensures
            result_agrees(r, parse_jnz_spec(target@, jump_distance@)),
            r matches Ok(j) ==> instruction_wf(Instruction::JumpNotZero(j)),
    {
        Self::parse_tokens(&chars_of(target), &chars_of(jump_distance))
    }

    /// Reads a jump from its two operand tokens, already as characters.
    fn parse_tokens(target: &Vec<char>, jump_distance: &Vec<char>) -> (r: Result<
        JumpNotZero,
        ParseError,
    >)
        ensures
            result_agrees(r, parse_jnz_spec(target@, jump_distance@)),
            r matches Ok(j) ==> instruction_wf(Instruction::JumpNotZero(j)),
    {
        let condition = match classify_token(target) {
            None => {
                return Err(ParseError::InvalidArgument { token: token_vec(target) });
            },
            Some(a) => a,
        };
        match classify_token(jump_distance) {
            None => Err(ParseError::InvalidArgument { token: token_vec(jump_distance) }),
            Some(d) => Ok(JumpNotZero { target: condition, jump_distance: d }),
        }
    }
}

impl Instruction {
    /// Applies the instruction to the register file and reports how the
    /// instruction pointer should move.
    pub fn run(&self, registers: &mut [i32; 4]) -> (t: Transfer)
        requires
            instruction_wf(*self),
        ensures
            final(registers)@ == registers_after(*self, old(registers)@),
            t == transfer_of(*self, old(registers)@),
    {
        match self {
            Instruction::Copy(instruction) => {
                instruction.run(registers);
                Transfer::Advance
            },
            Instruction::Increment(instruction) => {
                instruction.run(registers);
                Transfer::Advance
            },
            Instruction::Decrement(instruction) => {
                instruction.run(registers);
                Transfer::Advance
            },
            Instruction::JumpNotZero(instruction) => instruction.run(registers),
        }
    }

    /// Reads a token as an operand: one of the four register names, or a
    /// signed decimal literal.
    pub fn parse_argument_type(argument: &str) -> (r: Result<ArgumentType, ParseError>)
        ensures
            result_agrees(r, parse_argument_spec(argument@)),
            r matches Ok(a) ==> argument_wf(a),
    {
        let token = chars_of(argument);
        match classify_token(&token) {
            Some(a) => Ok(a),
            None => Err(ParseError::InvalidArgument { token }),
        }
    }

    /// Reads one line of source text as an instruction.
    pub fn parse(input: &str) -> (r: Result<Instruction, ParseError>)
        ensures
            result_agrees(r, parse_line_spec(input@)),
            r matches Ok(i) ==> instruction_wf(i),
    {
        Self::parse_line_chars(&chars_of(input))
    }

    /// Reads one line, already as characters.
    fn parse_line_chars(line: &Vec<char>) -> (r: Result<Instruction, ParseError>)
        ensures
            result_agrees(r, parse_line_spec(line@)),
            r matches Ok(i) ==> instruction_wf(i),
    {
        let trimmed = trim_chars(line);
        let tokens = split_chars(&trimmed, ' ');
        proof {
            lemma_split_len(trim_spec(line@), ' ');
        }
        let ghost spec_tokens = split_spec(trim_spec(line@), ' ');
        let mnemonic = &tokens[0];
        proof {
            assert(mnemonic@ == spec_tokens[0]);
        }
        if token_is(mnemonic, 'c', 'p', 'y') {
            if tokens.len() < 2 {
                return Err(ParseError::MissingOperand { mnemonic: token_vec(mnemonic), position: 1 });
            }
            if tokens.len() < 3 {
                return Err(ParseError::MissingOperand { mnemonic: token_vec(mnemonic), position: 2 });
            }
            match Copy::parse_tokens(&tokens[1], &tokens[2]) {
                Ok(c) => Ok(Instruction::Copy(c)),
                Err(e) => Err(e),
            }
        } else if token_is(mnemonic, 'i', 'n', 'c') {
            if tokens.len() < 2 {
                return Err(ParseError::MissingOperand { mnemonic: token_vec(mnemonic), position: 1 });
            }
            proof {
                assert(spec_tokens[0] =~= seq!['i', 'n', 'c']);
            }
            match Increment::parse_token(&tokens[1]) {
                Ok(x) => Ok(Instruction::Increment(x)),
                Err(e) => Err(e),
            }
        } else if token_is(mnemonic, 'd', 'e', 'c') {
            if tokens.len() < 2 {
                return Err(ParseError::MissingOperand { mnemonic: token_vec(mnemonic), position: 1 });
            }
            proof {
                assert(spec_tokens[0] =~= seq!['d', 'e', 'c']);
            }
            match Decrement::parse_token(&tokens[1]) {
                Ok(x) => Ok(Instruction::Decrement(x)),
                Err(e) => Err(e),
            }
        } else if token_is(mnemonic, 'j', 'n', 'z') {
            if tokens.len() < 2 {
                return Err(ParseError::MissingOperand { mnemonic: token_vec(mnemonic), position: 1 });
            }
            if tokens.len() < 3 {
                return Err(ParseError::MissingOperand { mnemonic: token_vec(mnemonic), position: 2 });
            }
            match JumpNotZero::parse_tokens(&tokens[1], &tokens[2]) {
                Ok(j) => Ok(Instruction::JumpNotZero(j)),
                Err(e) => Err(e),
            }
        } else {
            Err(ParseError::UnknownMnemonic { token: token_vec(mnemonic) })
        }
    }

    /// Reads a whole source text: one instruction per non-blank line, in
    /// order.
    pub fn parse_str(input: &str) -> (r: Result<Vec<Instruction>, ParseError>)
        ensures
            (match r {
                Ok(v) => parse_text_spec(input@) == Ok::<Seq<Instruction>, ParseErrorModel>(v@)
                    && forall|k: int| 0 <= k < v@.len() ==> instruction_wf(#[trigger] v@[k]),
                Err(e) => parse_text_spec(input@) == Err::<Seq<Instruction>, ParseErrorModel>(e@),
            }),
    {
        let chars = chars_of(input);
        let lines = split_chars(&chars, '\n');
        let ghost all = views_of(lines@);
        let mut out: Vec<Instruction> = Vec::new();
        let mut i: usize = 0;
        proof {
            assert(all.skip(0) =~= all);
            assert(out@ + Seq::<Instruction>::empty() =~= out@);
        }
        while i < lines.len()
            invariant
                i <= lines@.len(),
                all == views_of(lines@),
                parse_text_spec(input@) == (match parse_lines_spec(all.skip(i as int)) {
                    Ok(rest) => Ok::<Seq<Instruction>, ParseErrorModel>(out@ + rest),
                    Err(e) => Err::<Seq<Instruction>, ParseErrorModel>(e),
                }),
                forall|k: int| 0 <= k < out@.len() ==> instruction_wf(#[trigger] out@[k]),
            decreases lines@.len() - i,
        {
            let ghost tail = all.skip(i as int);
            proof {
                assert(tail[0] == all[i as int]);
                assert(tail.drop_first() =~= all.skip(i + 1 as int));
            }
            let line = &lines[i];
            let trimmed = trim_chars(line);
            if trimmed.len() > 0 {
                match Self::parse_line_chars(line) {
                    Ok(instr) => {
                        proof {
                            if parse_lines_spec(all.skip(i + 1 as int)) is Ok {
                                let rest = parse_lines_spec(all.skip(i + 1 as int))->Ok_0;
                                assert(out@ + (seq![instr] + rest) =~= out@.push(instr) + rest);
                            }
                        }
                        out.push(instr);
                    },
                    Err(e) => {
                        return Err(e);
                    },
                }
            }
            i = i + 1;
        }
        proof {
            assert(all.skip(lines@.len() as int) =~= Seq::<Seq<char>>::empty());
            assert(out@ + Seq::<Instruction>::empty() =~= out@);
        }
        Ok(out)
    }
}

} // verus!
