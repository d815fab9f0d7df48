//! The interpreter: a program counter and a variable store, advanced one line
//! at a time.
//!
//! Work on `flt` values (reading a literal, arithmetic) is done by the host:
//! when a line needs it, `Program::interpret` hands back the work to do and
//! waits, and `Program::resume` takes the result and completes the line.
use vstd::prelude::*;
use crate::instructions::{ArithOp, InstrModel, Instruction, Type, Val, ValModel};
use crate::memory::{Cll, Mem, Table};
use crate::parser::{ProgramFile, labels_sound};
use crate::text::{chars_of, chr_literal, digits_value, int_literal, parse_chr, parse_int, string_from};

verus! {

/// The name of the carry variable, where three-operand arithmetic lands. The
/// name is not reserved: a `var: -, ...` line declares the same variable, and
/// the next carry instruction replaces it.
pub open spec fn carry_name() -> Seq<char> {
    seq!['-']
}

/// Runtime errors; each names the line (counted from 0) where it was raised,
/// but for the literals that did not parse.
#[derive(Debug, PartialEq)]
pub enum Error {
    UnimplementedInstruction(Instruction, usize),
    VariableDoesNotExists(String, usize),
    VariablesDifferInType(usize),
    VariableIsUninitialized(String, usize),
    CouldNotParseIntValue(String),
    CouldNotParseFltValue(String),
    CouldNotParseChrValue(String),
    CannotApplyOperationsOnChar(usize),
    CannotApplyComparisonsOnChar(usize),
    CouldNotFindFlag(String, usize),
    CannotDetermineReturnType(usize),
    /// An `int` division or remainder by zero.
    DivisionByZero(usize),
}

/// The model of an `Error`.
pub enum ErrorModel {
    UnimplementedInstruction(InstrModel, usize),
    VariableDoesNotExists(Seq<char>, usize),
    VariablesDifferInType(usize),
    VariableIsUninitialized(Seq<char>, usize),
    CouldNotParseIntValue(Seq<char>),
    CouldNotParseFltValue(Seq<char>),
    CouldNotParseChrValue(Seq<char>),
    CannotApplyOperationsOnChar(usize),
    CannotApplyComparisonsOnChar(usize),
    CouldNotFindFlag(Seq<char>, usize),
    CannotDetermineReturnType(usize),
    DivisionByZero(usize),
}

impl View for Error {
    type V = ErrorModel;

    open spec fn view(&self) -> ErrorModel {
        match self {
            Error::UnimplementedInstruction(i, n) => ErrorModel::UnimplementedInstruction(i@, *n),
            Error::VariableDoesNotExists(v, n) => ErrorModel::VariableDoesNotExists(v@, *n),
            Error::VariablesDifferInType(n) => ErrorModel::VariablesDifferInType(*n),
            Error::VariableIsUninitialized(v, n) => ErrorModel::VariableIsUninitialized(v@, *n),
            Error::CouldNotParseIntValue(t) => ErrorModel::CouldNotParseIntValue(t@),
            Error::CouldNotParseFltValue(t) => ErrorModel::CouldNotParseFltValue(t@),
            Error::CouldNotParseChrValue(t) => ErrorModel::CouldNotParseChrValue(t@),
            Error::CannotApplyOperationsOnChar(n) => ErrorModel::CannotApplyOperationsOnChar(*n),
            Error::CannotApplyComparisonsOnChar(n) => ErrorModel::CannotApplyComparisonsOnChar(*n),
            Error::CouldNotFindFlag(f, n) => ErrorModel::CouldNotFindFlag(f@, *n),
            Error::CannotDetermineReturnType(n) => ErrorModel::CannotDetermineReturnType(*n),
            Error::DivisionByZero(n) => ErrorModel::DivisionByZero(*n),
        }
    }
}

/// An operand of `flt` arithmetic: a value (IEEE-754 bits) or a literal to read.
#[derive(Debug, PartialEq)]
pub enum FltArg {
    Bits(u64),
    Text(String),
}

/// Work on `flt` values that the host does for the interpreter.
#[derive(Debug, PartialEq)]
pub enum FloatWork {
    /// Read a literal as a `flt`.
    Parse(String),
    /// Apply an operator; literal operands are read first.
    Apply(ArithOp, FltArg, FltArg),
}

/// What a `prt` line prints.
#[derive(Debug, PartialEq)]
pub enum Printed {
    /// A literal operand, as written.
    Literal { line: usize, text: String },
    /// A variable and its cell (which may be uninitialised).
    Cell { line: usize, name: String, cell: Cll },
}

/// What a call to `Program::interpret` did.
#[derive(Debug, PartialEq)]
pub enum Event {
    /// A line was executed.
    Moved,
    /// A `prt` line was executed; the host prints this.
    Printed(Printed),
    /// The line needs this work on `flt` values; `Program::resume` completes it.
    Float(FloatWork),
    /// The program counter has reached the end of the program.
    Finished(usize),
}

pub enum FltArgModel {
    Bits(u64),
    Text(Seq<char>),
}

pub enum FloatWorkModel {
    Parse(Seq<char>),
    Apply(ArithOp, FltArgModel, FltArgModel),
}

pub enum PrintedModel {
    Literal { line: usize, text: Seq<char> },
    Cell { line: usize, name: Seq<char>, cell: Cll },
}

impl View for FltArg {
    type V = FltArgModel;

    open spec fn view(&self) -> FltArgModel {
        match self {
            FltArg::Bits(b) => FltArgModel::Bits(*b),
            FltArg::Text(t) => FltArgModel::Text(t@),
        }
    }
}

impl View for FloatWork {
    type V = FloatWorkModel;

    open spec fn view(&self) -> FloatWorkModel {
        match self {
            FloatWork::Parse(t) => FloatWorkModel::Parse(t@),
            FloatWork::Apply(op, a, b) => FloatWorkModel::Apply(*op, a@, b@),
        }
    }
}

impl View for Printed {
    type V = PrintedModel;

    open spec fn view(&self) -> PrintedModel {
        match self {
            Printed::Literal { line, text } => PrintedModel::Literal { line: *line, text: text@ },
            Printed::Cell { line, name, cell } => PrintedModel::Cell {
                line: *line,
                name: name@,
                cell: *cell,
            },
        }
    }
}

/// A line that waits for `flt` work: the work, the variable that receives its
/// result, and the error to raise when the host cannot read a literal of it.
pub struct JobModel {
    pub work: FloatWorkModel,
    pub target: Seq<char>,
    pub on_unparsable: Option<ErrorModel>,
}

/// What executing one line does.
pub enum Outcome {
    /// The program counter is past the last line: the run is over.
    Halted,
    /// The line raises an error.
    Fault(ErrorModel),
    /// The line completes: the new store, the next line, and what it prints.
    Advance { mem: Map<Seq<char>, Cll>, pc: int, out: Option<PrintedModel> },
    /// The line needs `flt` work before it can complete.
    Defer(JobModel),
}

// ---------------------------------------------------------------------------
// Integer arithmetic
// ---------------------------------------------------------------------------

/// `x / d` rounded toward zero, as Rust's integer division (`d != 0`).
pub open spec fn quot(x: int, d: int) -> int {
    if x == 0 {
        0
    } else if x > 0 && d > 0 {
        x / d
    } else if x < 0 && d < 0 {
        (-x) / (-d)
    } else if x < 0 {
        -((-x) / d)
    } else {
        -(x / (-d))
    }
}

/// The remainder that goes with `quot`: it has the sign of `x`.
pub open spec fn rem(x: int, d: int) -> int {
    if x == 0 {
        0
    } else if x > 0 && d > 0 {
        x % d
    } else if x < 0 && d < 0 {
        -((-x) % (-d))
    } else if x < 0 {
        -((-x) % d)
    } else {
        x % (-d)
    }
}

/// `int` arithmetic: `+`, `-` and `*` wrap around on overflow, `/` rounds toward
/// zero and `i32::MIN / -1` wraps to `i32::MIN`; dividing by zero has no result.
pub open spec fn int_arith(op: ArithOp, a: i32, b: i32) -> Option<i32> {
    match op {
        ArithOp::Add => Some(a.wrapping_add(b)),
        ArithOp::Sub => Some(a.wrapping_sub(b)),
        ArithOp::Mul => Some(a.wrapping_mul(b)),
        ArithOp::Div => if b == 0 {
            None
        } else if quot(a as int, b as int) > i32::MAX {
            Some(i32::MIN)
        } else {
            Some(quot(a as int, b as int) as i32)
        },
        ArithOp::Mod => if b == 0 {
            None
        } else {
            Some(rem(a as int, b as int) as i32)
        },
    }
}

/// A `flt` value compares equal to zero: `+0.0` or `-0.0`.
pub open spec fn flt_is_zero(bits: u64) -> bool {
    bits == 0 || bits == 0x8000_0000_0000_0000
}

// ---------------------------------------------------------------------------
// The semantics of one line
// ---------------------------------------------------------------------------

/// The line completes, printing nothing.
pub open spec fn advance(mem: Map<Seq<char>, Cll>, pc: int) -> Outcome {
    Outcome::Advance { mem, pc, out: None }
}

/// The cell of variable `name` read as an operand of type `t`: it must exist,
/// have that type and hold a value.
pub open spec fn fetch(
    mem: Map<Seq<char>, Cll>,
    name: Seq<char>,
    t: Type,
    pc: usize,
) -> Result<Cll, ErrorModel> {
    if !mem.contains_key(name) {
        Err(ErrorModel::VariableDoesNotExists(name, pc))
    } else if mem[name].spec_tag() != t {
        Err(ErrorModel::VariablesDifferInType(pc))
    } else if !mem[name].spec_is_set() {
        Err(ErrorModel::VariableIsUninitialized(name, pc))
    } else {
        Ok(mem[name])
    }
}

/// The value of an `int` cell.
pub open spec fn int_of(c: Cll) -> i32 {
    match c {
        Cll::Int(Some(v)) => v,
        _ => 0,
    }
}

/// The value of a `flt` cell.
pub open spec fn bits_of(c: Cll) -> u64 {
    match c {
        Cll::Flt(Some(v)) => v,
        _ => 0,
    }
}

/// `set: var, value`.
pub open spec fn assign_step(
    mem: Map<Seq<char>, Cll>,
    pc: usize,
    var: Seq<char>,
    value: ValModel,
) -> Outcome {
    if !mem.contains_key(var) {
        Outcome::Fault(ErrorModel::VariableDoesNotExists(var, pc))
    } else {
        match value {
            ValModel::Var(src) => match fetch(mem, src, mem[var].spec_tag(), pc) {
                Ok(c) => advance(mem.insert(var, c), pc + 1),
                Err(e) => Outcome::Fault(e),
            },
            ValModel::Value(text) => match mem[var] {
                Cll::Int(_) => match int_literal(text) {
                    Some(v) => advance(mem.insert(var, Cll::Int(Some(v))), pc + 1),
                    None => Outcome::Fault(ErrorModel::CouldNotParseIntValue(text)),
                },
                Cll::Chr(_) => match chr_literal(text) {
                    Some(v) => advance(mem.insert(var, Cll::Chr(Some(v))), pc + 1),
                    None => Outcome::Fault(ErrorModel::CouldNotParseChrValue(text)),
                },
                Cll::Flt(_) => Outcome::Defer(
                    JobModel {
                        work: FloatWorkModel::Parse(text),
                        target: var,
                        on_unparsable: Some(ErrorModel::CouldNotParseFltValue(text)),
                    },
                ),
            },
        }
    }
}

/// Stores the `int` result of `op` in `target`.
pub open spec fn int_result(
    mem: Map<Seq<char>, Cll>,
    pc: usize,
    op: ArithOp,
    target: Seq<char>,
    a: i32,
    b: i32,
) -> Outcome {
    match int_arith(op, a, b) {
        Some(r) => advance(mem.insert(target, Cll::Int(Some(r))), pc + 1),
        None => Outcome::Fault(ErrorModel::DivisionByZero(pc)),
    }
}

/// `add`, `sub`, `mul`, `div`, `mod`: `var` becomes `var op value`.
pub open spec fn arith_step(
    mem: Map<Seq<char>, Cll>,
    pc: usize,
    op: ArithOp,
    var: Seq<char>,
    value: ValModel,
) -> Outcome {
    if !mem.contains_key(var) {
        Outcome::Fault(ErrorModel::VariableDoesNotExists(var, pc))
    } else {
        match mem[var] {
            Cll::Chr(_) => Outcome::Fault(ErrorModel::CannotApplyOperationsOnChar(pc)),
            Cll::Int(None) | Cll::Flt(None) => Outcome::Fault(ErrorModel::VariableIsUninitialized(var, pc)),
            Cll::Int(Some(a)) => match value {
                ValModel::Value(text) => match int_literal(text) {
                    Some(b) => int_result(mem, pc, op, var, a, b),
                    None => Outcome::Fault(ErrorModel::CouldNotParseIntValue(text)),
                },
                ValModel::Var(src) => match fetch(mem, src, Type::Int, pc) {
                    Ok(c) => int_result(mem, pc, op, var, a, int_of(c)),
                    Err(e) => Outcome::Fault(e),
                },
            },
            Cll::Flt(Some(a)) => match value {
                ValModel::Value(text) => Outcome::Defer(
                    JobModel {
                        work: FloatWorkModel::Apply(op, FltArgModel::Bits(a), FltArgModel::Text(text)),
                        target: var,
                        on_unparsable: Some(ErrorModel::CouldNotParseFltValue(text)),
                    },
                ),
                ValModel::Var(src) => match fetch(mem, src, Type::Flt, pc) {
                    Ok(c) => Outcome::Defer(
                        JobModel {
                            work: FloatWorkModel::Apply(
                                op,
                                FltArgModel::Bits(a),
                                FltArgModel::Bits(bits_of(c)),
                            ),
                            target: var,
                            on_unparsable: None,
                        },
                    ),
                    Err(e) => Outcome::Fault(e),
                },
            },
        }
    }
}

/// An operand of carry arithmetic read as an `int`.
pub open spec fn int_arg(
    mem: Map<Seq<char>, Cll>,
    pc: usize,
    v: ValModel,
) -> Result<i32, ErrorModel> {
    match v {
        ValModel::Value(text) => match int_literal(text) {
            Some(x) => Ok(x),
            None => Err(ErrorModel::CannotDetermineReturnType(pc)),
        },
        ValModel::Var(n) => match fetch(mem, n, Type::Int, pc) {
            Ok(c) => Ok(int_of(c)),
            Err(e) => Err(e),
        },
    }
}

/// An operand of carry arithmetic read as a `flt`.
pub open spec fn flt_arg(
    mem: Map<Seq<char>, Cll>,
    pc: usize,
    v: ValModel,
) -> Result<FltArgModel, ErrorModel> {
    match v {
        ValModel::Value(text) => Ok(FltArgModel::Text(text)),
        ValModel::Var(n) => match fetch(mem, n, Type::Flt, pc) {
            Ok(c) => Ok(FltArgModel::Bits(bits_of(c))),
            Err(e) => Err(e),
        },
    }
}

/// `cadd`, `csub`, `cmul`, `cdiv`, `cmod`: the carry variable becomes `x op y`,
/// with the type of the first variable operand.
pub open spec fn carry_step(
    mem: Map<Seq<char>, Cll>,
    pc: usize,
    op: ArithOp,
    x: ValModel,
    y: ValModel,
) -> Outcome {
    if x is Value && y is Value {
        Outcome::Fault(ErrorModel::CannotDetermineReturnType(pc))
    } else {
        let key = match x {
            ValModel::Var(n) => n,
            _ => y->Var_0,
        };
        if !mem.contains_key(key) {
            Outcome::Fault(ErrorModel::VariableDoesNotExists(key, pc))
        } else if mem[key] is Chr {
            Outcome::Fault(ErrorModel::CannotApplyOperationsOnChar(pc))
        } else if !mem[key].spec_is_set() {
            Outcome::Fault(ErrorModel::VariableIsUninitialized(key, pc))
        } else if mem[key] is Int {
            match (int_arg(mem, pc, x), int_arg(mem, pc, y)) {
                (Ok(a), Ok(b)) => int_result(mem, pc, op, carry_name(), a, b),
                (Err(e), _) => Outcome::Fault(e),
                (_, Err(e)) => Outcome::Fault(e),
            }
        } else {
            match (flt_arg(mem, pc, x), flt_arg(mem, pc, y)) {
                (Ok(a), Ok(b)) => Outcome::Defer(
                    JobModel {
                        work: FloatWorkModel::Apply(op, a, b),
                        target: carry_name(),
                        on_unparsable: if a is Text || b is Text {
                            Some(ErrorModel::CannotDetermineReturnType(pc))
                        } else {
                            None
                        },
                    },
                ),
                (Err(e), _) => Outcome::Fault(e),
                (_, Err(e)) => Outcome::Fault(e),
            }
        }
    }
}

/// Continues at the line of label `flag`.
pub open spec fn goto_step(
    mem: Map<Seq<char>, Cll>,
    flags: Map<Seq<char>, usize>,
    pc: usize,
    flag: Seq<char>,
) -> Outcome {
    if flags.contains_key(flag) {
        advance(mem, flags[flag] as int)
    } else {
        Outcome::Fault(ErrorModel::CouldNotFindFlag(flag, pc))
    }
}

/// `jmp` (`on_zero`) and `jne` (`!on_zero`): jump when the variable's value is
/// (is not) zero. The variable must hold a value, and not a `chr`.
pub open spec fn jump_step(
    mem: Map<Seq<char>, Cll>,
    flags: Map<Seq<char>, usize>,
    pc: usize,
    var: Seq<char>,
    flag: Seq<char>,
    on_zero: bool,
) -> Outcome {
    if !mem.contains_key(var) {
        Outcome::Fault(ErrorModel::VariableDoesNotExists(var, pc))
    } else {
        match mem[var] {
            Cll::Int(None) | Cll::Flt(None) | Cll::Chr(None) => Outcome::Fault(ErrorModel::VariableIsUninitialized(var, pc)),
            Cll::Chr(Some(_)) => Outcome::Fault(ErrorModel::CannotApplyComparisonsOnChar(pc)),
            Cll::Int(Some(v)) => if (v == 0) == on_zero {
                goto_step(mem, flags, pc, flag)
            } else {
                advance(mem, pc + 1)
            },
            Cll::Flt(Some(b)) => if flt_is_zero(b) == on_zero {
                goto_step(mem, flags, pc, flag)
            } else {
                advance(mem, pc + 1)
            },
        }
    }
}

/// What instruction `ins`, standing at line `pc`, does.
pub open spec fn instr_step(
    ins: InstrModel,
    flags: Map<Seq<char>, usize>,
    pc: usize,
    mem: Map<Seq<char>, Cll>,
) -> Outcome {
    match ins {
        InstrModel::Var { var, var_type } => advance(mem.insert(var, Cll::spec_empty(var_type)), pc + 1),
        InstrModel::Assign { var, value } => assign_step(mem, pc, var, value),
        InstrModel::Add { var, value } => arith_step(mem, pc, ArithOp::Add, var, value),
        InstrModel::Sub { var, value } => arith_step(mem, pc, ArithOp::Sub, var, value),
        InstrModel::Mul { var, value } => arith_step(mem, pc, ArithOp::Mul, var, value),
        InstrModel::Div { var, value } => arith_step(mem, pc, ArithOp::Div, var, value),
        InstrModel::Mod { var, value } => arith_step(mem, pc, ArithOp::Mod, var, value),
        InstrModel::Ret { var } => Outcome::Fault(ErrorModel::UnimplementedInstruction(InstrModel::Ret { var }, pc)),
        InstrModel::Flg => advance(mem, pc + 1),
        InstrModel::Nll => advance(mem, pc + 1),
        InstrModel::Gto { flag } => goto_step(mem, flags, pc, flag),
        InstrModel::Jmp { var, flag } => jump_step(mem, flags, pc, var, flag, true),
        InstrModel::Jne { var, flag } => jump_step(mem, flags, pc, var, flag, false),
        InstrModel::Prt { value } => match value {
            ValModel::Value(text) => Outcome::Advance {
                mem,
                pc: pc + 1,
                out: Some(PrintedModel::Literal { line: pc, text }),
            },
            ValModel::Var(name) => if mem.contains_key(name) {
                Outcome::Advance {
                    mem,
                    pc: pc + 1,
                    out: Some(PrintedModel::Cell { line: pc, name, cell: mem[name] }),
                }
            } else {
                Outcome::Fault(ErrorModel::VariableDoesNotExists(name, pc))
            },
        },
        InstrModel::Cadd { op1, op2 } => carry_step(mem, pc, ArithOp::Add, op1, op2),
        InstrModel::Csub { op1, op2 } => carry_step(mem, pc, ArithOp::Sub, op1, op2),
        InstrModel::Cmul { op1, op2 } => carry_step(mem, pc, ArithOp::Mul, op1, op2),
        InstrModel::Cdiv { op1, op2 } => carry_step(mem, pc, ArithOp::Div, op1, op2),
        InstrModel::Cmod { op1, op2 } => carry_step(mem, pc, ArithOp::Mod, op1, op2),
    }
}

/// What the line at `pc` of `code` does; past the last line, the run is over.
pub open spec fn step_spec(
    code: Seq<InstrModel>,
    flags: Map<Seq<char>, usize>,
    pc: usize,
    mem: Map<Seq<char>, Cll>,
) -> Outcome {
    if pc >= code.len() {
        Outcome::Halted
    } else {
        instr_step(code[pc as int], flags, pc, mem)
    }
}

// ---------------------------------------------------------------------------
// Executing one line
// ---------------------------------------------------------------------------

/// A line waiting for `flt` work (see `JobModel`).
pub struct FloatJob {
    work: FloatWork,
    target: String,
    on_unparsable: Option<Error>,
}

impl FloatJob {
    /// The model of the job.
    pub closed spec fn view(&self) -> JobModel {
        JobModel {
            work: self.work@,
            target: self.target@,
            on_unparsable: match self.on_unparsable {
                Some(e) => Some(e@),
                None => None,
            },
        }
    }
}

impl FltArg {
    fn duplicate(&self) -> (r: FltArg)
        ensures
            r@ == self@,
    {
        match self {
            FltArg::Bits(b) => FltArg::Bits(*b),
            FltArg::Text(t) => FltArg::Text(t.clone()),
        }
    }
}

impl FloatWork {
    fn duplicate(&self) -> (r: FloatWork)
        ensures
            r@ == self@,
    {
        match self {
            FloatWork::Parse(t) => FloatWork::Parse(t.clone()),
            FloatWork::Apply(op, a, b) => FloatWork::Apply(*op, a.duplicate(), b.duplicate()),
        }
    }
}

/// How a line that did not fail ends.
enum Step {
    Advance(usize, Option<Printed>),
    Defer(FloatJob),
}

/// The model of what a line prints.
pub open spec fn printed_view(p: Option<Printed>) -> Option<PrintedModel> {
    match p {
        Some(x) => Some(x@),
        None => None,
    }
}

/// `r` and the store after the call are what outcome `o` says.
spec fn step_matches(
    r: Result<Step, Error>,
    o: Outcome,
    before: Map<Seq<char>, Cll>,
    after: Map<Seq<char>, Cll>,
) -> bool {
    match o {
        Outcome::Halted => false,
        Outcome::Fault(e) => r matches Err(x) && x@ == e && after == before,
        Outcome::Advance { mem, pc, out } => {
            &&& r matches Ok(Step::Advance(p, o2)) && p == pc && printed_view(o2) == out
            &&& after == mem
        },
        Outcome::Defer(job) => r matches Ok(Step::Defer(j)) && j.view() == job && after == before,
    }
}

/// `int` arithmetic (see `int_arith`).
pub fn int_apply(op: ArithOp, a: i32, b: i32) -> (r: Option<i32>)
    ensures
        r == int_arith(op, a, b),
{
    match op {
        ArithOp::Add => Some(a.wrapping_add(b)),
        ArithOp::Sub => Some(a.wrapping_sub(b)),
        ArithOp::Mul => Some(a.wrapping_mul(b)),
        ArithOp::Div => {
            if b == 0 {
                None
            } else {
                match a.checked_div(b) {
                    Some(q) => Some(q),
                    None => Some(i32::MIN),
                }
            }
        },
        ArithOp::Mod => {
            if b == 0 {
                None
            } else {
                match a.checked_rem(b) {
                    Some(q) => Some(q),
                    None => Some(0),
                }
            }
        },
    }
}

/// Reads variable `name` as an operand of type `t` (see `fetch`).
fn fetch_cell(mem: &Mem, name: &String, t: Type, pc: usize) -> (r: Result<Cll, Error>)
    ensures
        match fetch(mem.view(), name@, t, pc) {
            Ok(c) => r == Ok::<Cll, Error>(c),
            Err(e) => r matches Err(x) && x@ == e,
        },
{
    match mem.get(name) {
        None => Err(Error::VariableDoesNotExists(name.clone(), pc)),
        Some(c) => {
            if c.tag() != t {
                Err(Error::VariablesDifferInType(pc))
            } else if !c.is_set() {
                Err(Error::VariableIsUninitialized(name.clone(), pc))
            } else {
                Ok(c)
            }
        },
    }
}

fn int_literal_of(text: &String) -> (r: Option<i32>)
    ensures
        r == int_literal(text@),
{
    parse_int(&chars_of(text.as_str()))
}

fn int_store(
    mem: &mut Mem,
    pc: usize,
    op: ArithOp,
    target: String,
    a: i32,
    b: i32,
) -> (r: Result<Step, Error>)
    requires
        pc < usize::MAX,
    ensures
        step_matches(r, int_result(old(mem).view(), pc, op, target@, a, b), old(mem).view(), final(mem).view()),
{
    match int_apply(op, a, b) {
        Some(v) => {
            mem.insert(target, Cll::Int(Some(v)));
            Ok(Step::Advance(pc + 1, None))
        },
        None => Err(Error::DivisionByZero(pc)),
    }
}

fn assign_exec(mem: &mut Mem, pc: usize, var: &String, value: &Val) -> (r: Result<Step, Error>)
    requires
        pc < usize::MAX,
    ensures
        step_matches(r, assign_step(old(mem).view(), pc, var@, value@), old(mem).view(), final(mem).view()),
{
    let dest = match mem.get(var) {
        None => {
            return Err(Error::VariableDoesNotExists(var.clone(), pc));
        },
        Some(c) => c,
    };
    match value {
        Val::Var(src) => match fetch_cell(mem, src, dest.tag(), pc) {
            Ok(c) => {
                mem.insert(var.clone(), c);
                Ok(Step::Advance(pc + 1, None))
            },
            Err(e) => Err(e),
        },
        Val::Value(text) => match dest {
            Cll::Int(_) => match int_literal_of(text) {
                Some(v) => {
                    mem.insert(var.clone(), Cll::Int(Some(v)));
                    Ok(Step::Advance(pc + 1, None))
                },
                None => Err(Error::CouldNotParseIntValue(text.clone())),
            },
            Cll::Chr(_) => match parse_chr(&chars_of(text.as_str())) {
                Some(v) => {
                    mem.insert(var.clone(), Cll::Chr(Some(v)));
                    Ok(Step::Advance(pc + 1, None))
                },
                None => Err(Error::CouldNotParseChrValue(text.clone())),
            },
            Cll::Flt(_) => Ok(
                Step::Defer(
                    FloatJob {
                        work: FloatWork::Parse(text.clone()),
                        target: var.clone(),
                        on_unparsable: Some(Error::CouldNotParseFltValue(text.clone())),
                    },
                ),
            ),
        },
    }
}

fn arith_exec(
    mem: &mut Mem,
    pc: usize,
    op: ArithOp,
    var: &String,
    value: &Val,
) -> (r: Result<Step, Error>)
    requires
        pc < usize::MAX,
    ensures
        step_matches(r, arith_step(old(mem).view(), pc, op, var@, value@), old(mem).view(), final(mem).view()),
{
    let dest = match mem.get(var) {
        None => {
            return Err(Error::VariableDoesNotExists(var.clone(), pc));
        },
        Some(c) => c,
    };
    match dest {
        Cll::Chr(_) => Err(Error::CannotApplyOperationsOnChar(pc)),
        Cll::Int(None) | Cll::Flt(None) => Err(Error::VariableIsUninitialized(var.clone(), pc)),
        Cll::Int(Some(a)) => match value {
            Val::Value(text) => match int_literal_of(text) {
                Some(b) => int_store(mem, pc, op, var.clone(), a, b),
                None => Err(Error::CouldNotParseIntValue(text.clone())),
            },
            Val::Var(src) => match fetch_cell(mem, src, Type::Int, pc) {
                Ok(Cll::Int(Some(b))) => int_store(mem, pc, op, var.clone(), a, b),
                Ok(_) => Err(Error::VariablesDifferInType(pc)),
                Err(e) => Err(e),
            },
        },
        Cll::Flt(Some(a)) => match value {
            Val::Value(text) => Ok(
                Step::Defer(
                    FloatJob {
                        work: FloatWork::Apply(op, FltArg::Bits(a), FltArg::Text(text.clone())),
                        target: var.clone(),
                        on_unparsable: Some(Error::CouldNotParseFltValue(text.clone())),
                    },
                ),
            ),
            Val::Var(src) => match fetch_cell(mem, src, Type::Flt, pc) {
                Ok(Cll::Flt(Some(b))) => Ok(
                    Step::Defer(
                        FloatJob {
                            work: FloatWork::Apply(op, FltArg::Bits(a), FltArg::Bits(b)),
                            target: var.clone(),
                            on_unparsable: None,
                        },
                    ),
                ),
                Ok(_) => Err(Error::VariablesDifferInType(pc)),
                Err(e) => Err(e),
            },
        },
    }
}

fn int_arg_exec(mem: &Mem, pc: usize, v: &Val) -> (r: Result<i32, Error>)
    ensures
        match int_arg(mem.view(), pc, v@) {
            Ok(x) => r == Ok::<i32, Error>(x),
            Err(e) => r matches Err(x) && x@ == e,
        },
{
    match v {
        Val::Value(text) => match int_literal_of(text) {
            Some(x) => Ok(x),
            None => Err(Error::CannotDetermineReturnType(pc)),
        },
        Val::Var(n) => match fetch_cell(mem, n, Type::Int, pc) {
            Ok(Cll::Int(Some(x))) => Ok(x),
            Ok(_) => Err(Error::VariablesDifferInType(pc)),
            Err(e) => Err(e),
        },
    }
}

fn flt_arg_exec(mem: &Mem, pc: usize, v: &Val) -> (r: Result<FltArg, Error>)
    ensures
        match flt_arg(mem.view(), pc, v@) {
            Ok(x) => r matches Ok(y) && y@ == x,
            Err(e) => r matches Err(x) && x@ == e,
        },
{
    match v {
        Val::Value(text) => Ok(FltArg::Text(text.clone())),
        Val::Var(n) => match fetch_cell(mem, n, Type::Flt, pc) {
            Ok(Cll::Flt(Some(x))) => Ok(FltArg::Bits(x)),
            Ok(_) => Err(Error::VariablesDifferInType(pc)),
            Err(e) => Err(e),
        },
    }
}

fn carry_exec(mem: &mut Mem, pc: usize, op: ArithOp, x: &Val, y: &Val) -> (r: Result<Step, Error>)
    requires
        pc < usize::MAX,
    ensures
        step_matches(r, carry_step(old(mem).view(), pc, op, x@, y@), old(mem).view(), final(mem).view()),
{
    let key = match (x, y) {
        (Val::Var(n), _) => n,
        (Val::Value(_), Val::Var(n)) => n,
        (Val::Value(_), Val::Value(_)) => {
            return Err(Error::CannotDetermineReturnType(pc));
        },
    };
    let c = match mem.get(key) {
        None => {
            return Err(Error::VariableDoesNotExists(key.clone(), pc));
        },
        Some(c) => c,
    };
    if let Cll::Chr(_) = c {
        return Err(Error::CannotApplyOperationsOnChar(pc));
    }
    if !c.is_set() {
        return Err(Error::VariableIsUninitialized(key.clone(), pc));
    }
    let carry = string_from(&vec!['-'], 0);
    assert(carry@ =~= carry_name());
    if let Cll::Int(_) = c {
        let a = match int_arg_exec(mem, pc, x) {
            Ok(a) => a,
            Err(e) => {
                return Err(e);
            },
        };
        let b = match int_arg_exec(mem, pc, y) {
            Ok(b) => b,
            Err(e) => {
                return Err(e);
            },
        };
        int_store(mem, pc, op, carry, a, b)
    } else {
        let a = match flt_arg_exec(mem, pc, x) {
            Ok(a) => a,
            Err(e) => {
                return Err(e);
            },
        };
        let b = match flt_arg_exec(mem, pc, y) {
            Ok(b) => b,
            Err(e) => {
                return Err(e);
            },
        };
        let literal = matches!(a, FltArg::Text(_)) || matches!(b, FltArg::Text(_));
        let on_unparsable = if literal {
            Some(Error::CannotDetermineReturnType(pc))
        } else {
            None
        };
        Ok(Step::Defer(FloatJob { work: FloatWork::Apply(op, a, b), target: carry, on_unparsable }))
    }
}

fn goto_exec(mem: &Mem, flags: &Table<usize>, pc: usize, flag: &String) -> (r: Result<Step, Error>)
    ensures
        step_matches(r, goto_step(mem.view(), flags.view(), pc, flag@), mem.view(), mem.view()),
{
    match flags.get(flag) {
        Some(line) => Ok(Step::Advance(line, None)),
        None => Err(Error::CouldNotFindFlag(flag.clone(), pc)),
    }
}

fn jump_exec(
    mem: &Mem,
    flags: &Table<usize>,
    pc: usize,
    var: &String,
    flag: &String,
    on_zero: bool,
) -> (r: Result<Step, Error>)
    requires
        pc < usize::MAX,
    ensures
        step_matches(r, jump_step(mem.view(), flags.view(), pc, var@, flag@, on_zero), mem.view(), mem.view()),
{
    let zero = match mem.get(var) {
        None => {
            return Err(Error::VariableDoesNotExists(var.clone(), pc));
        },
        Some(Cll::Int(Some(v))) => v == 0,
        Some(Cll::Flt(Some(b))) => b == 0 || b == 0x8000_0000_0000_0000u64,
        Some(Cll::Chr(Some(_))) => {
            return Err(Error::CannotApplyComparisonsOnChar(pc));
        },
        Some(_) => {
            return Err(Error::VariableIsUninitialized(var.clone(), pc));
        },
    };
    if zero == on_zero {
        goto_exec(mem, flags, pc, flag)
    } else {
        Ok(Step::Advance(pc + 1, None))
    }
}

/// Executes `line`, standing at line `pc`, against `mem`.
fn execute(
    line: &Instruction,
    flags: &Table<usize>,
    pc: usize,
    mem: &mut Mem,
) -> (r: Result<Step, Error>)
    requires
        pc < usize::MAX,
    ensures
        step_matches(r, instr_step(line@, flags.view(), pc, old(mem).view()), old(mem).view(), final(mem).view()),
{
    match line {
        Instruction::Var { var, var_type } => {
            mem.insert(var.clone(), Cll::empty(*var_type));
            Ok(Step::Advance(pc + 1, None))
        },
        Instruction::Assign { var, value } => assign_exec(mem, pc, var, value),
        Instruction::Add { var, value } => arith_exec(mem, pc, ArithOp::Add, var, value),
        Instruction::Sub { var, value } => arith_exec(mem, pc, ArithOp::Sub, var, value),
        Instruction::Mul { var, value } => arith_exec(mem, pc, ArithOp::Mul, var, value),
        Instruction::Div { var, value } => arith_exec(mem, pc, ArithOp::Div, var, value),
        Instruction::Mod { var, value } => arith_exec(mem, pc, ArithOp::Mod, var, value),
        Instruction::Ret { var } => Err(Error::UnimplementedInstruction(Instruction::Ret { var: var.clone() }, pc)),
        Instruction::Flg | Instruction::Nll => Ok(Step::Advance(pc + 1, None)),
        Instruction::Gto { flag } => goto_exec(mem, flags, pc, flag),
        Instruction::Jmp { var, flag } => jump_exec(mem, flags, pc, var, flag, true),
        Instruction::Jne { var, flag } => jump_exec(mem, flags, pc, var, flag, false),
        Instruction::Prt { value } => match value {
            Val::Value(text) => Ok(Step::Advance(pc + 1, Some(Printed::Literal { line: pc, text: text.clone() }))),
            Val::Var(name) => match mem.get(name) {
                Some(cell) => Ok(
                    Step::Advance(pc + 1, Some(Printed::Cell { line: pc, name: name.clone(), cell })),
                ),
                None => Err(Error::VariableDoesNotExists(name.clone(), pc)),
            },
        },
        Instruction::Cadd { op1, op2 } => carry_exec(mem, pc, ArithOp::Add, op1, op2),
        Instruction::Csub { op1, op2 } => carry_exec(mem, pc, ArithOp::Sub, op1, op2),
        Instruction::Cmul { op1, op2 } => carry_exec(mem, pc, ArithOp::Mul, op1, op2),
        Instruction::Cdiv { op1, op2 } => carry_exec(mem, pc, ArithOp::Div, op1, op2),
        Instruction::Cmod { op1, op2 } => carry_exec(mem, pc, ArithOp::Mod, op1, op2),
    }
}

// ---------------------------------------------------------------------------
// The machine
// ---------------------------------------------------------------------------

/// A job writes a `flt` into the carry variable or into a `flt` variable.
pub open spec fn job_fits(mem: Map<Seq<char>, Cll>, job: JobModel) -> bool {
    job.target == carry_name() || (mem.contains_key(job.target) && mem[job.target] is Flt)
}

/// The state of a run: the program counter, the store, and the line waiting
/// for `flt` work, if any.
pub struct Machine {
    pub pc: int,
    pub mem: Map<Seq<char>, Cll>,
    pub pending: Option<JobModel>,
}

/// The states a run may be in, for a program whose labels name its lines.
pub open spec fn machine_ok(
    code: Seq<InstrModel>,
    flags: Map<Seq<char>, usize>,
    s: Machine,
) -> bool {
    &&& 0 <= s.pc <= code.len()
    &&& s.pending matches Some(job) ==> s.pc < code.len() && job_fits(s.mem, job)
}

/// The state that follows `s` when it does not fail: a line is executed, or
/// the waiting line takes the host's `reply` (`None`: a literal did not read).
pub open spec fn next_state(
    code: Seq<InstrModel>,
    flags: Map<Seq<char>, usize>,
    s: Machine,
    reply: Option<u64>,
) -> Option<Machine> {
    match s.pending {
        Some(job) => match reply {
            Some(bits) => Some(
                Machine { pc: s.pc + 1, mem: s.mem.insert(job.target, Cll::Flt(Some(bits))), pending: None },
            ),
            None => if job.on_unparsable is Some {
                None
            } else {
                Some(s)
            },
        },
        None => if 0 <= s.pc <= usize::MAX {
            match step_spec(code, flags, s.pc as usize, s.mem) {
                Outcome::Advance { mem, pc, .. } => Some(Machine { pc, mem, pending: None }),
                Outcome::Defer(job) => Some(Machine { pc: s.pc, mem: s.mem, pending: Some(job) }),
                _ => None,
            }
        } else {
            None
        },
    }
}

/// A running program.
pub struct Program {
    file: ProgramFile,
    lnb: usize,
    memory: Mem,
    pending: Option<FloatJob>,
}

impl Program {
    #[verifier::type_invariant]
    spec fn wf(&self) -> bool {
        &&& labels_sound(self.file.spec_lines(), self.file.spec_flags())
        &&& machine_ok(self.file.spec_lines(), self.file.spec_flags(), self.machine())
    }

    /// The instructions.
    pub closed spec fn spec_code(&self) -> Seq<InstrModel> {
        self.file.spec_lines()
    }

    /// The labels.
    pub closed spec fn spec_flags(&self) -> Map<Seq<char>, usize> {
        self.file.spec_flags()
    }

    /// The program counter, the store and the waiting line.
    pub closed spec fn machine(&self) -> Machine {
        Machine {
            pc: self.lnb as int,
            mem: self.memory.view(),
            pending: match self.pending {
                Some(j) => Some(j.view()),
                None => None,
            },
        }
    }

    /// A program ready to run `file` from its first line, with an empty store.
    pub fn from(file: ProgramFile) -> (r: Self)
        ensures
            r.spec_code() == file.spec_lines(),
            r.spec_flags() == file.spec_flags(),
            r.machine() == (Machine { pc: 0, mem: Map::empty(), pending: None }),
    {
        proof {
            use_type_invariant(&file);
            file.lemma_labels_sound();
        }
        Program { file, lnb: 0, memory: Mem::new(), pending: None }
    }

    /// The line to execute next.
    pub fn lnb(&self) -> (r: usize)
        ensures
            r == self.machine().pc,
    {
        self.lnb
    }

    /// The variable store.
    pub fn memory(&self) -> (r: &Mem)
        ensures
            r.view() == self.machine().mem,
    {
        &self.memory
    }

    /// The program file being run.
    pub fn file(&self) -> (r: &ProgramFile)
        ensures
            r.spec_lines() == self.spec_code(),
            r.spec_flags() == self.spec_flags(),
    {
        &self.file
    }

    /// Executes the line at the program counter.
    ///
    /// When a line is waiting for `flt` work, the work is handed back again and
    /// nothing changes. Past the last line, the run is over: `Finished` with the
    /// program counter, which is then the number of lines. A line that fails
    /// leaves the state unchanged.
    pub fn interpret(&mut self) -> (r: Result<Event, Error>)
        ensures
            final(self).spec_code() == old(self).spec_code(),
            final(self).spec_flags() == old(self).spec_flags(),
            match old(self).machine().pending {
                Some(job) => {
                    &&& r matches Ok(Event::Float(w)) && w@ == job.work
                    &&& final(self).machine() == old(self).machine()
                },
                None => match step_spec(old(self).spec_code(), old(self).spec_flags(), old(self).machine().pc as usize, old(self).machine().mem) {
                    Outcome::Halted => {
                        &&& r matches Ok(Event::Finished(p)) && p == old(self).machine().pc
                            && p == old(self).spec_code().len()
                        &&& final(self).machine() == old(self).machine()
                    },
                    Outcome::Fault(e) => {
                        &&& r matches Err(x) && x@ == e
                        &&& final(self).machine() == old(self).machine()
                    },
                    Outcome::Advance { mem, pc, out } => {
                        &&& r matches Ok(ev) && match out {
                            None => ev is Moved,
                            Some(o) => ev matches Event::Printed(p) && p@ == o,
                        }
                        &&& final(self).machine() == (Machine { pc, mem, pending: None })
                    },
                    Outcome::Defer(job) => {
                        &&& r matches Ok(Event::Float(w)) && w@ == job.work
                        &&& final(self).machine() == (Machine {
                            pc: old(self).machine().pc,
                            mem: old(self).machine().mem,
                            pending: Some(job),
                        })
                    },
                },
            },
    {
        proof {
            use_type_invariant(&*self);
        }
        if let Some(job) = &self.pending {
            return Ok(Event::Float(job.work.duplicate()));
        }
        let pc = self.lnb;
        if pc >= self.file.lines().len() {
            return Ok(Event::Finished(pc));
        }
        let ghost code = self.file.spec_lines();
        let ghost flags = self.file.spec_flags();
        proof {
            lemma_step_stays_ok(code, flags, self.machine());
        }
        let mut mem = Mem::new();
        std::mem::swap(&mut self.memory, &mut mem);
        let r = execute(&self.file.lines()[pc], self.file.flags(), pc, &mut mem);
        self.memory = mem;
        match r {
            Err(e) => Err(e),
            Ok(Step::Advance(next, out)) => {
                self.lnb = next;
                match out {
                    None => Ok(Event::Moved),
                    Some(p) => Ok(Event::Printed(p)),
                }
            },
            Ok(Step::Defer(job)) => {
                let work = job.work.duplicate();
                self.pending = Some(job);
                Ok(Event::Float(work))
            },
        }
    }

    /// Completes the line that waits for `flt` work with the host's result:
    /// `Some(bits)` is the value computed, `None` says that a literal of the
    /// work could not be read as a `flt`. With no line waiting, or with `None`
    /// for work that holds no literal, nothing changes.
    pub fn resume(&mut self, reply: Option<u64>) -> (r: Result<(), Error>)
        ensures
            final(self).spec_code() == old(self).spec_code(),
            final(self).spec_flags() == old(self).spec_flags(),
            match old(self).machine().pending {
                None => r is Ok && final(self).machine() == old(self).machine(),
                Some(job) => match (reply, job.on_unparsable) {
                    (Some(_), _) => {
                        &&& r is Ok
                        &&& Some(final(self).machine()) == next_state(old(self).spec_code(), old(self).spec_flags(), old(self).machine(), reply)
                    },
                    (None, Some(e)) => {
                        &&& r matches Err(x) && x@ == e
                        &&& final(self).machine() == (Machine { pending: None, ..old(self).machine() })
                    },
                    (None, None) => r is Ok && final(self).machine() == old(self).machine(),
                },
            },
    {
        proof {
            use_type_invariant(&*self);
        }
        let n = self.file.lines().len();
        match reply {
            Some(bits) => {
                let mut taken: Option<FloatJob> = None;
                std::mem::swap(&mut self.pending, &mut taken);
                let job = match taken {
                    Some(job) => job,
                    None => {
                        return Ok(());
                    },
                };
                let mut mem = Mem::new();
                std::mem::swap(&mut self.memory, &mut mem);
                mem.insert(job.target, Cll::Flt(Some(bits)));
                self.memory = mem;
                self.lnb = self.lnb + 1;
                Ok(())
            },
            None => {
                let fails = match &self.pending {
                    Some(job) => job.on_unparsable.is_some(),
                    None => false,
                };
                if !fails {
                    return Ok(());
                }
                let mut taken: Option<FloatJob> = None;
                std::mem::swap(&mut self.pending, &mut taken);
                match taken {
                    Some(FloatJob { on_unparsable: Some(e), .. }) => Err(e),
                    _ => Ok(()),
                }
            },
        }
    }
}

/// A step from a state that a run may be in leads to another such state.
pub proof fn lemma_step_stays_ok(code: Seq<InstrModel>, flags: Map<Seq<char>, usize>, s: Machine)
    requires
        labels_sound(code, flags),
        machine_ok(code, flags, s),
    ensures
        s.pending is None && s.pc < code.len() ==> match step_spec(code, flags, s.pc as usize, s.mem) {
            Outcome::Advance { pc, .. } => 0 <= pc <= code.len(),
            Outcome::Defer(job) => job_fits(s.mem, job),
            _ => true,
        },
{
}

// ---------------------------------------------------------------------------
// Laws of runs
// ---------------------------------------------------------------------------

/// The state reached from `s` when each transition takes the next of `replies`
/// (a reply matters only to a line waiting for `flt` work); `None` when a
/// transition fails or the run is over before the replies are used up.
pub open spec fn run(
    code: Seq<InstrModel>,
    flags: Map<Seq<char>, usize>,
    s: Machine,
    replies: Seq<Option<u64>>,
) -> Option<Machine>
    decreases replies.len(),
{
    if replies.len() == 0 {
        Some(s)
    } else {
        match next_state(code, flags, s, replies[0]) {
            Some(t) => run(code, flags, t, replies.drop_first()),
            None => None,
        }
    }
}

proof fn lemma_next_ok(
    code: Seq<InstrModel>,
    flags: Map<Seq<char>, usize>,
    s: Machine,
    reply: Option<u64>,
)
    requires
        labels_sound(code, flags),
        machine_ok(code, flags, s),
    ensures
        next_state(code, flags, s, reply) matches Some(t) ==> machine_ok(code, flags, t),
{
    lemma_step_stays_ok(code, flags, s);
}

/// Between steps the program counter stays within `[0, len(program)]`: every
/// state of a run from a state that a run may be in is again such a state.
pub proof fn law_pc_in_range(
    code: Seq<InstrModel>,
    flags: Map<Seq<char>, usize>,
    s: Machine,
    replies: Seq<Option<u64>>,
)
    requires
        labels_sound(code, flags),
        machine_ok(code, flags, s),
    ensures
        run(code, flags, s, replies) matches Some(t) ==> machine_ok(code, flags, t) && 0 <= t.pc <= code.len(),
    decreases replies.len(),
{
    if replies.len() > 0 {
        lemma_next_ok(code, flags, s, replies[0]);
        if let Some(t) = next_state(code, flags, s, replies[0]) {
            law_pc_in_range(code, flags, t, replies.drop_first());
        }
    }
}

/// A run ends exactly when the program counter is the number of lines, and
/// `interpret` then returns that number.
pub proof fn law_finishes_at_end(code: Seq<InstrModel>, flags: Map<Seq<char>, usize>, s: Machine)
    requires
        machine_ok(code, flags, s),
        code.len() <= usize::MAX,
    ensures
        step_spec(code, flags, s.pc as usize, s.mem) is Halted <==> s.pc == code.len(),
{
}

/// A `var` line for `name` declares it with type `t`.
pub open spec fn declares_as(ins: InstrModel, name: Seq<char>, t: Type) -> bool {
    match ins {
        InstrModel::Var { var, var_type } => var == name ==> var_type == t,
        _ => true,
    }
}

/// Every `var` line of `code` that names `name` declares it with type `t`.
pub open spec fn declared_only_as(code: Seq<InstrModel>, name: Seq<char>, t: Type) -> bool {
    forall|i: int| 0 <= i < code.len() ==> declares_as(#[trigger] code[i], name, t)
}

/// `name` is still there, with the same type.
pub open spec fn keeps_type(
    before: Map<Seq<char>, Cll>,
    after: Map<Seq<char>, Cll>,
    name: Seq<char>,
) -> bool {
    after.contains_key(name) && after[name].spec_tag() == before[name].spec_tag()
}

proof fn lemma_assign_keeps_type(
    mem: Map<Seq<char>, Cll>,
    pc: usize,
    var: Seq<char>,
    value: ValModel,
    name: Seq<char>,
)
    requires
        mem.contains_key(name),
    ensures
        assign_step(mem, pc, var, value) matches Outcome::Advance { mem: m, .. } ==> keeps_type(mem, m, name),
        assign_step(mem, pc, var, value) matches Outcome::Defer(job) ==> job_fits(mem, job),
{
}

proof fn lemma_arith_keeps_type(
    mem: Map<Seq<char>, Cll>,
    pc: usize,
    op: ArithOp,
    var: Seq<char>,
    value: ValModel,
    name: Seq<char>,
)
    requires
        mem.contains_key(name),
    ensures
        arith_step(mem, pc, op, var, value) matches Outcome::Advance { mem: m, .. } ==> keeps_type(mem, m, name),
        arith_step(mem, pc, op, var, value) matches Outcome::Defer(job) ==> job_fits(mem, job),
{
}

proof fn lemma_carry_keeps_type(
    mem: Map<Seq<char>, Cll>,
    pc: usize,
    op: ArithOp,
    x: ValModel,
    y: ValModel,
    name: Seq<char>,
)
    requires
        mem.contains_key(name),
        name != carry_name(),
    ensures
        carry_step(mem, pc, op, x, y) matches Outcome::Advance { mem: m, .. } ==> keeps_type(mem, m, name),
        carry_step(mem, pc, op, x, y) matches Outcome::Defer(job) ==> job_fits(mem, job),
{
}

proof fn lemma_instr_keeps_type(
    ins: InstrModel,
    flags: Map<Seq<char>, usize>,
    pc: usize,
    mem: Map<Seq<char>, Cll>,
    name: Seq<char>,
)
    requires
        mem.contains_key(name),
        name != carry_name(),
        declares_as(ins, name, mem[name].spec_tag()),
    ensures
        instr_step(ins, flags, pc, mem) matches Outcome::Advance { mem: m, .. } ==> keeps_type(mem, m, name),
        instr_step(ins, flags, pc, mem) matches Outcome::Defer(job) ==> job_fits(mem, job),
{
    match ins {
        InstrModel::Assign { var, value } => lemma_assign_keeps_type(mem, pc, var, value, name),
        InstrModel::Add { var, value } => lemma_arith_keeps_type(mem, pc, ArithOp::Add, var, value, name),
        InstrModel::Sub { var, value } => lemma_arith_keeps_type(mem, pc, ArithOp::Sub, var, value, name),
        InstrModel::Mul { var, value } => lemma_arith_keeps_type(mem, pc, ArithOp::Mul, var, value, name),
        InstrModel::Div { var, value } => lemma_arith_keeps_type(mem, pc, ArithOp::Div, var, value, name),
        InstrModel::Mod { var, value } => lemma_arith_keeps_type(mem, pc, ArithOp::Mod, var, value, name),
        InstrModel::Cadd { op1, op2 } => lemma_carry_keeps_type(mem, pc, ArithOp::Add, op1, op2, name),
        InstrModel::Csub { op1, op2 } => lemma_carry_keeps_type(mem, pc, ArithOp::Sub, op1, op2, name),
        InstrModel::Cmul { op1, op2 } => lemma_carry_keeps_type(mem, pc, ArithOp::Mul, op1, op2, name),
        InstrModel::Cdiv { op1, op2 } => lemma_carry_keeps_type(mem, pc, ArithOp::Div, op1, op2, name),
        InstrModel::Cmod { op1, op2 } => lemma_carry_keeps_type(mem, pc, ArithOp::Mod, op1, op2, name),
        _ => {},
    }
}

proof fn lemma_step_keeps_type(
    code: Seq<InstrModel>,
    flags: Map<Seq<char>, usize>,
    s: Machine,
    reply: Option<u64>,
    name: Seq<char>,
)
    requires
        labels_sound(code, flags),
        machine_ok(code, flags, s),
        s.mem.contains_key(name),
        name != carry_name(),
        declared_only_as(code, name, s.mem[name].spec_tag()),
    ensures
        next_state(code, flags, s, reply) matches Some(t) ==> keeps_type(s.mem, t.mem, name),
{
    if s.pending is None && 0 <= s.pc < code.len() {
        assert(declares_as(code[s.pc], name, s.mem[name].spec_tag()));
        lemma_instr_keeps_type(code[s.pc], flags, s.pc as usize, s.mem, name);
    }
}

/// Across a run, a variable keeps the type it was created with. This holds for
/// every variable but the carry `-`, which each carry instruction creates anew,
/// and needs that every `var` line naming the variable gives it that same type
/// (a `var` line replaces the variable it names).
pub proof fn law_types_are_kept(
    code: Seq<InstrModel>,
    flags: Map<Seq<char>, usize>,
    s: Machine,
    replies: Seq<Option<u64>>,
    name: Seq<char>,
)
    requires
        labels_sound(code, flags),
        machine_ok(code, flags, s),
        s.mem.contains_key(name),
        name != carry_name(),
        declared_only_as(code, name, s.mem[name].spec_tag()),
    ensures
        run(code, flags, s, replies) matches Some(t) ==> t.mem.contains_key(name)
            && t.mem[name].spec_tag() == s.mem[name].spec_tag(),
    decreases replies.len(),
{
    if replies.len() > 0 {
        lemma_step_keeps_type(code, flags, s, replies[0], name);
        lemma_next_ok(code, flags, s, replies[0]);
        if let Some(t) = next_state(code, flags, s, replies[0]) {
            law_types_are_kept(code, flags, t, replies.drop_first(), name);
        }
    }
}

/// The store that the `var` lines of `code` build, run in order.
pub open spec fn declared(code: Seq<InstrModel>) -> Map<Seq<char>, Cll>
    decreases code.len(),
{
    if code.len() == 0 {
        Map::empty()
    } else {
        match code.last() {
            InstrModel::Var { var, var_type } => declared(code.drop_last()).insert(
                var,
                Cll::spec_empty(var_type),
            ),
            _ => declared(code.drop_last()),
        }
    }
}

proof fn lemma_declared_shape(code: Seq<InstrModel>)
    ensures
        forall|k: Seq<char>|
            #[trigger] declared(code).contains_key(k) <==> exists|i: int|
                0 <= i < code.len() && (#[trigger] code[i] matches InstrModel::Var { var, .. } && var == k),
        forall|k: Seq<char>| #[trigger] declared(code).contains_key(k) ==> !declared(code)[k].spec_is_set(),
    decreases code.len(),
{
    if code.len() > 0 {
        let init = code.drop_last();
        let last = code.last();
        lemma_declared_shape(init);
        assert(code[code.len() - 1] == last);
        assert forall|k: Seq<char>| #[trigger] declared(code).contains_key(k) implies exists|i: int|
            0 <= i < code.len() && (#[trigger] code[i] matches InstrModel::Var { var, .. } && var == k) by {
            if declared(init).contains_key(k) {
                let i = choose|i: int|
                    0 <= i < init.len() && (#[trigger] init[i] matches InstrModel::Var { var, .. } && var == k);
                assert(code[i] == init[i]);
            }
        }
        assert forall|k: Seq<char>| (exists|i: int|
            0 <= i < code.len() && (#[trigger] code[i] matches InstrModel::Var { var, .. } && var == k)) implies #[trigger] declared(code).contains_key(k) by {
            let i = choose|i: int| 0 <= i < code.len() && (#[trigger] code[i] matches InstrModel::Var { var, .. } && var == k);
            if i < init.len() {
                assert(init[i] == code[i]);
                assert(declared(init).contains_key(k));
            }
        }
        assert forall|k: Seq<char>| #[trigger] declared(code).contains_key(k) implies !declared(code)[k].spec_is_set() by {
            match last {
                InstrModel::Var { var, var_type } => {
                    if var != k {
                        assert(declared(code)[k] == declared(init)[k]);
                    } else {
                        assert(declared(code)[k] == Cll::spec_empty(var_type));
                    }
                },
                _ => {
                    assert(declared(code) == declared(init));
                },
            }
        }
    }
}

proof fn lemma_declarations_run(
    code: Seq<InstrModel>,
    flags: Map<Seq<char>, usize>,
    k: int,
    replies: Seq<Option<u64>>,
)
    requires
        code.len() <= usize::MAX,
        forall|i: int| 0 <= i < code.len() ==> #[trigger] code[i] is Var || code[i] is Nll,
        0 <= k <= code.len(),
        replies.len() == code.len() - k,
    ensures
        run(code, flags, Machine { pc: k, mem: declared(code.take(k)), pending: None }, replies)
            == Some(Machine { pc: code.len() as int, mem: declared(code), pending: None }),
    decreases replies.len(),
{
    if k == code.len() {
        assert(code.take(k) =~= code);
    } else {
        assert(code.take(k + 1).drop_last() =~= code.take(k));
        assert(code.take(k + 1).last() == code[k]);
        let s = Machine { pc: k, mem: declared(code.take(k)), pending: None };
        assert(code[k] is Var || code[k] is Nll);
        assert(next_state(code, flags, s, replies[0]) == Some(
            Machine { pc: k + 1, mem: declared(code.take(k + 1)), pending: None },
        ));
        lemma_declarations_run(code, flags, k + 1, replies.drop_first());
    }
}

/// Running a program made only of `var` and `nll` lines, from the start and an
/// empty store, takes one transition per line and ends at `pc == len(program)`
/// with exactly the declared variables in the store, all uninitialised.
pub proof fn law_declarations_only(
    code: Seq<InstrModel>,
    flags: Map<Seq<char>, usize>,
    replies: Seq<Option<u64>>,
)
    requires
        code.len() <= usize::MAX,
        forall|i: int| 0 <= i < code.len() ==> #[trigger] code[i] is Var || code[i] is Nll,
        replies.len() == code.len(),
    ensures
        run(code, flags, Machine { pc: 0, mem: Map::empty(), pending: None }, replies)
            == Some(Machine { pc: code.len() as int, mem: declared(code), pending: None }),
        step_spec(code, flags, code.len() as usize, declared(code)) is Halted,
        forall|k: Seq<char>|
            #[trigger] declared(code).contains_key(k) <==> exists|i: int|
                0 <= i < code.len() && (#[trigger] code[i] matches InstrModel::Var { var, .. } && var == k),
        forall|k: Seq<char>| #[trigger] declared(code).contains_key(k) ==> !declared(code)[k].spec_is_set(),
{
    assert(declared(code.take(0)) == Map::<Seq<char>, Cll>::empty()) by {
        assert(code.take(0).len() == 0);
    }
    lemma_declarations_run(code, flags, 0, replies);
    lemma_declared_shape(code);
}

// ---------------------------------------------------------------------------
// Boundary cases
// ---------------------------------------------------------------------------

/// `div` and `mod` of an `int` variable by the literal `0` raise
/// `DivisionByZero` (Rust's native integer division would panic).
pub proof fn law_int_division_by_literal_zero(mem: Map<Seq<char>, Cll>, pc: usize, var: Seq<char>)
    requires
        mem.contains_key(var),
        mem[var] matches Cll::Int(Some(_)),
    ensures
        arith_step(mem, pc, ArithOp::Div, var, ValModel::Value(seq!['0']))
            == Outcome::Fault(ErrorModel::DivisionByZero(pc)),
        arith_step(mem, pc, ArithOp::Mod, var, ValModel::Value(seq!['0']))
            == Outcome::Fault(ErrorModel::DivisionByZero(pc)),
{
    let z = seq!['0'];
    assert(z.drop_last() =~= Seq::<char>::empty());
    assert(digits_value(z.drop_last()) == 0);
    assert(z.last() == '0');
    assert(digits_value(z) == 0);
    assert(int_literal(z) == Some(0i32));
}

/// `set` of a literal that does not read at the variable's type raises the
/// matching error: at once for `int` and `chr`; for `flt`, when the host
/// reports that the literal does not read.
pub proof fn law_set_unreadable_literal(
    mem: Map<Seq<char>, Cll>,
    pc: usize,
    var: Seq<char>,
    text: Seq<char>,
)
    requires
        mem.contains_key(var),
    ensures
        mem[var] is Int && int_literal(text) is None ==> assign_step(mem, pc, var, ValModel::Value(text))
            == Outcome::Fault(ErrorModel::CouldNotParseIntValue(text)),
        mem[var] is Chr && chr_literal(text) is None ==> assign_step(mem, pc, var, ValModel::Value(text))
            == Outcome::Fault(ErrorModel::CouldNotParseChrValue(text)),
        mem[var] is Flt ==> (assign_step(mem, pc, var, ValModel::Value(text)) matches Outcome::Defer(job)
            && job.on_unparsable == Some(ErrorModel::CouldNotParseFltValue(text))),
{
}

/// `jmp` and `jne` on an uninitialised variable raise `VariableIsUninitialized`.
pub proof fn law_jump_on_uninitialised(
    mem: Map<Seq<char>, Cll>,
    flags: Map<Seq<char>, usize>,
    pc: usize,
    var: Seq<char>,
    flag: Seq<char>,
    on_zero: bool,
)
    requires
        mem.contains_key(var),
        !mem[var].spec_is_set(),
    ensures
        jump_step(mem, flags, pc, var, flag, on_zero) == Outcome::Fault(
            ErrorModel::VariableIsUninitialized(var, pc),
        ),
{
}

} // verus!
