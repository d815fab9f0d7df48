//! The instruction set, and the mathematical model that contracts speak of.
use vstd::prelude::*;

verus! {

/// A variable name, as written in the source.
pub type Var = String;

/// A jump label, as written in the source.
pub type Flag = String;

/// The type of a variable: `int`, `flt` or `chr`.
#[derive(Clone, Copy, Debug, PartialEq, Eq, Structural)]
pub enum Type {
    /// 32-bit signed integer.
    Int,
    /// 64-bit IEEE-754 floating-point number.
    Flt,
    /// A single character.
    Chr,
}

/// The binary operator of an arithmetic instruction.
#[derive(Clone, Copy, Debug, PartialEq, Eq, Structural)]
pub enum ArithOp {
    Add,
    Sub,
    Mul,
    Div,
    Mod,
}

/// An operand: either a variable reference or a literal, whose reading is left
/// to the instruction that consumes it.
#[derive(Debug, PartialEq, Clone)]
pub enum Val {
    /// Links to a variable (the sigil is not part of the name).
    Var(Var),
    /// Gives directly a value.
    Value(String),
}

/// One line of a program.
#[derive(Debug, PartialEq, Clone)]
pub enum Instruction {
    /// `var: name, type`: create an uninitialised variable.
    Var { var: Var, var_type: Type },
    /// `set: name, operand`: copy a value into a variable (the mnemonic `set`).
    Assign { var: Var, value: Val },
    /// `add: name, operand`.
    Add { var: Var, value: Val },
    /// `sub: name, operand`.
    Sub { var: Var, value: Val },
    /// `mul: name, operand`.
    Mul { var: Var, value: Val },
    /// `div: name, operand`.
    Div { var: Var, value: Val },
    /// `mod: name, operand`.
    Mod { var: Var, value: Val },
    /// `ret: name`: reserved, not executable.
    Ret { var: Var },
    /// `flg: label`: a jump target; the label is recorded when parsing.
    Flg,
    /// `gto: label`: jump unconditionally.
    Gto { flag: Flag },
    /// `jmp: name, label`: jump when the variable is zero.
    Jmp { var: Var, flag: Flag },
    /// `jne: name, label`: jump when the variable is not zero.
    Jne { var: Var, flag: Flag },
    /// `nll: ...`, or an empty line: does nothing.
    Nll,
    /// `prt: operand`: print a literal or a variable.
    Prt { value: Val },
    /// `cadd: operand, operand`: the sum lands in the carry variable `-`.
    Cadd { op1: Val, op2: Val },
    /// `csub: operand, operand`.
    Csub { op1: Val, op2: Val },
    /// `cmul: operand, operand`.
    Cmul { op1: Val, op2: Val },
    /// `cdiv: operand, operand`.
    Cdiv { op1: Val, op2: Val },
    /// `cmod: operand, operand`.
    Cmod { op1: Val, op2: Val },
}

/// The model of a `Val`.
pub enum ValModel {
    Var(Seq<char>),
    Value(Seq<char>),
}

/// The model of an `Instruction`: the same shape, with names as character sequences.
pub enum InstrModel {
    Var { var: Seq<char>, var_type: Type },
    Assign { var: Seq<char>, value: ValModel },
    Add { var: Seq<char>, value: ValModel },
    Sub { var: Seq<char>, value: ValModel },
    Mul { var: Seq<char>, value: ValModel },
    Div { var: Seq<char>, value: ValModel },
    Mod { var: Seq<char>, value: ValModel },
    Ret { var: Seq<char> },
    Flg,
    Gto { flag: Seq<char> },
    Jmp { var: Seq<char>, flag: Seq<char> },
    Jne { var: Seq<char>, flag: Seq<char> },
    Nll,
    Prt { value: ValModel },
    Cadd { op1: ValModel, op2: ValModel },
    Csub { op1: ValModel, op2: ValModel },
    Cmul { op1: ValModel, op2: ValModel },
    Cdiv { op1: ValModel, op2: ValModel },
    Cmod { op1: ValModel, op2: ValModel },
}

impl View for Val {
    type V = ValModel;

    open spec fn view(&self) -> ValModel {
        match self {
            Val::Var(n) => ValModel::Var(n@),
            Val::Value(t) => ValModel::Value(t@),
        }
    }
}

impl View for Instruction {
    type V = InstrModel;

    open spec fn view(&self) -> InstrModel {
        match self {
            Instruction::Var { var, var_type } => InstrModel::Var { var: var@, var_type: *var_type },
            Instruction::Assign { var, value } => InstrModel::Assign { var: var@, value: value@ },
            Instruction::Add { var, value } => InstrModel::Add { var: var@, value: value@ },
            Instruction::Sub { var, value } => InstrModel::Sub { var: var@, value: value@ },
            Instruction::Mul { var, value } => InstrModel::Mul { var: var@, value: value@ },
            Instruction::Div { var, value } => InstrModel::Div { var: var@, value: value@ },
            Instruction::Mod { var, value } => InstrModel::Mod { var: var@, value: value@ },
            Instruction::Ret { var } => InstrModel::Ret { var: var@ },
            Instruction::Flg => InstrModel::Flg,
            Instruction::Gto { flag } => InstrModel::Gto { flag: flag@ },
            Instruction::Jmp { var, flag } => InstrModel::Jmp { var: var@, flag: flag@ },
            Instruction::Jne { var, flag } => InstrModel::Jne { var: var@, flag: flag@ },
            Instruction::Nll => InstrModel::Nll,
            Instruction::Prt { value } => InstrModel::Prt { value: value@ },
            Instruction::Cadd { op1, op2 } => InstrModel::Cadd { op1: op1@, op2: op2@ },
            Instruction::Csub { op1, op2 } => InstrModel::Csub { op1: op1@, op2: op2@ },
            Instruction::Cmul { op1, op2 } => InstrModel::Cmul { op1: op1@, op2: op2@ },
            Instruction::Cdiv { op1, op2 } => InstrModel::Cdiv { op1: op1@, op2: op2@ },
            Instruction::Cmod { op1, op2 } => InstrModel::Cmod { op1: op1@, op2: op2@ },
        }
    }
}

/// The models of a sequence of instructions.
pub open spec fn models(v: Seq<Instruction>) -> Seq<InstrModel> {
    v.map_values(|i: Instruction| i@)
}

} // verus!
