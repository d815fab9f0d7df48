//! The line-oriented parser: source text to instructions and jump labels.
use vstd::prelude::*;
use crate::instructions::{models, InstrModel, Instruction, Type, Val, ValModel};
use crate::memory::Table;
use crate::text::{
    chars_of, lines_of, split_chars, split_on, string_from, strip_whitespace, strip_ws,
    text_lines, lemma_split_nonempty,
};

verus! {

/// The character that marks an operand as a variable reference.
pub const VARIABLE_IDENTIFIER: char = '&';

/// Parse errors; each names the line (counted from 0) where it was found.
#[derive(Debug, PartialEq)]
pub enum ErrorIO {
    CannotReadFile(&'static str),
    ErrorParsingLine(usize),
    NotEnoughOperands(usize),
    TooMuchOperands(usize),
    TooMuchInstructionSeparator(usize),
    EmptyInstruction(usize),
    /// The line, and which operand (1 or 2) is empty.
    EmptyOperand(usize, usize),
    UnknownInstruction(String, usize),
    UnknownType(String, usize),
    EmptyValue(usize),
}

/// The model of an `ErrorIO`.
pub enum ErrorIOModel {
    CannotReadFile(Seq<char>),
    ErrorParsingLine(usize),
    NotEnoughOperands(usize),
    TooMuchOperands(usize),
    TooMuchInstructionSeparator(usize),
    EmptyInstruction(usize),
    EmptyOperand(usize, usize),
    UnknownInstruction(Seq<char>, usize),
    UnknownType(Seq<char>, usize),
    EmptyValue(usize),
}

impl View for ErrorIO {
    type V = ErrorIOModel;

    open spec fn view(&self) -> ErrorIOModel {
        match self {
            ErrorIO::CannotReadFile(f) => ErrorIOModel::CannotReadFile(f@),
            ErrorIO::ErrorParsingLine(n) => ErrorIOModel::ErrorParsingLine(*n),
            ErrorIO::NotEnoughOperands(n) => ErrorIOModel::NotEnoughOperands(*n),
            ErrorIO::TooMuchOperands(n) => ErrorIOModel::TooMuchOperands(*n),
            ErrorIO::TooMuchInstructionSeparator(n) => ErrorIOModel::TooMuchInstructionSeparator(*n),
            ErrorIO::EmptyInstruction(n) => ErrorIOModel::EmptyInstruction(*n),
            ErrorIO::EmptyOperand(n, k) => ErrorIOModel::EmptyOperand(*n, *k),
            ErrorIO::UnknownInstruction(m, n) => ErrorIOModel::UnknownInstruction(m@, *n),
            ErrorIO::UnknownType(t, n) => ErrorIOModel::UnknownType(t@, *n),
            ErrorIO::EmptyValue(n) => ErrorIOModel::EmptyValue(*n),
        }
    }
}

/// The mnemonics of the language.
#[derive(Clone, Copy, Debug, PartialEq, Eq, Structural)]
pub enum Mnemonic {
    Var,
    Assign,
    Add,
    Sub,
    Mul,
    Div,
    Mod,
    Ret,
    Flg,
    Gto,
    Jmp,
    Jne,
    Nll,
    Prt,
    Cadd,
    Csub,
    Cmul,
    Cdiv,
    Cmod,
}

// ---------------------------------------------------------------------------
// The grammar
// ---------------------------------------------------------------------------

/// `s` is the three-letter word `abc`.
pub open spec fn word3(s: Seq<char>, a: char, b: char, c: char) -> bool {
    s.len() == 3 && s[0] == a && s[1] == b && s[2] == c
}

/// `s` is the four-letter word `abcd`.
pub open spec fn word4(s: Seq<char>, a: char, b: char, c: char, d: char) -> bool {
    s.len() == 4 && s[0] == a && s[1] == b && s[2] == c && s[3] == d
}

/// The mnemonic that `s` spells, if any.
pub open spec fn mnemonic_of(s: Seq<char>) -> Option<Mnemonic> {
    if word3(s, 'v', 'a', 'r') {
        Some(Mnemonic::Var)
    } else if word3(s, 's', 'e', 't') {
        Some(Mnemonic::Assign)
    } else if word3(s, 'a', 'd', 'd') {
        Some(Mnemonic::Add)
    } else if word3(s, 's', 'u', 'b') {
        Some(Mnemonic::Sub)
    } else if word3(s, 'm', 'u', 'l') {
        Some(Mnemonic::Mul)
    } else if word3(s, 'd', 'i', 'v') {
        Some(Mnemonic::Div)
    } else if word3(s, 'm', 'o', 'd') {
        Some(Mnemonic::Mod)
    } else if word3(s, 'r', 'e', 't') {
        Some(Mnemonic::Ret)
    } else if word3(s, 'f', 'l', 'g') {
        Some(Mnemonic::Flg)
    } else if word3(s, 'g', 't', 'o') {
        Some(Mnemonic::Gto)
    } else if word3(s, 'j', 'm', 'p') {
        Some(Mnemonic::Jmp)
    } else if word3(s, 'j', 'n', 'e') {
        Some(Mnemonic::Jne)
    } else if word3(s, 'n', 'l', 'l') {
        Some(Mnemonic::Nll)
    } else if word3(s, 'p', 'r', 't') {
        Some(Mnemonic::Prt)
    } else if word4(s, 'c', 'a', 'd', 'd') {
        Some(Mnemonic::Cadd)
    } else if word4(s, 'c', 's', 'u', 'b') {
        Some(Mnemonic::Csub)
    } else if word4(s, 'c', 'm', 'u', 'l') {
        Some(Mnemonic::Cmul)
    } else if word4(s, 'c', 'd', 'i', 'v') {
        Some(Mnemonic::Cdiv)
    } else if word4(s, 'c', 'm', 'o', 'd') {
        Some(Mnemonic::Cmod)
    } else {
        None
    }
}

/// The type that a type token names, if any.
pub open spec fn type_of(s: Seq<char>) -> Option<Type> {
    if word3(s, 'i', 'n', 't') {
        Some(Type::Int)
    } else if word3(s, 'f', 'l', 't') {
        Some(Type::Flt)
    } else if word3(s, 'c', 'h', 'r') {
        Some(Type::Chr)
    } else {
        None
    }
}

impl Mnemonic {
    /// The mnemonics that take exactly two operands.
    pub open spec fn spec_needs_two(self) -> bool {
        !(self is Ret || self is Gto || self is Flg || self is Prt || self is Nll)
    }

    /// The mnemonics that take exactly one operand.
    pub open spec fn spec_takes_one(self) -> bool {
        self is Ret || self is Gto || self is Flg || self is Prt
    }
}

/// A variable name token: the sigil, if written, is not part of the name.
pub open spec fn name_of(t: Seq<char>) -> Seq<char> {
    if t.len() > 0 && t[0] == VARIABLE_IDENTIFIER {
        t.drop_first()
    } else {
        t
    }
}

/// An operand token: a variable reference when it starts with the sigil, else a literal.
pub open spec fn operand_of(t: Seq<char>, n: usize) -> Result<ValModel, ErrorIOModel> {
    if t.len() == 0 {
        Err(ErrorIOModel::EmptyValue(n))
    } else if t[0] == VARIABLE_IDENTIFIER {
        Ok(ValModel::Var(t.drop_first()))
    } else {
        Ok(ValModel::Value(t))
    }
}

/// What a line parses to: its instruction, and the label it declares, paired
/// with its own index.
pub type LineModel = Result<(InstrModel, Option<(Seq<char>, usize)>), ErrorIOModel>;

/// A line that declares no label.
pub open spec fn plain(i: InstrModel) -> LineModel {
    Ok((i, None))
}

/// The instruction for a known mnemonic whose operand count is right.
pub open spec fn build(m: Mnemonic, ops: Seq<Seq<char>>, n: usize) -> LineModel {
    let a = ops[0];
    let b = ops[1];
    match m {
        Mnemonic::Var => match type_of(b) {
            Some(t) => plain(InstrModel::Var { var: name_of(a), var_type: t }),
            None => Err(ErrorIOModel::UnknownType(b, n)),
        },
        Mnemonic::Assign => match operand_of(b, n) {
            Ok(v) => plain(InstrModel::Assign { var: name_of(a), value: v }),
            Err(e) => Err(e),
        },
        Mnemonic::Add => match operand_of(b, n) {
            Ok(v) => plain(InstrModel::Add { var: name_of(a), value: v }),
            Err(e) => Err(e),
        },
        Mnemonic::Sub => match operand_of(b, n) {
            Ok(v) => plain(InstrModel::Sub { var: name_of(a), value: v }),
            Err(e) => Err(e),
        },
        Mnemonic::Mul => match operand_of(b, n) {
            Ok(v) => plain(InstrModel::Mul { var: name_of(a), value: v }),
            Err(e) => Err(e),
        },
        Mnemonic::Div => match operand_of(b, n) {
            Ok(v) => plain(InstrModel::Div { var: name_of(a), value: v }),
            Err(e) => Err(e),
        },
        Mnemonic::Mod => match operand_of(b, n) {
            Ok(v) => plain(InstrModel::Mod { var: name_of(a), value: v }),
            Err(e) => Err(e),
        },
        Mnemonic::Ret => plain(InstrModel::Ret { var: name_of(a) }),
        Mnemonic::Flg => Ok((InstrModel::Flg, Some((a, n)))),
        Mnemonic::Gto => plain(InstrModel::Gto { flag: a }),
        Mnemonic::Jmp => plain(InstrModel::Jmp { var: name_of(a), flag: b }),
        Mnemonic::Jne => plain(InstrModel::Jne { var: name_of(a), flag: b }),
        Mnemonic::Nll => plain(InstrModel::Nll),
        Mnemonic::Prt => match operand_of(a, n) {
            Ok(v) => plain(InstrModel::Prt { value: v }),
            Err(e) => Err(e),
        },
        _ => match (operand_of(a, n), operand_of(b, n)) {
            (Ok(x), Ok(y)) => plain(
                match m {
                    Mnemonic::Cadd => InstrModel::Cadd { op1: x, op2: y },
                    Mnemonic::Csub => InstrModel::Csub { op1: x, op2: y },
                    Mnemonic::Cmul => InstrModel::Cmul { op1: x, op2: y },
                    Mnemonic::Cdiv => InstrModel::Cdiv { op1: x, op2: y },
                    _ => InstrModel::Cmod { op1: x, op2: y },
                },
            ),
            (Err(e), _) => Err(e),
            (_, Err(e)) => Err(e),
        },
    }
}

/// A mnemonic and its one or two non-empty operand tokens.
pub open spec fn instruction_of(m: Seq<char>, ops: Seq<Seq<char>>, n: usize) -> LineModel {
    match mnemonic_of(m) {
        None => Err(ErrorIOModel::UnknownInstruction(m, n)),
        Some(k) => if k.spec_needs_two() && ops.len() < 2 {
            Err(ErrorIOModel::NotEnoughOperands(n))
        } else if k.spec_takes_one() && ops.len() > 1 {
            Err(ErrorIOModel::TooMuchOperands(n))
        } else {
            build(k, ops, n)
        },
    }
}

/// One source line, numbered `n`: whitespace is dropped, the mnemonic stands
/// before the one `:`, and one or two operands separated by `,` after it. A
/// line that is empty once its whitespace is gone is a no-op; any other line
/// without a `:` lacks its operands.
pub open spec fn line_of(raw: Seq<char>, n: usize) -> LineModel {
    let s = strip_ws(raw);
    let pieces = split_on(s, ':');
    if pieces.len() <= 1 {
        if s.len() == 0 {
            plain(InstrModel::Nll)
        } else {
            Err(ErrorIOModel::NotEnoughOperands(n))
        }
    } else if pieces.len() > 2 {
        Err(ErrorIOModel::TooMuchInstructionSeparator(n))
    } else {
        let m = pieces[0];
        let ops = split_on(pieces[1], ',');
        if m.len() == 0 {
            Err(ErrorIOModel::EmptyInstruction(n))
        } else if ops.len() > 2 {
            Err(ErrorIOModel::TooMuchOperands(n))
        } else if ops[0].len() == 0 {
            Err(ErrorIOModel::EmptyOperand(n, 1))
        } else if ops.len() == 2 && ops[1].len() == 0 {
            Err(ErrorIOModel::EmptyOperand(n, 2))
        } else {
            instruction_of(m, ops, n)
        }
    }
}

/// What a sequence of lines parses to: the instructions, one per line, and the
/// labels with the lines that declare them (a later declaration wins); or the
/// error of the first line that fails.
pub open spec fn parse_lines(ls: Seq<Seq<char>>) -> Result<
    (Seq<InstrModel>, Map<Seq<char>, usize>),
    ErrorIOModel,
>
    decreases ls.len(),
{
    if ls.len() == 0 {
        Ok((Seq::empty(), Map::empty()))
    } else {
        match parse_lines(ls.drop_last()) {
            Err(e) => Err(e),
            Ok((code, flags)) => match line_of(ls.last(), (ls.len() - 1) as usize) {
                Err(e) => Err(e),
                Ok((i, None)) => Ok((code.push(i), flags)),
                Ok((i, Some((label, k)))) => Ok((code.push(i), flags.insert(label, k))),
            },
        }
    }
}

/// What a source text parses to.
pub open spec fn parse_source(text: Seq<char>) -> Result<
    (Seq<InstrModel>, Map<Seq<char>, usize>),
    ErrorIOModel,
> {
    parse_lines(text_lines(text))
}

/// Only a `flg` line declares a label, and it declares it at its own index.
pub proof fn lemma_label_only_on_flg(raw: Seq<char>, n: usize)
    ensures
        line_of(raw, n) matches Ok((i, Some((_, k)))) ==> i == InstrModel::Flg && k == n,
{
}

/// Once a prefix of the lines fails to parse, the whole fails with the same error.
pub proof fn lemma_parse_error_persists(ls: Seq<Seq<char>>, k: int)
    requires
        0 <= k <= ls.len(),
        parse_lines(ls.take(k)) is Err,
    ensures
        parse_lines(ls) == parse_lines(ls.take(k)),
    decreases ls.len(),
{
    if k == ls.len() {
        assert(ls.take(k) =~= ls);
    } else {
        assert(ls.drop_last().take(k) =~= ls.take(k));
        lemma_parse_error_persists(ls.drop_last(), k);
    }
}

/// Every label names a line of `code` that holds a `flg`.
pub open spec fn labels_sound(code: Seq<InstrModel>, flags: Map<Seq<char>, usize>) -> bool {
    forall|l: Seq<char>| #[trigger]
        flags.contains_key(l) ==> flags[l] < code.len() && code[flags[l] as int] == InstrModel::Flg
}

/// The model of what `parse_line` returns.
pub open spec fn line_view(
    r: Result<(Instruction, Option<(String, usize)>), ErrorIO>,
) -> LineModel {
    match r {
        Ok((i, None)) => Ok((i@, None)),
        Ok((i, Some((l, k)))) => Ok((i@, Some((l@, k)))),
        Err(e) => Err(e@),
    }
}

/// The character sequences held by a sequence of vectors.
pub open spec fn char_seqs(v: Seq<Vec<char>>) -> Seq<Seq<char>> {
    v.map_values(|x: Vec<char>| x@)
}

// ---------------------------------------------------------------------------
// Executable parser
// ---------------------------------------------------------------------------

fn is_word3(s: &Vec<char>, a: char, b: char, c: char) -> (r: bool)
    ensures
        r == word3(s@, a, b, c),
{
    s.len() == 3 && s[0] == a && s[1] == b && s[2] == c
}

fn is_word4(s: &Vec<char>, a: char, b: char, c: char, d: char) -> (r: bool)
    ensures
        r == word4(s@, a, b, c, d),
{
    s.len() == 4 && s[0] == a && s[1] == b && s[2] == c && s[3] == d
}

/// Decodes a mnemonic (see `mnemonic_of`).
pub fn decode_mnemonic(s: &Vec<char>) -> (r: Option<Mnemonic>)
    ensures
        r == mnemonic_of(s@),
{
    if is_word3(s, 'v', 'a', 'r') {
        Some(Mnemonic::Var)
    } else if is_word3(s, 's', 'e', 't') {
        Some(Mnemonic::Assign)
    } else if is_word3(s, 'a', 'd', 'd') {
        Some(Mnemonic::Add)
    } else if is_word3(s, 's', 'u', 'b') {
        Some(Mnemonic::Sub)
    } else if is_word3(s, 'm', 'u', 'l') {
        Some(Mnemonic::Mul)
    } else if is_word3(s, 'd', 'i', 'v') {
        Some(Mnemonic::Div)
    } else if is_word3(s, 'm', 'o', 'd') {
        Some(Mnemonic::Mod)
    } else if is_word3(s, 'r', 'e', 't') {
        Some(Mnemonic::Ret)
    } else if is_word3(s, 'f', 'l', 'g') {
        Some(Mnemonic::Flg)
    } else if is_word3(s, 'g', 't', 'o') {
        Some(Mnemonic::Gto)
    } else if is_word3(s, 'j', 'm', 'p') {
        Some(Mnemonic::Jmp)
    } else if is_word3(s, 'j', 'n', 'e') {
        Some(Mnemonic::Jne)
    } else if is_word3(s, 'n', 'l', 'l') {
        Some(Mnemonic::Nll)
    } else if is_word3(s, 'p', 'r', 't') {
        Some(Mnemonic::Prt)
    } else if is_word4(s, 'c', 'a', 'd', 'd') {
        Some(Mnemonic::Cadd)
    } else if is_word4(s, 'c', 's', 'u', 'b') {
        Some(Mnemonic::Csub)
    } else if is_word4(s, 'c', 'm', 'u', 'l') {
        Some(Mnemonic::Cmul)
    } else if is_word4(s, 'c', 'd', 'i', 'v') {
        Some(Mnemonic::Cdiv)
    } else if is_word4(s, 'c', 'm', 'o', 'd') {
        Some(Mnemonic::Cmod)
    } else {
        None
    }
}

impl Mnemonic {
    /// Whether the mnemonic takes exactly two operands.
    pub fn needs_two(self) -> (r: bool)
        ensures
            r == self.spec_needs_two(),
    {
        !matches!(self, Mnemonic::Ret | Mnemonic::Gto | Mnemonic::Flg | Mnemonic::Prt | Mnemonic::Nll)
    }

    /// Whether the mnemonic takes exactly one operand.
    pub fn takes_one(self) -> (r: bool)
        ensures
            r == self.spec_takes_one(),
    {
        matches!(self, Mnemonic::Ret | Mnemonic::Gto | Mnemonic::Flg | Mnemonic::Prt)
    }
}

/// The name that a name token gives (see `name_of`).
fn name_from(t: &Vec<char>) -> (r: String)
    ensures
        r@ == name_of(t@),
{
    if t.len() > 0 && t[0] == VARIABLE_IDENTIFIER {
        string_from(t, 1)
    } else {
        let r = string_from(t, 0);
        assert(t@.subrange(0, t.len() as int) =~= t@);
        r
    }
}

/// A `String` holding `t`.
fn owned(t: &Vec<char>) -> (r: String)
    ensures
        r@ == t@,
{
    let r = string_from(t, 0);
    assert(t@.subrange(0, t.len() as int) =~= t@);
    r
}

/// A program, both as text and, once parsed, as instructions and labels.
pub struct ProgramFile {
    text: String,
    lines: Vec<Instruction>,
    flags: Table<usize>,
}

impl ProgramFile {
    #[verifier::type_invariant]
    pub closed spec fn wf(&self) -> bool {
        labels_sound(models(self.lines@), self.flags.view())
    }

    /// Every label names one of the file's `flg` lines.
    pub proof fn lemma_labels_sound(&self)
        requires
            self.wf(),
        ensures
            labels_sound(self.spec_lines(), self.spec_flags()),
    {
    }

    /// The source text.
    pub closed spec fn spec_text(&self) -> Seq<char> {
        self.text@
    }

    /// The parsed instructions, one per source line.
    pub closed spec fn spec_lines(&self) -> Seq<InstrModel> {
        models(self.lines@)
    }

    /// The labels, each with the line that declares it.
    pub closed spec fn spec_flags(&self) -> Map<Seq<char>, usize> {
        self.flags.view()
    }

    /// An empty program file.
    pub fn new() -> (r: Self)
        ensures
            r.spec_text() == Seq::<char>::empty(),
            r.spec_lines() == Seq::<InstrModel>::empty(),
            r.spec_flags() == Map::<Seq<char>, usize>::empty(),
    {
        let r = ProgramFile { text: String::new(), lines: Vec::new(), flags: Table::new() };
        assert(models(r.lines@) =~= Seq::<InstrModel>::empty());
        r
    }

    /// Replaces the source text, and forgets any earlier parse.
    pub fn load(&mut self, text: String)
        ensures
            final(self).spec_text() == text@,
            final(self).spec_lines() == Seq::<InstrModel>::empty(),
            final(self).spec_flags() == Map::<Seq<char>, usize>::empty(),
    {
        let lines: Vec<Instruction> = Vec::new();
        assert(models(lines@) =~= Seq::<InstrModel>::empty());
        *self = ProgramFile { text, lines, flags: Table::new() };
    }

    /// The source text.
    pub fn text(&self) -> (r: &String)
        ensures
            r@ == self.spec_text(),
    {
        &self.text
    }

    /// The parsed instructions.
    pub fn lines(&self) -> (r: &Vec<Instruction>)
        ensures
            models(r@) == self.spec_lines(),
    {
        &self.lines
    }

    /// The labels.
    pub fn flags(&self) -> (r: &Table<usize>)
        ensures
            r.view() == self.spec_flags(),
    {
        &self.flags
    }

    /// Reads a type token.
    pub fn match_type(input: &Vec<char>, line_number: usize) -> (r: Result<Type, ErrorIO>)
        ensures
            match type_of(input@) {
                Some(t) => r == Ok::<Type, ErrorIO>(t),
                None => r matches Err(e) && e@ == ErrorIOModel::UnknownType(input@, line_number),
            },
    {
        if is_word3(input, 'i', 'n', 't') {
            Ok(Type::Int)
        } else if is_word3(input, 'f', 'l', 't') {
            Ok(Type::Flt)
        } else if is_word3(input, 'c', 'h', 'r') {
            Ok(Type::Chr)
        } else {
            Err(ErrorIO::UnknownType(owned(input), line_number))
        }
    }

    /// Reads an operand token.
    pub fn match_var_or_value(input: &Vec<char>, line_number: usize) -> (r: Result<Val, ErrorIO>)
        ensures
            match operand_of(input@, line_number) {
                Ok(v) => r matches Ok(x) && x@ == v,
                Err(e) => r matches Err(x) && x@ == e,
            },
    {
        if input.len() == 0 {
            Err(ErrorIO::EmptyValue(line_number))
        } else if input[0] == VARIABLE_IDENTIFIER {
            Ok(Val::Var(string_from(input, 1)))
        } else {
            Ok(Val::Value(owned(input)))
        }
    }

    /// Builds the instruction of a mnemonic from its operand tokens.
    pub fn match_instruction(
        text_instruction: &Vec<char>,
        operands: &Vec<Vec<char>>,
        line_number: usize,
    ) -> (r: Result<(Instruction, Option<(String, usize)>), ErrorIO>)
        requires
            1 <= operands.len() <= 2,
        ensures
            line_view(r) == instruction_of(text_instruction@, char_seqs(operands@), line_number),
    {
        let ghost ops = char_seqs(operands@);
        let n = line_number;
        let kind = match decode_mnemonic(text_instruction) {
            None => {
                return Err(ErrorIO::UnknownInstruction(owned(text_instruction), n));
            },
            Some(k) => k,
        };
        if kind.needs_two() && operands.len() < 2 {
            return Err(ErrorIO::NotEnoughOperands(n));
        }
        if kind.takes_one() && operands.len() > 1 {
            return Err(ErrorIO::TooMuchOperands(n));
        }
        let a = &operands[0];
        assert(ops[0] == a@);
        match kind {
            Mnemonic::Var => {
                assert(ops[1] == operands[1]@);
                match Self::match_type(&operands[1], n) {
                    Ok(t) => Ok((Instruction::Var { var: name_from(a), var_type: t }, None)),
                    Err(e) => Err(e),
                }
            },
            Mnemonic::Assign | Mnemonic::Add | Mnemonic::Sub | Mnemonic::Mul | Mnemonic::Div
            | Mnemonic::Mod => {
                assert(ops[1] == operands[1]@);
                match Self::match_var_or_value(&operands[1], n) {
                    Ok(value) => {
                        let var = name_from(a);
                        let ins = match kind {
                            Mnemonic::Assign => Instruction::Assign { var, value },
                            Mnemonic::Add => Instruction::Add { var, value },
                            Mnemonic::Sub => Instruction::Sub { var, value },
                            Mnemonic::Mul => Instruction::Mul { var, value },
                            Mnemonic::Div => Instruction::Div { var, value },
                            _ => Instruction::Mod { var, value },
                        };
                        Ok((ins, None))
                    },
                    Err(e) => Err(e),
                }
            },
            Mnemonic::Ret => Ok((Instruction::Ret { var: name_from(a) }, None)),
            Mnemonic::Flg => Ok((Instruction::Flg, Some((owned(a), n)))),
            Mnemonic::Gto => Ok((Instruction::Gto { flag: owned(a) }, None)),
            Mnemonic::Jmp => {
                assert(ops[1] == operands[1]@);
                Ok((Instruction::Jmp { var: name_from(a), flag: owned(&operands[1]) }, None))
            },
            Mnemonic::Jne => {
                assert(ops[1] == operands[1]@);
                Ok((Instruction::Jne { var: name_from(a), flag: owned(&operands[1]) }, None))
            },
            Mnemonic::Nll => Ok((Instruction::Nll, None)),
            Mnemonic::Prt => match Self::match_var_or_value(a, n) {
                Ok(value) => Ok((Instruction::Prt { value }, None)),
                Err(e) => Err(e),
            },
            _ => {
                assert(ops[1] == operands[1]@);
                let op1 = match Self::match_var_or_value(a, n) {
                    Ok(v) => v,
                    Err(e) => {
                        return Err(e);
                    },
                };
                let op2 = match Self::match_var_or_value(&operands[1], n) {
                    Ok(v) => v,
                    Err(e) => {
                        return Err(e);
                    },
                };
                let ins = match kind {
                    Mnemonic::Cadd => Instruction::Cadd { op1, op2 },
                    Mnemonic::Csub => Instruction::Csub { op1, op2 },
                    Mnemonic::Cmul => Instruction::Cmul { op1, op2 },
                    Mnemonic::Cdiv => Instruction::Cdiv { op1, op2 },
                    _ => Instruction::Cmod { op1, op2 },
                };
                Ok((ins, None))
            },
        }
    }

    /// Parses one source line, numbered `line_number`.
    pub fn parse_line(line: &Vec<char>, line_number: usize) -> (r: Result<
        (Instruction, Option<(String, usize)>),
        ErrorIO,
    >)
        ensures
            line_view(r) == line_of(line@, line_number),
    {
        let n = line_number;
        let s = strip_whitespace(line);
        let pieces = split_chars(&s, ':');
        if pieces.len() <= 1 {
            if s.len() == 0 {
                return Ok((Instruction::Nll, None));
            } else {
                return Err(ErrorIO::NotEnoughOperands(n));
            }
        }
        if pieces.len() > 2 {
            return Err(ErrorIO::TooMuchInstructionSeparator(n));
        }
        let instruction = &pieces[0];
        let operands = split_chars(&pieces[1], ',');
        proof {
            lemma_split_nonempty(pieces[1]@, ',');
        }
        assert(char_seqs(operands@) =~= split_on(pieces[1]@, ','));
        if instruction.len() == 0 {
            Err(ErrorIO::EmptyInstruction(n))
        } else if operands.len() > 2 {
            Err(ErrorIO::TooMuchOperands(n))
        } else if operands[0].len() == 0 {
            Err(ErrorIO::EmptyOperand(n, 1))
        } else if operands.len() > 1 && operands[1].len() == 0 {
            Err(ErrorIO::EmptyOperand(n, 2))
        } else {
            Self::match_instruction(instruction, &operands, n)
        }
    }

    /// Parses the source text. On success the instructions and labels are
    /// replaced by those of the text; on failure nothing changes.
    pub fn parse(&mut self) -> (r: Result<(), ErrorIO>)
        ensures
            final(self).spec_text() == old(self).spec_text(),
            match parse_source(old(self).spec_text()) {
                Ok((code, flags)) => {
                    &&& r is Ok
                    &&& final(self).spec_lines() == code
                    &&& final(self).spec_flags() == flags
                },
                Err(e) => {
                    &&& r matches Err(x) && x@ == e
                    &&& final(self).spec_lines() == old(self).spec_lines()
                    &&& final(self).spec_flags() == old(self).spec_flags()
                },
            },
    {
        let chars = chars_of(self.text.as_str());
        let source = lines_of(&chars);
        let ghost ls = text_lines(self.text@);
        let mut code: Vec<Instruction> = Vec::new();
        let mut flags: Table<usize> = Table::new();
        assert(models(code@) =~= Seq::<InstrModel>::empty());
        let mut i: usize = 0;
        while i < source.len()
            invariant
                i <= source.len(),
                source.len() == ls.len(),
                forall|j: int| 0 <= j < source.len() ==> #[trigger] source[j]@ == ls[j],
                parse_lines(ls.take(i as int)) == Ok::<
                    (Seq<InstrModel>, Map<Seq<char>, usize>),
                    ErrorIOModel,
                >((models(code@), flags.view())),
                labels_sound(models(code@), flags.view()),
                ls == text_lines(old(self).spec_text()),
                *self == *old(self),
                code.len() == i,
            decreases source.len() - i,
        {
            assert(ls.take(i + 1).drop_last() =~= ls.take(i as int));
            let parsed = Self::parse_line(&source[i], i);
            proof {
                lemma_label_only_on_flg(ls[i as int], i);
            }
            match parsed {
                Ok((ins, label)) => {
                    let ghost before = models(code@);
                    let ghost ins_model = ins@;
                    code.push(ins);
                    assert(models(code@) =~= before.push(ins@));
                    assert(ls.take(i + 1).last() == ls[i as int]);
                    match label {
                        Some((l, k)) => {
                            let ghost old_flags = flags.view();
                            assert(line_of(ls[i as int], i) == line_view(Ok((ins, Some((l, k))))));
                            assert(ins@ == InstrModel::Flg && k == i);
                            flags.insert(l, k);
                            assert(labels_sound(models(code@), flags.view())) by {
                                assert forall|m: Seq<char>| #[trigger]
                                    flags.view().contains_key(m) implies flags.view()[m]
                                    < models(code@).len() && models(code@)[flags.view()[m] as int]
                                    == InstrModel::Flg by {
                                    if m != l@ {
                                        assert(old_flags.contains_key(m));
                                        assert(models(code@)[old_flags[m] as int] == before[old_flags[m] as int]);
                                    } else {
                                        assert(flags.view()[m] == i);
                                        assert(models(code@)[i as int] == ins_model);
                                    }
                                }
                            }
                        },
                        None => {},
                    }
                },
                Err(e) => {
                    assert(ls.take(i + 1).last() == ls[i as int]);
                    assert(parse_lines(ls.take(i + 1)) == Err::<
                        (Seq<InstrModel>, Map<Seq<char>, usize>),
                        ErrorIOModel,
                    >(e@));
                    proof {
                        lemma_parse_error_persists(ls, i + 1);
                    }
                    return Err(e);
                },
            }
            i = i + 1;
        }
        assert(ls.take(source.len() as int) =~= ls);
        let mut taken = ProgramFile::new();
        std::mem::swap(self, &mut taken);
        let ProgramFile { text, lines: _, flags: _ } = taken;
        *self = ProgramFile { text, lines: code, flags };
        Ok(())
    }
}

// ---------------------------------------------------------------------------
// Laws of the parser
// ---------------------------------------------------------------------------

/// A successful parse yields exactly one instruction per source line, empty
/// and no-op lines included.
pub proof fn law_one_instruction_per_line(text: Seq<char>)
    ensures
        parse_source(text) matches Ok((code, _)) ==> code.len() == text_lines(text).len(),
{
    lemma_parse_lines_len(text_lines(text));
}

proof fn lemma_parse_lines_len(ls: Seq<Seq<char>>)
    ensures
        parse_lines(ls) matches Ok((code, _)) ==> code.len() == ls.len(),
    decreases ls.len(),
{
    if ls.len() > 0 {
        lemma_parse_lines_len(ls.drop_last());
    }
}

/// Every label of a successful parse maps to the index of a line whose
/// instruction is `flg` (for any text whose line count fits in a `usize`).
pub proof fn law_labels_point_at_flg(text: Seq<char>)
    requires
        text_lines(text).len() <= usize::MAX,
    ensures
        parse_source(text) matches Ok((code, flags)) ==> labels_sound(code, flags),
{
    lemma_parse_lines_labels(text_lines(text));
}

proof fn lemma_parse_lines_labels(ls: Seq<Seq<char>>)
    requires
        ls.len() <= usize::MAX,
    ensures
        parse_lines(ls) matches Ok((code, flags)) ==> labels_sound(code, flags),
    decreases ls.len(),
{
    if ls.len() > 0 {
        let n = (ls.len() - 1) as usize;
        lemma_parse_lines_labels(ls.drop_last());
        lemma_parse_lines_len(ls.drop_last());
        lemma_label_only_on_flg(ls.last(), n);
        if let Ok((code, flags)) = parse_lines(ls.drop_last()) {
            if let Ok((i, label)) = line_of(ls.last(), n) {
                let code2 = code.push(i);
                let flags2 = match label {
                    Some((l, k)) => flags.insert(l, k),
                    None => flags,
                };
                assert forall|m: Seq<char>| #[trigger] flags2.contains_key(m) implies flags2[m]
                    < code2.len() && code2[flags2[m] as int] == InstrModel::Flg by {
                    if flags.contains_key(m) && !(label matches Some((l, _)) && l == m) {
                        assert(code2[flags[m] as int] == code[flags[m] as int]);
                    }
                }
            }
        }
    }
}

impl ProgramFile {
    /// The instructions and labels are those that the text parses to.
    pub open spec fn holds_parse_of_text(&self) -> bool {
        parse_source(self.spec_text()) == Ok::<
            (Seq<InstrModel>, Map<Seq<char>, usize>),
            ErrorIOModel,
        >((self.spec_lines(), self.spec_flags()))
    }
}

/// Parsing the same text twice yields equal instructions and equal labels:
/// two program files that hold the same text, each after a successful parse,
/// hold the same instructions and labels.
pub proof fn law_reparse_is_stable(a: &ProgramFile, b: &ProgramFile)
    requires
        a.spec_text() == b.spec_text(),
        a.holds_parse_of_text(),
        b.holds_parse_of_text(),
    ensures
        a.spec_lines() == b.spec_lines(),
        a.spec_flags() == b.spec_flags(),
{
}

} // verus!
