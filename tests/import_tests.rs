use libmoon::instructions::{Instruction, Type, Val};
use libmoon::{ErrorIO, ProgramFile};

fn parsed(text: &str) -> Result<ProgramFile, ErrorIO> {
    let mut prog = ProgramFile::new();
    prog.load(text.to_string());
    match prog.parse() {
        Ok(()) => Ok(prog),
        Err(e) => Err(e),
    }
}

#[test]
fn import() {
    let text = "var: a, int\nset: a, 10\n\nflg: hello\nadd: a, 5\ngto: hello\n";
    let prog = match parsed(text) {
        Ok(p) => p,
        Err(e) => panic!("Error : {:?}", e),
    };
    assert_eq!(
        prog.lines()[0],
        Instruction::Var {
            var: "a".to_owned(),
            var_type: Type::Int
        }
    );
    assert_eq!(
        prog.lines()[1],
        Instruction::Assign {
            var: "a".to_owned(),
            value: Val::Value("10".to_owned())
        }
    );
    assert_eq!(prog.lines()[2], Instruction::Nll);
    assert_eq!(prog.lines()[3], Instruction::Flg);
    assert_eq!(
        prog.lines()[4],
        Instruction::Add {
            var: "a".to_owned(),
            value: Val::Value("5".to_owned())
        }
    );
    assert_eq!(
        prog.lines()[5],
        Instruction::Gto {
            flag: "hello".to_owned()
        }
    );
    assert_eq!(prog.flags().get(&"hello".to_string()), Some(3));
}

#[test]
fn one_instruction_per_source_line() {
    let prog = parsed("var:a,int\n\n   \nnll: anything\nflg:x\n").unwrap();
    assert_eq!(prog.lines().len(), 5);
    assert_eq!(prog.lines()[1], Instruction::Nll);
    assert_eq!(prog.lines()[2], Instruction::Nll);
    assert_eq!(prog.lines()[3], Instruction::Nll);
    let no_final_newline = parsed("var:a,int\nnll:x").unwrap();
    assert_eq!(no_final_newline.lines().len(), 2);
    let crlf = parsed("var:a,int\r\nset:a,1\r\n").unwrap();
    assert_eq!(crlf.lines().len(), 2);
    assert_eq!(parsed("").unwrap().lines().len(), 0);
    assert_eq!(parsed("\n").unwrap().lines().len(), 1);
}

#[test]
fn labels_point_at_flag_lines() {
    let prog = parsed("flg:a\nnll:x\nflg:b\ngto:a\nflg:a\n").unwrap();
    assert_eq!(prog.flags().len(), 2);
    let a = prog.flags().get(&"a".to_string()).unwrap();
    let b = prog.flags().get(&"b".to_string()).unwrap();
    assert_eq!(a, 4);
    assert_eq!(b, 2);
    assert_eq!(prog.lines()[a], Instruction::Flg);
    assert_eq!(prog.lines()[b], Instruction::Flg);
    assert_eq!(prog.flags().get(&"c".to_string()), None);
}

#[test]
fn reparsing_gives_the_same_program() {
    let text = "var:i,int\nset:i,3\nflg:loop\nsub:i,1\njne:&i,loop\nprt:&i\n";
    let mut prog = ProgramFile::new();
    prog.load(text.to_string());
    prog.parse().unwrap();
    let first = prog.lines().clone();
    let first_loop = prog.flags().get(&"loop".to_string());
    prog.parse().unwrap();
    assert_eq!(prog.lines(), &first);
    assert_eq!(prog.lines().len(), 6);
    assert_eq!(prog.flags().get(&"loop".to_string()), first_loop);
    assert_eq!(prog.flags().len(), 1);
    let other = parsed(text).unwrap();
    assert_eq!(other.lines(), &first);
}

#[test]
fn whitespace_is_ignored() {
    let prog = parsed("  s e t : a b ,\t1 0 ").unwrap();
    assert_eq!(
        prog.lines()[0],
        Instruction::Assign {
            var: "ab".to_owned(),
            value: Val::Value("10".to_owned())
        }
    );
}

#[test]
fn every_mnemonic_parses() {
    let text = "var:a,flt\nvar:b,chr\nset:a,&b\nadd:a,1\nsub:a,1\nmul:a,1\ndiv:a,1\nmod:a,1\n\
                ret:a\nflg:f\ngto:f\njmp:&a,f\njne:a,f\nnll:x\nprt:&a\nprt:hi\n\
                cadd:&a,1\ncsub:1,&a\ncmul:&a,&b\ncdiv:&a,2\ncmod:&a,2\n";
    let prog = parsed(text).unwrap();
    let l = prog.lines();
    let lit = |s: &str| Val::Value(s.to_owned());
    let var = |s: &str| Val::Var(s.to_owned());
    assert_eq!(l[0], Instruction::Var { var: "a".to_owned(), var_type: Type::Flt });
    assert_eq!(l[1], Instruction::Var { var: "b".to_owned(), var_type: Type::Chr });
    assert_eq!(l[2], Instruction::Assign { var: "a".to_owned(), value: var("b") });
    assert_eq!(l[3], Instruction::Add { var: "a".to_owned(), value: lit("1") });
    assert_eq!(l[4], Instruction::Sub { var: "a".to_owned(), value: lit("1") });
    assert_eq!(l[5], Instruction::Mul { var: "a".to_owned(), value: lit("1") });
    assert_eq!(l[6], Instruction::Div { var: "a".to_owned(), value: lit("1") });
    assert_eq!(l[7], Instruction::Mod { var: "a".to_owned(), value: lit("1") });
    assert_eq!(l[8], Instruction::Ret { var: "a".to_owned() });
    assert_eq!(l[9], Instruction::Flg);
    assert_eq!(l[10], Instruction::Gto { flag: "f".to_owned() });
    assert_eq!(l[11], Instruction::Jmp { var: "a".to_owned(), flag: "f".to_owned() });
    assert_eq!(l[12], Instruction::Jne { var: "a".to_owned(), flag: "f".to_owned() });
    assert_eq!(l[13], Instruction::Nll);
    assert_eq!(l[14], Instruction::Prt { value: var("a") });
    assert_eq!(l[15], Instruction::Prt { value: lit("hi") });
    assert_eq!(l[16], Instruction::Cadd { op1: var("a"), op2: lit("1") });
    assert_eq!(l[17], Instruction::Csub { op1: lit("1"), op2: var("a") });
    assert_eq!(l[18], Instruction::Cmul { op1: var("a"), op2: var("b") });
    assert_eq!(l[19], Instruction::Cdiv { op1: var("a"), op2: lit("2") });
    assert_eq!(l[20], Instruction::Cmod { op1: var("a"), op2: lit("2") });
    assert_eq!(prog.flags().get(&"f".to_string()), Some(9));
}

#[test]
fn unknown_mnemonic_is_refused() {
    let mut prog = ProgramFile::new();
    prog.load("foo:x,1".to_string());
    assert_eq!(prog.parse(), Err(ErrorIO::UnknownInstruction("foo".to_owned(), 0)));
    assert_eq!(prog.lines().len(), 0);
}

#[test]
fn parse_errors_name_their_line() {
    let err = |t: &str| parsed(t).err().unwrap();
    assert_eq!(err("nll:x\nvar:a"), ErrorIO::NotEnoughOperands(1));
    assert_eq!(err("hello"), ErrorIO::NotEnoughOperands(0));
    assert_eq!(err("gto:a,b"), ErrorIO::TooMuchOperands(0));
    assert_eq!(err("set:a,b,c"), ErrorIO::TooMuchOperands(0));
    assert_eq!(err("nll:x\nnll:x\nset:a:1"), ErrorIO::TooMuchInstructionSeparator(2));
    assert_eq!(err(":a"), ErrorIO::EmptyInstruction(0));
    assert_eq!(err("set:,1"), ErrorIO::EmptyOperand(0, 1));
    assert_eq!(err("set:a,"), ErrorIO::EmptyOperand(0, 2));
    assert_eq!(err("nll:"), ErrorIO::EmptyOperand(0, 1));
    assert_eq!(err("var:a,str"), ErrorIO::UnknownType("str".to_owned(), 0));
    assert_eq!(err("cadd:1"), ErrorIO::NotEnoughOperands(0));
    assert_eq!(err("prt:a\nprt:b,c\nfoo:x"), ErrorIO::TooMuchOperands(1));
}

#[test]
fn load_forgets_the_previous_parse() {
    let mut prog = ProgramFile::new();
    prog.load("var:a,int\nflg:top".to_string());
    prog.parse().unwrap();
    assert_eq!(prog.lines().len(), 2);
    prog.load("var:a,int".to_string());
    assert_eq!(prog.lines().len(), 0);
    assert_eq!(prog.flags().len(), 0);
    assert_eq!(prog.text(), "var:a,int");
    prog.parse().unwrap();
    assert_eq!(prog.lines().len(), 1);
    prog.load("var:a,int\nbad".to_string());
    assert!(prog.parse().is_err());
    assert_eq!(prog.lines().len(), 0);
}

#[test]
fn sigil_marks_variable_names() {
    let prog = parsed("set:&a,&b\nprt:&").unwrap();
    assert_eq!(
        prog.lines()[0],
        Instruction::Assign {
            var: "a".to_owned(),
            value: Val::Var("b".to_owned())
        }
    );
    assert_eq!(prog.lines()[1], Instruction::Prt { value: Val::Var(String::new()) });
}
