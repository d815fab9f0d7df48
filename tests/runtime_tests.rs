use libmoon::instructions::{ArithOp, Instruction};
use libmoon::{Cll, Error, Event, FloatWork, FltArg, Printed, Program, ProgramFile};

fn program(text: &str) -> Program {
    let mut file = ProgramFile::new();
    file.load(text.to_string());
    file.parse().unwrap();
    Program::from(file)
}

fn flt_value(arg: &FltArg) -> Option<f64> {
    match arg {
        FltArg::Bits(b) => Some(f64::from_bits(*b)),
        FltArg::Text(t) => t.parse::<f64>().ok(),
    }
}

fn do_float_work(work: &FloatWork) -> Option<u64> {
    match work {
        FloatWork::Parse(t) => t.parse::<f64>().ok().map(f64::to_bits),
        FloatWork::Apply(op, a, b) => {
            let x = flt_value(a)?;
            let y = flt_value(b)?;
            let r = match op {
                ArithOp::Add => x + y,
                ArithOp::Sub => x - y,
                ArithOp::Mul => x * y,
                ArithOp::Div => x / y,
                ArithOp::Mod => x % y,
            };
            Some(r.to_bits())
        }
    }
}

/// Runs `prog` to its end, doing the float work and collecting what it prints,
/// and the lines it executed.
fn run(prog: &mut Program) -> (Result<usize, Error>, Vec<Printed>, Vec<usize>) {
    let mut printed = Vec::new();
    let mut trace = Vec::new();
    for _ in 0..10_000 {
        let line = prog.lnb();
        match prog.interpret() {
            Ok(Event::Finished(pc)) => return (Ok(pc), printed, trace),
            Ok(Event::Moved) => trace.push(line),
            Ok(Event::Printed(p)) => {
                trace.push(line);
                printed.push(p)
            }
            Ok(Event::Float(work)) => {
                trace.push(line);
                if let Err(e) = prog.resume(do_float_work(&work)) {
                    return (Err(e), printed, trace);
                }
            }
            Err(e) => return (Err(e), printed, trace),
        }
    }
    panic!("the program did not end");
}

fn run_text(text: &str) -> (Result<usize, Error>, Vec<Printed>, Vec<usize>, Program) {
    let mut prog = program(text);
    let (r, p, t) = run(&mut prog);
    (r, p, t, prog)
}

fn cell(prog: &Program, name: &str) -> Option<Cll> {
    prog.memory().get(&name.to_string())
}

#[test]
fn basic_arithmetic() {
    let (r, printed, _, _) = run_text("var:a,int\nset:a,10\nadd:a,5\nprt:&a");
    assert_eq!(r, Ok(4));
    assert_eq!(
        printed,
        vec![Printed::Cell { line: 3, name: "a".to_owned(), cell: Cll::Int(Some(15)) }]
    );
}

#[test]
fn copy_between_types_is_refused() {
    let (r, _, _, prog) = run_text("var:a,int\nvar:b,flt\nset:a,1\nset:b,&a");
    assert_eq!(r, Err(Error::VariablesDifferInType(3)));
    assert_eq!(prog.lnb(), 3);
    assert_eq!(cell(&prog, "b"), Some(Cll::Flt(None)));
}

#[test]
fn loop_until_counter_is_zero() {
    let (r, printed, trace, _) =
        run_text("var:i,int\nset:i,3\nflg:loop\nsub:i,1\njne:&i,loop\nprt:&i");
    assert_eq!(r, Ok(6));
    assert_eq!(
        printed,
        vec![Printed::Cell { line: 5, name: "i".to_owned(), cell: Cll::Int(Some(0)) }]
    );
    assert_eq!(trace.iter().filter(|l| **l == 3).count(), 3);
    assert_eq!(trace.iter().filter(|l| **l == 4).count(), 3);
}

#[test]
fn carry_takes_type_of_first_variable() {
    let (r, printed, _, prog) = run_text("var:a,flt\nset:a,2.5\ncadd:&a,1.5\nprt:&-");
    assert_eq!(r, Ok(4));
    assert_eq!(
        printed,
        vec![Printed::Cell { line: 3, name: "-".to_owned(), cell: Cll::Flt(Some(4.0f64.to_bits())) }]
    );
    assert_eq!(cell(&prog, "a"), Some(Cll::Flt(Some(2.5f64.to_bits()))));
}

#[test]
fn carry_of_two_literals_is_refused() {
    let (r, _, _, _) = run_text("cadd:1,2");
    assert_eq!(r, Err(Error::CannotDetermineReturnType(0)));
}

#[test]
fn carry_int_forms() {
    let (r, _, _, prog) = run_text("var:a,int\nset:a,7\ncsub:10,&a");
    assert_eq!(r, Ok(3));
    assert_eq!(cell(&prog, "-"), Some(Cll::Int(Some(3))));
    let (_, _, _, prog) = run_text("var:a,int\nset:a,7\nvar:b,int\nset:b,2\ncmod:&a,&b");
    assert_eq!(cell(&prog, "-"), Some(Cll::Int(Some(1))));
    let (_, _, _, prog) = run_text("var:a,int\nset:a,-7\ncdiv:&a,2");
    assert_eq!(cell(&prog, "-"), Some(Cll::Int(Some(-3))));
    let (_, _, _, prog) = run_text("var:a,int\nset:a,6\ncmul:&a,7");
    assert_eq!(cell(&prog, "-"), Some(Cll::Int(Some(42))));
}

#[test]
fn carry_may_change_type() {
    let (r, _, _, prog) =
        run_text("var:a,int\nset:a,1\nvar:f,flt\nset:f,0.5\ncadd:&a,1\ncmul:&f,4");
    assert_eq!(r, Ok(6));
    assert_eq!(cell(&prog, "-"), Some(Cll::Flt(Some(2.0f64.to_bits()))));
}

#[test]
fn carry_errors() {
    let (r, _, _, _) = run_text("var:a,int\nset:a,1\ncadd:&a,x");
    assert_eq!(r, Err(Error::CannotDetermineReturnType(2)));
    let (r, _, _, _) = run_text("var:a,flt\nset:a,1\ncadd:&a,x");
    assert_eq!(r, Err(Error::CannotDetermineReturnType(2)));
    let (r, _, _, _) = run_text("var:a,int\nset:a,1\nvar:b,flt\nset:b,1\ncadd:&a,&b");
    assert_eq!(r, Err(Error::VariablesDifferInType(4)));
    let (r, _, _, _) = run_text("var:c,chr\nset:c,x\ncadd:&c,1");
    assert_eq!(r, Err(Error::CannotApplyOperationsOnChar(2)));
    let (r, _, _, _) = run_text("var:a,int\ncadd:1,&a");
    assert_eq!(r, Err(Error::VariableIsUninitialized("a".to_owned(), 1)));
    let (r, _, _, _) = run_text("cadd:1,&zz");
    assert_eq!(r, Err(Error::VariableDoesNotExists("zz".to_owned(), 0)));
    let (r, _, _, _) = run_text("var:a,int\nset:a,1\ncadd:&a,&nope");
    assert_eq!(r, Err(Error::VariableDoesNotExists("nope".to_owned(), 2)));
}

#[test]
fn int_division_by_zero_is_an_error() {
    let (r, _, _, prog) = run_text("var:a,int\nset:a,9\ndiv:a,0");
    assert_eq!(r, Err(Error::DivisionByZero(2)));
    assert_eq!(cell(&prog, "a"), Some(Cll::Int(Some(9))));
    let (r, _, _, _) = run_text("var:a,int\nset:a,9\nmod:a,0");
    assert_eq!(r, Err(Error::DivisionByZero(2)));
    let (r, _, _, _) = run_text("var:a,int\nset:a,9\ncdiv:&a,0");
    assert_eq!(r, Err(Error::DivisionByZero(2)));
}

#[test]
fn flt_division_by_zero_follows_ieee() {
    let (r, _, _, prog) = run_text("var:a,flt\nset:a,1\ndiv:a,0");
    assert_eq!(r, Ok(3));
    assert_eq!(cell(&prog, "a"), Some(Cll::Flt(Some(f64::INFINITY.to_bits()))));
}

#[test]
fn int_arithmetic_wraps_and_truncates() {
    let (_, _, _, prog) = run_text("var:a,int\nset:a,2147483647\nadd:a,1");
    assert_eq!(cell(&prog, "a"), Some(Cll::Int(Some(i32::MIN))));
    let (_, _, _, prog) = run_text("var:a,int\nset:a,-2147483648\nsub:a,1");
    assert_eq!(cell(&prog, "a"), Some(Cll::Int(Some(i32::MAX))));
    let (_, _, _, prog) = run_text("var:a,int\nset:a,65536\nmul:a,65536");
    assert_eq!(cell(&prog, "a"), Some(Cll::Int(Some(0))));
    let (_, _, _, prog) = run_text("var:a,int\nset:a,-2147483648\ndiv:a,-1");
    assert_eq!(cell(&prog, "a"), Some(Cll::Int(Some(i32::MIN))));
    let (_, _, _, prog) = run_text("var:a,int\nset:a,-2147483648\nmod:a,-1");
    assert_eq!(cell(&prog, "a"), Some(Cll::Int(Some(0))));
    let (_, _, _, prog) = run_text("var:a,int\nset:a,-7\ndiv:a,2");
    assert_eq!(cell(&prog, "a"), Some(Cll::Int(Some(-3))));
    let (_, _, _, prog) = run_text("var:a,int\nset:a,-7\nmod:a,2");
    assert_eq!(cell(&prog, "a"), Some(Cll::Int(Some(-1))));
    let (_, _, _, prog) = run_text("var:a,int\nset:a,7\nmod:a,-2");
    assert_eq!(cell(&prog, "a"), Some(Cll::Int(Some(1))));
    let (_, _, _, prog) = run_text("var:a,int\nvar:b,int\nset:a,20\nset:b,6\nsub:a,&b");
    assert_eq!(cell(&prog, "a"), Some(Cll::Int(Some(14))));
}

#[test]
fn int_literals() {
    let (_, _, _, prog) = run_text("var:a,int\nset:a,+42");
    assert_eq!(cell(&prog, "a"), Some(Cll::Int(Some(42))));
    let (_, _, _, prog) = run_text("var:a,int\nset:a,-0");
    assert_eq!(cell(&prog, "a"), Some(Cll::Int(Some(0))));
    let (_, _, _, prog) = run_text("var:a,int\nset:a,007");
    assert_eq!(cell(&prog, "a"), Some(Cll::Int(Some(7))));
    for bad in ["2147483648", "-2147483649", "+", "-", "1.5", "0x10", "+-1", "99999999999999999999"] {
        let (r, _, _, _) = run_text(&format!("var:a,int\nset:a,{}", bad));
        assert_eq!(r, Err(Error::CouldNotParseIntValue(bad.to_owned())));
    }
}

#[test]
fn set_of_unreadable_literal() {
    let (r, _, _, _) = run_text("var:a,int\nset:a,abc");
    assert_eq!(r, Err(Error::CouldNotParseIntValue("abc".to_owned())));
    let (r, _, _, _) = run_text("var:c,chr\nset:c,ab");
    assert_eq!(r, Err(Error::CouldNotParseChrValue("ab".to_owned())));
    let (r, _, _, prog) = run_text("var:f,flt\nset:f,abc");
    assert_eq!(r, Err(Error::CouldNotParseFltValue("abc".to_owned())));
    assert_eq!(cell(&prog, "f"), Some(Cll::Flt(None)));
    let (r, _, _, _) = run_text("var:f,flt\nset:f,1\nadd:f,zz");
    assert_eq!(r, Err(Error::CouldNotParseFltValue("zz".to_owned())));
    let (r, _, _, _) = run_text("var:a,int\nset:a,1\nadd:a,zz");
    assert_eq!(r, Err(Error::CouldNotParseIntValue("zz".to_owned())));
}

#[test]
fn chr_values() {
    let (r, printed, _, prog) = run_text("var:c,chr\nset:c,x\nvar:d,chr\nset:d,&c\nprt:&d");
    assert_eq!(r, Ok(5));
    assert_eq!(cell(&prog, "d"), Some(Cll::Chr(Some('x'))));
    assert_eq!(
        printed,
        vec![Printed::Cell { line: 4, name: "d".to_owned(), cell: Cll::Chr(Some('x')) }]
    );
    let (r, _, _, _) = run_text("var:c,chr\nset:c,x\nadd:c,1");
    assert_eq!(r, Err(Error::CannotApplyOperationsOnChar(2)));
    let (r, _, _, _) = run_text("var:c,chr\nset:c,x\nflg:l\njmp:&c,l");
    assert_eq!(r, Err(Error::CannotApplyComparisonsOnChar(3)));
}

#[test]
fn jump_on_uninitialised_variable() {
    let (r, _, _, _) = run_text("var:a,int\nflg:l\njmp:&a,l");
    assert_eq!(r, Err(Error::VariableIsUninitialized("a".to_owned(), 2)));
    let (r, _, _, _) = run_text("var:a,flt\nflg:l\njne:a,l");
    assert_eq!(r, Err(Error::VariableIsUninitialized("a".to_owned(), 2)));
    let (r, _, _, _) = run_text("var:c,chr\nflg:l\njne:c,l");
    assert_eq!(r, Err(Error::VariableIsUninitialized("c".to_owned(), 2)));
}

#[test]
fn jumps() {
    let (r, printed, _, _) =
        run_text("var:z,int\nset:z,0\njmp:&z,skip\nprt:no\nflg:skip\nprt:yes");
    assert_eq!(r, Ok(6));
    assert_eq!(printed, vec![Printed::Literal { line: 5, text: "yes".to_owned() }]);
    let (r, printed, _, _) = run_text("var:z,flt\nset:z,-0.0\njne:&z,end\nprt:zero\nflg:end");
    assert_eq!(r, Ok(5));
    assert_eq!(printed, vec![Printed::Literal { line: 3, text: "zero".to_owned() }]);
    let (r, printed, _, _) = run_text("var:z,flt\nset:z,0.25\njmp:&z,end\nprt:nonzero\nflg:end");
    assert_eq!(r, Ok(5));
    assert_eq!(printed.len(), 1);
    let (r, _, _, _) = run_text("gto:forward\nprt:skipped\nflg:forward");
    assert_eq!(r, Ok(3));
    let (r, _, _, _) = run_text("gto:nowhere");
    assert_eq!(r, Err(Error::CouldNotFindFlag("nowhere".to_owned(), 0)));
    let (r, _, _, _) = run_text("var:a,int\nset:a,1\njne:&a,nowhere");
    assert_eq!(r, Err(Error::CouldNotFindFlag("nowhere".to_owned(), 2)));
    let (r, _, _, _) = run_text("var:a,int\nset:a,1\njmp:&a,nowhere");
    assert_eq!(r, Ok(3));
}

#[test]
fn runtime_errors() {
    let (r, _, _, _) = run_text("var:a,int\nret:a");
    assert_eq!(
        r,
        Err(Error::UnimplementedInstruction(Instruction::Ret { var: "a".to_owned() }, 1))
    );
    let (r, _, _, _) = run_text("set:b,1");
    assert_eq!(r, Err(Error::VariableDoesNotExists("b".to_owned(), 0)));
    let (r, _, _, _) = run_text("var:a,int\nadd:a,1");
    assert_eq!(r, Err(Error::VariableIsUninitialized("a".to_owned(), 1)));
    let (r, _, _, _) = run_text("var:a,int\nvar:b,int\nset:a,&b");
    assert_eq!(r, Err(Error::VariableIsUninitialized("b".to_owned(), 2)));
    let (r, _, _, _) = run_text("var:a,int\nset:a,&b");
    assert_eq!(r, Err(Error::VariableDoesNotExists("b".to_owned(), 1)));
    let (r, _, _, _) = run_text("prt:&ghost");
    assert_eq!(r, Err(Error::VariableDoesNotExists("ghost".to_owned(), 0)));
}

#[test]
fn declarations_only_program() {
    let (r, printed, _, prog) = run_text("var:a,int\nnll:x\nvar:b,flt\n\nvar:c,chr\nvar:a,flt");
    assert_eq!(r, Ok(6));
    assert!(printed.is_empty());
    assert_eq!(prog.memory().len(), 3);
    assert_eq!(cell(&prog, "a"), Some(Cll::Flt(None)));
    assert_eq!(cell(&prog, "b"), Some(Cll::Flt(None)));
    assert_eq!(cell(&prog, "c"), Some(Cll::Chr(None)));
    assert_eq!(cell(&prog, "d"), None);
}

#[test]
fn types_stay_as_declared() {
    let (r, _, _, prog) = run_text(
        "var:a,int\nvar:f,flt\nset:a,3\nset:f,1.5\nadd:a,2\nmul:f,&f\ncadd:&a,1\ncadd:&f,1",
    );
    assert_eq!(r, Ok(8));
    assert_eq!(cell(&prog, "a"), Some(Cll::Int(Some(5))));
    assert_eq!(cell(&prog, "f"), Some(Cll::Flt(Some(2.25f64.to_bits()))));
    assert_eq!(cell(&prog, "-"), Some(Cll::Flt(Some(3.25f64.to_bits()))));
}

#[test]
fn pc_stays_in_range_and_ends_at_len() {
    let mut prog = program("var:a,int\nset:a,2\nflg:top\nsub:a,1\njne:&a,top");
    for _ in 0..100 {
        let len = prog.file().lines().len();
        assert!(prog.lnb() <= len);
        match prog.interpret().unwrap() {
            Event::Finished(pc) => {
                assert_eq!(pc, len);
                assert_eq!(prog.interpret(), Ok(Event::Finished(len)));
                return;
            }
            _ => {}
        }
    }
    panic!("the program did not end");
}

#[test]
fn float_work_waits_for_resume() {
    let mut prog = program("var:f,flt\nset:f,2.5\nprt:&f");
    assert_eq!(prog.interpret(), Ok(Event::Moved));
    let work = match prog.interpret() {
        Ok(Event::Float(w)) => w,
        other => panic!("unexpected {:?}", other),
    };
    assert_eq!(work, FloatWork::Parse("2.5".to_owned()));
    assert_eq!(prog.lnb(), 1);
    assert_eq!(prog.interpret(), Ok(Event::Float(FloatWork::Parse("2.5".to_owned()))));
    assert_eq!(prog.resume(Some(2.5f64.to_bits())), Ok(()));
    assert_eq!(prog.lnb(), 2);
    assert_eq!(cell(&prog, "f"), Some(Cll::Flt(Some(2.5f64.to_bits()))));
    assert_eq!(prog.resume(Some(7)), Ok(()));
    assert_eq!(prog.lnb(), 2);
    assert_eq!(
        prog.interpret(),
        Ok(Event::Printed(Printed::Cell {
            line: 2,
            name: "f".to_owned(),
            cell: Cll::Flt(Some(2.5f64.to_bits()))
        }))
    );
}

#[test]
fn float_work_without_literal_ignores_unreadable_reply() {
    let mut prog = program("var:f,flt\nset:f,2\nadd:f,&f");
    assert_eq!(prog.interpret(), Ok(Event::Moved));
    assert!(matches!(prog.interpret(), Ok(Event::Float(_))));
    assert_eq!(prog.resume(Some(2.0f64.to_bits())), Ok(()));
    let work = match prog.interpret() {
        Ok(Event::Float(w)) => w,
        other => panic!("unexpected {:?}", other),
    };
    assert_eq!(
        work,
        FloatWork::Apply(ArithOp::Add, FltArg::Bits(2.0f64.to_bits()), FltArg::Bits(2.0f64.to_bits()))
    );
    assert_eq!(prog.resume(None), Ok(()));
    assert_eq!(prog.lnb(), 2);
    assert_eq!(prog.resume(Some(4.0f64.to_bits())), Ok(()));
    assert_eq!(prog.lnb(), 3);
    assert_eq!(cell(&prog, "f"), Some(Cll::Flt(Some(4.0f64.to_bits()))));
}

#[test]
fn literal_print() {
    let (r, printed, _, _) = run_text("prt:hello");
    assert_eq!(r, Ok(1));
    assert_eq!(printed, vec![Printed::Literal { line: 0, text: "hello".to_owned() }]);
    let (r, printed, _, _) = run_text("var:u,int\nprt:&u");
    assert_eq!(r, Ok(2));
    assert_eq!(
        printed,
        vec![Printed::Cell { line: 1, name: "u".to_owned(), cell: Cll::Int(None) }]
    );
}
