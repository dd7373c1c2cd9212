use aoclib::aocisa::{
    DecodeError, ErrorKind, ExecError, Instruction, Program, RegisterHolder, RegisterOrValue, HALT,
};

fn run_to_halt(program: &Program, holder: &mut RegisterHolder, limit: usize) -> usize {
    let mut ip: usize = 0;
    let mut steps = 0;
    while ip < program.len() && steps < limit {
        let inst = program.get(ip).unwrap();
        holder.apply_instruction(inst).unwrap();
        ip = holder.get_next_ip(inst, ip);
        steps += 1;
    }
    ip
}

#[test]
fn load_print() {
    let input = r"snd z
snd -10
set a z
set a -10
add a z
add a -10
sub a z
sub a -10
mul a z
mul a -10
mod a z
mod a -10
rcv z
jgz a z
jgz -10 -10
jgz a -10
jgz -10 a";
    assert_eq!(input, Program::load(&input).unwrap().render().trim());
}

#[test]
fn store_load() {
    let mut holder = RegisterHolder::default();
    for i in ('a' as u8)..('z' as u8) + 1 {
        *holder.get_reg_mut(char::from(i)) = i64::from(i);
    }

    for i in ('a' as u8)..('z' as u8) + 1 {
        assert_eq!(*holder.get_reg(char::from(i)), i64::from(i));
    }
}

#[test]
fn store_load_inst() {
    let mut holder = RegisterHolder::default();

    holder
        .apply_instruction(&Instruction::Assign('a', RegisterOrValue::Val(i64::from('a' as u8))))
        .unwrap();

    for i in ('b' as u8)..('z' as u8) + 1 {
        holder
            .apply_instruction(&Instruction::Assign(char::from(i), RegisterOrValue::Reg(char::from(i - 1))))
            .unwrap();
        holder.apply_instruction(&Instruction::Add(char::from(i), RegisterOrValue::Val(1))).unwrap();
    }

    for i in ('a' as u8)..('z' as u8) + 1 {
        assert_eq!(*holder.get_reg(char::from(i)), i64::from(i));
    }
}

#[test]
fn jumps() {
    let holder = RegisterHolder::default();
    assert_eq!(holder.get_next_ip(&Instruction::Assign('a', RegisterOrValue::Val(1)), 0), 1);
    assert_eq!(
        holder.get_next_ip(&Instruction::Jgz(RegisterOrValue::Val(1), RegisterOrValue::Val(-10)), 0),
        usize::max_value()
    );
    assert_eq!(
        holder.get_next_ip(&Instruction::Jnz(RegisterOrValue::Val(1), RegisterOrValue::Val(-10)), 0),
        usize::max_value()
    );
}

#[test]
fn jgz() {
    let mut holder = RegisterHolder::default();
    *holder.get_reg_mut('a') = 1;
    assert_eq!(holder.get_next_ip(&Instruction::Jgz(RegisterOrValue::Val(0), RegisterOrValue::Val(2)), 0), 1);
    assert_eq!(holder.get_next_ip(&Instruction::Jgz(RegisterOrValue::Val(1), RegisterOrValue::Val(2)), 0), 2);
    assert_eq!(holder.get_next_ip(&Instruction::Jgz(RegisterOrValue::Reg('a'), RegisterOrValue::Val(2)), 0), 2);
    assert_eq!(holder.get_next_ip(&Instruction::Jgz(RegisterOrValue::Reg('b'), RegisterOrValue::Val(2)), 0), 1);
}

#[test]
fn jnz() {
    let mut holder = RegisterHolder::default();
    *holder.get_reg_mut('a') = 1;
    assert_eq!(holder.get_next_ip(&Instruction::Jnz(RegisterOrValue::Val(0), RegisterOrValue::Val(2)), 0), 1);
    assert_eq!(holder.get_next_ip(&Instruction::Jnz(RegisterOrValue::Val(1), RegisterOrValue::Val(2)), 0), 2);
    assert_eq!(holder.get_next_ip(&Instruction::Jnz(RegisterOrValue::Reg('a'), RegisterOrValue::Val(2)), 0), 2);
    assert_eq!(holder.get_next_ip(&Instruction::Jnz(RegisterOrValue::Reg('b'), RegisterOrValue::Val(2)), 0), 1);
}

#[test]
fn render_then_decode_gives_back_instructions() {
    let samples = vec![
        Instruction::Snd(RegisterOrValue::Val(i64::MIN)),
        Instruction::Assign('q', RegisterOrValue::Val(i64::MAX)),
        Instruction::Mod('z', RegisterOrValue::Reg('a')),
        Instruction::Rcv('m'),
        Instruction::Jnz(RegisterOrValue::Val(-1), RegisterOrValue::Reg('b')),
        Instruction::Jgz(RegisterOrValue::Val(0), RegisterOrValue::Val(7)),
    ];
    for inst in samples {
        let text = inst.render();
        assert_eq!(Instruction::from(&text), Ok(inst));
    }
    assert_eq!(Instruction::Snd(RegisterOrValue::Val(-10)).render(), "snd -10");
}

#[test]
fn set_then_get_register() {
    let mut holder = RegisterHolder::new();
    holder.set_reg('k', i64::MIN);
    holder.set_reg('z', 42);
    assert_eq!(*holder.get_reg('k'), i64::MIN);
    assert_eq!(*holder.get_reg('z'), 42);
    assert_eq!(*holder.get_reg('a'), 0);
}

#[test]
fn arithmetic_wraps_on_overflow() {
    let mut holder = RegisterHolder::new();
    holder.set_reg('a', i64::MAX);
    assert_eq!(holder.apply_instruction(&Instruction::Add('a', RegisterOrValue::Val(1))), Ok(true));
    assert_eq!(*holder.get_reg('a'), i64::MIN);
    assert_eq!(holder.apply_instruction(&Instruction::Sub('a', RegisterOrValue::Val(1))), Ok(true));
    assert_eq!(*holder.get_reg('a'), i64::MAX);
    holder.set_reg('b', i64::MAX);
    assert_eq!(holder.apply_instruction(&Instruction::Mul('b', RegisterOrValue::Val(2))), Ok(true));
    assert_eq!(*holder.get_reg('b'), -2);
}

#[test]
fn mod_truncates_toward_zero() {
    let mut holder = RegisterHolder::new();
    holder.set_reg('a', -7);
    assert_eq!(holder.apply_instruction(&Instruction::Mod('a', RegisterOrValue::Val(3))), Ok(true));
    assert_eq!(*holder.get_reg('a'), -1);
    holder.set_reg('b', 7);
    holder.apply_instruction(&Instruction::Mod('b', RegisterOrValue::Val(-3))).unwrap();
    assert_eq!(*holder.get_reg('b'), 1);
    holder.set_reg('c', i64::MIN);
    holder.apply_instruction(&Instruction::Mod('c', RegisterOrValue::Val(-1))).unwrap();
    assert_eq!(*holder.get_reg('c'), 0);
}

#[test]
fn mod_by_zero_is_an_error() {
    let mut holder = RegisterHolder::new();
    holder.set_reg('a', 5);
    assert_eq!(
        holder.apply_instruction(&Instruction::Mod('a', RegisterOrValue::Reg('b'))),
        Err(ExecError::DivisionByZero)
    );
    assert_eq!(*holder.get_reg('a'), 5);
}

#[test]
fn driver_kinds_are_handed_back() {
    let mut holder = RegisterHolder::new();
    assert_eq!(holder.apply_instruction(&Instruction::Snd(RegisterOrValue::Val(1))), Ok(false));
    assert_eq!(holder.apply_instruction(&Instruction::Rcv('a')), Ok(false));
    assert_eq!(
        holder.apply_instruction(&Instruction::Jgz(RegisterOrValue::Val(1), RegisterOrValue::Val(1))),
        Ok(false)
    );
}

#[test]
fn jump_before_start_halts() {
    let holder = RegisterHolder::new();
    assert_eq!(
        holder.get_next_ip(&Instruction::Jnz(RegisterOrValue::Val(1), RegisterOrValue::Val(-10)), 0),
        HALT
    );
    assert_eq!(
        holder.get_next_ip(&Instruction::Jnz(RegisterOrValue::Val(1), RegisterOrValue::Val(-3)), 3),
        0
    );
    assert_eq!(
        holder.get_next_ip(&Instruction::Jgz(RegisterOrValue::Val(1), RegisterOrValue::Val(i64::MIN)), 5),
        HALT
    );
}

#[test]
fn jump_taken_and_not_taken() {
    let holder = RegisterHolder::new();
    assert_eq!(holder.get_next_ip(&Instruction::Jgz(RegisterOrValue::Val(0), RegisterOrValue::Val(2)), 0), 1);
    assert_eq!(holder.get_next_ip(&Instruction::Jgz(RegisterOrValue::Val(1), RegisterOrValue::Val(2)), 0), 2);
    assert_eq!(holder.get_next_ip(&Instruction::Rcv('a'), usize::MAX), HALT);
}

#[test]
fn program_runs_to_completion() {
    let program = Program::load("set a 1\nadd a 2\nmul a a\nsub a 4\nmod a 5\n").unwrap();
    assert_eq!(program.len(), 5);
    let mut holder = RegisterHolder::new();
    let ip = run_to_halt(&program, &mut holder, 100);
    assert_eq!(ip, 5);
    assert_eq!(*holder.get_reg('a'), 0);
}

#[test]
fn negative_jump_from_start_halts() {
    let program = Program::load("jnz a -1").unwrap();
    let mut holder = RegisterHolder::new();
    holder.set_reg('a', 3);
    let ip = run_to_halt(&program, &mut holder, 100);
    assert_eq!(ip, HALT);
}

#[test]
fn operand_classification() {
    assert_eq!(RegisterOrValue::from("x"), Ok(RegisterOrValue::Reg('x')));
    assert_eq!(RegisterOrValue::from("-9223372036854775808"), Ok(RegisterOrValue::Val(i64::MIN)));
    assert_eq!(RegisterOrValue::from("007"), Ok(RegisterOrValue::Val(7)));
    let err = RegisterOrValue::from("9223372036854775808").unwrap_err();
    assert_eq!(err.kind, ErrorKind::MalformedOperand);
    assert_eq!(err.text, "9223372036854775808");
    assert_eq!(RegisterOrValue::from("A").unwrap_err().kind, ErrorKind::MalformedOperand);
    assert_eq!(RegisterOrValue::from("-").unwrap_err().kind, ErrorKind::MalformedOperand);
    assert_eq!(RegisterOrValue::from("").unwrap_err().kind, ErrorKind::MalformedOperand);
}

#[test]
fn decode_errors_carry_their_text() {
    assert_eq!(
        Instruction::from("add a b c"),
        Err(DecodeError { kind: ErrorKind::MalformedOperand, text: String::from("b c") })
    );
    assert_eq!(
        Instruction::from("set A 1"),
        Err(DecodeError { kind: ErrorKind::MalformedOperand, text: String::from("A") })
    );
    assert_eq!(
        Instruction::from("jmp 1 2"),
        Err(DecodeError { kind: ErrorKind::MalformedInstruction, text: String::from("jmp 1 2") })
    );
    assert_eq!(
        Instruction::from("jgz 1"),
        Err(DecodeError { kind: ErrorKind::MalformedInstruction, text: String::from("jgz 1") })
    );
    assert_eq!(Instruction::from("  rcv b \r"), Ok(Instruction::Rcv('b')));
}

#[test]
fn load_fails_on_first_bad_line() {
    let err = Program::load("set a 1\nbad line\nsnd q1\n").unwrap_err();
    assert_eq!(err.kind, ErrorKind::MalformedInstruction);
    assert_eq!(err.text, "bad line");
    assert_eq!(Program::load("").unwrap().len(), 0);
    assert!(Program::load("snd a\n\nsnd b").is_err());
}

#[test]
fn program_text_round_trip() {
    let text = "set a 1\nadd a 2\nmul a a\nsub a 4\nmod a 5\njgz a -2\nrcv b\nsnd b\n";
    let program = Program::load(text).unwrap();
    assert_eq!(program.render(), text);
    assert_eq!(Program::load(&program.render()).unwrap(), program);
    assert_eq!(program.get(6), Some(&Instruction::Rcv('b')));
    assert_eq!(program.get(8), None);
}
