use vstd::prelude::*;
use crate::push_char;

verus! {

/// A register name: one of the 26 lowercase ASCII letters.
pub open spec fn is_register(c: char) -> bool {
    'a' <= c && c <= 'z'
}

/// The slot of a register in the register file.
pub open spec fn reg_index(c: char) -> int {
    c as int - 'a' as int
}

/// An operand: a register reference or a signed immediate.
#[derive(PartialEq, Eq, Structural, Debug, Clone, Copy)]
pub enum RegisterOrValue {
    Reg(char),
    Val(i64),
}

/// One decoded machine operation.
#[derive(PartialEq, Eq, Structural, Debug, Clone, Copy)]
pub enum Instruction {
    Snd(RegisterOrValue),
    Assign(char, RegisterOrValue),
    Add(char, RegisterOrValue),
    Sub(char, RegisterOrValue),
    Mul(char, RegisterOrValue),
    Mod(char, RegisterOrValue),
    Rcv(char),
    Jgz(RegisterOrValue, RegisterOrValue),
    Jnz(RegisterOrValue, RegisterOrValue),
}

/// What went wrong while decoding program text.
#[derive(PartialEq, Eq, Structural, Debug, Clone, Copy)]
pub enum ErrorKind {
    MalformedOperand,
    MalformedInstruction,
}

/// A decoding failure, with the offending text.
#[derive(PartialEq, Eq, Debug, Clone)]
pub struct DecodeError {
    pub kind: ErrorKind,
    pub text: String,
}

impl RegisterOrValue {
    /// Every register named by the operand is one of `a`..`z`.
    pub open spec fn wf(self) -> bool {
        match self {
            RegisterOrValue::Reg(c) => is_register(c),
            RegisterOrValue::Val(_) => true,
        }
    }
}

impl Instruction {
    /// Every register named by the instruction is one of `a`..`z`.
    pub open spec fn wf(self) -> bool {
        match self {
            Instruction::Snd(x) => x.wf(),
            Instruction::Assign(r, x) => is_register(r) && x.wf(),
            Instruction::Add(r, x) => is_register(r) && x.wf(),
            Instruction::Sub(r, x) => is_register(r) && x.wf(),
            Instruction::Mul(r, x) => is_register(r) && x.wf(),
            Instruction::Mod(r, x) => is_register(r) && x.wf(),
            Instruction::Rcv(r) => is_register(r),
            Instruction::Jgz(x, y) => x.wf() && y.wf(),
            Instruction::Jnz(x, y) => x.wf() && y.wf(),
        }
    }
}

pub open spec fn is_alpha(c: char) -> bool {
    ('a' <= c && c <= 'z') || ('A' <= c && c <= 'Z')
}

pub open spec fn is_digit(c: char) -> bool {
    '0' <= c && c <= '9'
}

/// ASCII whitespace: space, tab, line feed, vertical tab, form feed, carriage return.
pub open spec fn is_space(c: char) -> bool {
    c == ' ' || c == '\t' || c == '\n' || c == '\u{b}' || c == '\u{c}' || c == '\r'
}

pub open spec fn all_digits(s: Seq<char>) -> bool {
    forall|i: int| 0 <= i < s.len() ==> is_digit(#[trigger] s[i])
}

pub open spec fn digit_value(c: char) -> int {
    c as int - '0' as int
}

/// The number written by a string of decimal digits.
pub open spec fn digits_value(s: Seq<char>) -> int
    decreases s.len(),
{
    if s.len() == 0 {
        0
    } else {
        10 * digits_value(s.drop_last()) + digit_value(s.last())
    }
}

/// The integer written by an optional `-` and one or more decimal digits.
pub open spec fn value_of_token(s: Seq<char>) -> Option<int> {
    if s.len() > 1 && s[0] == '-' && all_digits(s.skip(1)) {
        Some(-digits_value(s.skip(1)))
    } else if s.len() > 0 && all_digits(s) {
        Some(digits_value(s))
    } else {
        None
    }
}

/// The operand that a token denotes: a single lowercase letter is a register, a decimal
/// integer in the range of `i64` an immediate. Anything else (an uppercase letter too) is
/// no operand.
pub open spec fn parse_operand(s: Seq<char>) -> Option<RegisterOrValue> {
    if s.len() == 1 && is_register(s[0]) {
        Some(RegisterOrValue::Reg(s[0]))
    } else {
        match value_of_token(s) {
            Some(v) => if i64::MIN <= v <= i64::MAX {
                Some(RegisterOrValue::Val(v as i64))
            } else {
                None
            },
            None => None,
        }
    }
}

pub open spec fn trim_start(s: Seq<char>) -> Seq<char>
    decreases s.len(),
{
    if s.len() > 0 && is_space(s[0]) {
        trim_start(s.skip(1))
    } else {
        s
    }
}

pub open spec fn trim_end(s: Seq<char>) -> Seq<char>
    decreases s.len(),
{
    if s.len() > 0 && is_space(s.last()) {
        trim_end(s.drop_last())
    } else {
        s
    }
}

/// The text without leading and trailing whitespace.
pub open spec fn trim(s: Seq<char>) -> Seq<char> {
    trim_end(trim_start(s))
}

/// The index of the first space at or after `i`, or -1 where there is none.
pub open spec fn first_space_from(s: Seq<char>, i: int) -> int
    decreases s.len() - i,
{
    if i < 0 || i >= s.len() {
        -1
    } else if s[i] == ' ' {
        i
    } else {
        first_space_from(s, i + 1)
    }
}

/// The mnemonics, in the order in which they are tried.
pub open spec fn mnemonic(code: int) -> Seq<char> {
    if code == 0 {
        seq!['s', 'n', 'd']
    } else if code == 1 {
        seq!['s', 'e', 't']
    } else if code == 2 {
        seq!['a', 'd', 'd']
    } else if code == 3 {
        seq!['s', 'u', 'b']
    } else if code == 4 {
        seq!['m', 'u', 'l']
    } else if code == 5 {
        seq!['m', 'o', 'd']
    } else if code == 6 {
        seq!['j', 'g', 'z']
    } else if code == 7 {
        seq!['j', 'n', 'z']
    } else {
        seq!['r', 'c', 'v']
    }
}

/// The code of the mnemonic that `m` spells, or -1.
pub open spec fn mnemonic_code(m: Seq<char>) -> int {
    if m == mnemonic(0) {
        0
    } else if m == mnemonic(1) {
        1
    } else if m == mnemonic(2) {
        2
    } else if m == mnemonic(3) {
        3
    } else if m == mnemonic(4) {
        4
    } else if m == mnemonic(5) {
        5
    } else if m == mnemonic(6) {
        6
    } else if m == mnemonic(7) {
        7
    } else if m == mnemonic(8) {
        8
    } else {
        -1
    }
}

/// The instruction of a register-and-operand mnemonic (codes 1 to 5).
pub open spec fn register_form(code: int, r: char, x: RegisterOrValue) -> Instruction {
    if code == 1 {
        Instruction::Assign(r, x)
    } else if code == 2 {
        Instruction::Add(r, x)
    } else if code == 3 {
        Instruction::Sub(r, x)
    } else if code == 4 {
        Instruction::Mul(r, x)
    } else {
        Instruction::Mod(r, x)
    }
}

/// The instruction of a two-operand mnemonic (codes 6 and 7).
pub open spec fn jump_form(code: int, x: RegisterOrValue, y: RegisterOrValue) -> Instruction {
    if code == 6 {
        Instruction::Jgz(x, y)
    } else {
        Instruction::Jnz(x, y)
    }
}

pub open spec fn operand_or_error(s: Seq<char>) -> Result<RegisterOrValue, (ErrorKind, Seq<char>)> {
    match parse_operand(s) {
        Some(x) => Ok(x),
        None => Err((ErrorKind::MalformedOperand, s)),
    }
}

/// Decoding of the text after the mnemonic and its space, for the mnemonic `code`.
/// `line` is the whole line, which a malformed instruction carries.
pub open spec fn decode_operands(code: int, rest: Seq<char>, line: Seq<char>) -> Result<
    Instruction,
    (ErrorKind, Seq<char>),
> {
    if code == 0 {
        match operand_or_error(rest) {
            Ok(x) => Ok(Instruction::Snd(x)),
            Err(e) => Err(e),
        }
    } else if 1 <= code <= 5 {
        if rest.len() >= 2 && is_alpha(rest[0]) && rest[1] == ' ' {
            if !is_register(rest[0]) {
                Err((ErrorKind::MalformedOperand, rest.take(1)))
            } else {
                match operand_or_error(rest.skip(2)) {
                    Ok(x) => Ok(register_form(code, rest[0], x)),
                    Err(e) => Err(e),
                }
            }
        } else {
            Err((ErrorKind::MalformedInstruction, line))
        }
    } else if code == 6 || code == 7 {
        let k = first_space_from(rest, 0);
        if k < 0 {
            Err((ErrorKind::MalformedInstruction, line))
        } else {
            match operand_or_error(rest.take(k)) {
                Ok(x) => match operand_or_error(rest.skip(k + 1)) {
                    Ok(y) => Ok(jump_form(code, x, y)),
                    Err(e) => Err(e),
                },
                Err(e) => Err(e),
            }
        }
    } else if code == 8 {
        if rest.len() == 1 && is_alpha(rest[0]) {
            if is_register(rest[0]) {
                Ok(Instruction::Rcv(rest[0]))
            } else {
                Err((ErrorKind::MalformedOperand, rest))
            }
        } else {
            Err((ErrorKind::MalformedInstruction, line))
        }
    } else {
        Err((ErrorKind::MalformedInstruction, line))
    }
}

/// The instruction that one line of text denotes, or the failure with its kind and text.
pub open spec fn decode_line(line: Seq<char>) -> Result<Instruction, (ErrorKind, Seq<char>)> {
    let t = trim(line);
    if t.len() >= 4 && t[3] == ' ' {
        decode_operands(mnemonic_code(t.take(3)), t.skip(4), line)
    } else {
        Err((ErrorKind::MalformedInstruction, line))
    }
}

/// The spec-level view of a decoding failure.
pub open spec fn error_view(e: DecodeError) -> (ErrorKind, Seq<char>) {
    (e.kind, e.text@)
}

/// The number of registers in a register file.
pub const NUM_REGISTERS: usize = 26;

/// The value of an operand over the registers `regs`.
pub open spec fn eval_operand(regs: Seq<i64>, x: RegisterOrValue) -> i64 {
    match x {
        RegisterOrValue::Reg(c) => regs[reg_index(c)],
        RegisterOrValue::Val(v) => v,
    }
}

/// `x` reduced into the range of `i64` modulo 2^64: two's-complement wraparound.
pub open spec fn wrap_i64(x: int) -> i64 {
    let m = x % 0x1_0000_0000_0000_0000;
    if m > i64::MAX {
        (m - 0x1_0000_0000_0000_0000) as i64
    } else {
        m as i64
    }
}

pub open spec fn abs(x: int) -> int {
    if x < 0 {
        -x
    } else {
        x
    }
}

/// The remainder of truncating division: its sign follows the dividend.
pub open spec fn trunc_rem(a: int, b: int) -> int {
    let m = abs(a) % abs(b);
    if a < 0 {
        -m
    } else {
        m
    }
}

/// The instruction kinds that the register file carries out itself.
pub open spec fn is_arithmetic(i: Instruction) -> bool {
    match i {
        Instruction::Assign(..) | Instruction::Add(..) | Instruction::Sub(..)
        | Instruction::Mul(..) | Instruction::Mod(..) => true,
        _ => false,
    }
}

/// A `mod` whose divisor evaluates to zero.
pub open spec fn divides_by_zero(regs: Seq<i64>, i: Instruction) -> bool {
    match i {
        Instruction::Mod(_, x) => eval_operand(regs, x) == 0,
        _ => false,
    }
}

/// The registers after carrying out `i`; unchanged for the kinds the register file does not handle.
pub open spec fn apply_spec(regs: Seq<i64>, i: Instruction) -> Seq<i64> {
    match i {
        Instruction::Assign(r, x) => regs.update(reg_index(r), eval_operand(regs, x)),
        Instruction::Add(r, x) => regs.update(
            reg_index(r),
            wrap_i64(regs[reg_index(r)] + eval_operand(regs, x)),
        ),
        Instruction::Sub(r, x) => regs.update(
            reg_index(r),
            wrap_i64(regs[reg_index(r)] - eval_operand(regs, x)),
        ),
        Instruction::Mul(r, x) => regs.update(
            reg_index(r),
            wrap_i64(regs[reg_index(r)] * eval_operand(regs, x)),
        ),
        Instruction::Mod(r, x) => regs.update(
            reg_index(r),
            trunc_rem(regs[reg_index(r)] as int, eval_operand(regs, x) as int) as i64,
        ),
        _ => regs,
    }
}

/// How far the instruction pointer moves after `i`.
pub open spec fn displacement(regs: Seq<i64>, i: Instruction) -> int {
    match i {
        Instruction::Jgz(c, o) => if eval_operand(regs, c) > 0 {
            eval_operand(regs, o) as int
        } else {
            1
        },
        Instruction::Jnz(c, o) => if eval_operand(regs, c) != 0 {
            eval_operand(regs, o) as int
        } else {
            1
        },
        _ => 1,
    }
}

/// The pointer `ip` moved by `d`, or the halt sentinel where that leaves the address range.
pub open spec fn moved_pointer(ip: int, d: int) -> int {
    if 0 <= ip + d <= usize::MAX {
        ip + d
    } else {
        HALT as int
    }
}

/// The halt sentinel: the largest address.
pub const HALT: usize = usize::MAX;

/// Failures while carrying out an instruction.
#[derive(PartialEq, Eq, Structural, Debug, Clone, Copy)]
pub enum ExecError {
    /// A `mod` whose divisor is zero; the registers are left as they were.
    DivisionByZero,
}

/// The register file: one signed 64-bit slot per letter `a`..`z`.
#[derive(Debug, Clone, Copy)]
pub struct RegisterHolder {
    registers: [i64; 26],
}

impl View for RegisterHolder {
    type V = Seq<i64>;

    closed spec fn view(&self) -> Seq<i64> {
        self.registers@
    }
}

impl Default for RegisterHolder {
    fn default() -> (r: RegisterHolder)
        ensures
            r@ == Seq::new(26, |i: int| 0i64),
    {
        RegisterHolder::new()
    }
}

impl RegisterHolder {
    /// A register file with every register at zero.
    pub fn new() -> (r: RegisterHolder)
        ensures
            r@ == Seq::new(26, |i: int| 0i64),
    {
        let r = RegisterHolder { registers: [0i64; 26] };
        assert(r@ =~= Seq::new(26, |i: int| 0i64));
        r
    }

    /// Stores `value` in register `reg`.
    pub fn set_reg(&mut self, reg: char, value: i64)
        requires
            is_register(reg),
        ensures
            old(self)@.len() == NUM_REGISTERS,
            final(self)@ == old(self)@.update(reg_index(reg), value),
    {
        *self.get_reg_mut(reg) = value;
    }

    /// The value of an operand: an immediate itself, or the contents of the named register.
    pub fn evaluate(&self, rv: &RegisterOrValue) -> (r: i64)
        requires
            rv.wf(),
        ensures
            self@.len() == NUM_REGISTERS,
            r == eval_operand(self@, *rv),
    {
        match *rv {
            RegisterOrValue::Reg(c) => *self.get_reg(c),
            RegisterOrValue::Val(v) => v,
        }
    }

    /// Carries out an arithmetic instruction, with two's-complement wraparound for `add`, `sub`
    /// and `mul` and a truncating remainder for `mod`. `Ok(false)` hands any other kind back to
    /// the caller; a `mod` by zero fails and changes nothing.
    pub fn apply_instruction(&mut self, instruction: &Instruction) -> (r: Result<bool, ExecError>)
        requires
            instruction.wf(),
        ensures
            old(self)@.len() == NUM_REGISTERS,
            divides_by_zero(old(self)@, *instruction) ==> r == Err::<bool, ExecError>(
                ExecError::DivisionByZero,
            ) && final(self)@ == old(self)@,
            !divides_by_zero(old(self)@, *instruction) ==> r == Ok::<bool, ExecError>(
                is_arithmetic(*instruction),
            ) && final(self)@ == apply_spec(old(self)@, *instruction),
    {
        match *instruction {
            Instruction::Assign(reg, ref rv) => {
                let v = self.evaluate(rv);
                *self.get_reg_mut(reg) = v;
                Ok(true)
            },
            Instruction::Add(reg, ref rv) => {
                let a = *self.get_reg(reg);
                let b = self.evaluate(rv);
                let v = a.wrapping_add(b);
                assert(v == wrap_i64(a + b));
                *self.get_reg_mut(reg) = v;
                Ok(true)
            },
            Instruction::Sub(reg, ref rv) => {
                let a = *self.get_reg(reg);
                let b = self.evaluate(rv);
                let v = a.wrapping_sub(b);
                assert(v == wrap_i64(a - b));
                *self.get_reg_mut(reg) = v;
                Ok(true)
            },
            Instruction::Mul(reg, ref rv) => {
                let a = *self.get_reg(reg);
                let b = self.evaluate(rv);
                let v = a.wrapping_mul(b);
                *self.get_reg_mut(reg) = v;
                Ok(true)
            },
            Instruction::Mod(reg, ref rv) => {
                let a = *self.get_reg(reg);
                let b = self.evaluate(rv);
                if b == 0 {
                    return Err(ExecError::DivisionByZero);
                }
                let v = match a.checked_rem(b) {
                    Some(m) => m,
                    None => {
                        assert(abs(b as int) == 1);
                        assert(abs(a as int) % 1 == 0);
                        0
                    },
                };
                assert(v == trunc_rem(a as int, b as int)) by {
                    if a == 0 {
                        assert(abs(a as int) % abs(b as int) == 0);
                    } else if a > 0 && b > 0 {
                    } else if a < 0 && b < 0 {
                    } else if a < 0 {
                    } else {
                    }
                }
                *self.get_reg_mut(reg) = v;
                Ok(true)
            },
            _ => Ok(false),
        }
    }

    /// The address of the instruction that follows `instruction` at `current_ip`: one further
    /// for all but a taken jump, which moves by its offset. A move before address zero or past
    /// the largest address gives the halt sentinel `HALT`.
    pub fn get_next_ip(&self, instruction: &Instruction, current_ip: usize) -> (r: usize)
        requires
            instruction.wf(),
        ensures
            r == moved_pointer(current_ip as int, displacement(self@, *instruction)),
    {
        let offset: i64 = match *instruction {
            Instruction::Jgz(ref cond, ref jump_offset) => {
                if self.evaluate(cond) > 0 {
                    self.evaluate(jump_offset)
                } else {
                    1
                }
            },
            Instruction::Jnz(ref cond, ref jump_offset) => {
                if self.evaluate(cond) != 0 {
                    self.evaluate(jump_offset)
                } else {
                    1
                }
            },
            _ => 1,
        };
        if offset >= 0 {
            let room: usize = usize::MAX - current_ip;
            if offset as u64 > room as u64 {
                HALT
            } else {
                current_ip + offset as usize
            }
        } else {
            let magnitude: u64 = (-(offset + 1)) as u64 + 1;
            if magnitude <= current_ip as u64 {
                current_ip - magnitude as usize
            } else {
                HALT
            }
        }
    }

    /// The value of register `reg`.
    pub fn get_reg(&self, reg: char) -> (r: &i64)
        requires
            is_register(reg),
        ensures
            self@.len() == NUM_REGISTERS,
            *r == self@[reg_index(reg)],
    {
        &self.registers[(reg as u32 - 'a' as u32) as usize]
    }

    /// A mutable borrow of register `reg`; what is written through it becomes the register's value.
    pub fn get_reg_mut(&mut self, reg: char) -> (r: &mut i64)
        requires
            is_register(reg),
        ensures
            old(self)@.len() == NUM_REGISTERS,
            *r == old(self)@[reg_index(reg)],
            final(self)@ == old(self)@.update(reg_index(reg), *final(r)),
    {
        &mut self.registers[(reg as u32 - 'a' as u32) as usize]
    }
}


/// The characters of a string slice, in order.
fn chars_of(s: &str) -> (r: Vec<char>)
    ensures
        r@ == s@,
{
    let n = s.unicode_len();
    let mut v: Vec<char> = Vec::new();
    let mut i: usize = 0;
    while i < n
        invariant
            n == s@.len(),
            i <= n,
            v@ == s@.take(i as int),
        decreases n - i,
    {
        v.push(s.get_char(i));
        i += 1;
        assert(v@ =~= s@.take(i as int));
    }
    assert(v@ =~= s@);
    v
}

/// A new string holding `chars[lo..hi]`.
fn string_of(chars: &Vec<char>, lo: usize, hi: usize) -> (r: String)
    requires
        lo <= hi <= chars@.len(),
    ensures
        r@ == chars@.subrange(lo as int, hi as int),
{
    let mut out = String::new();
    let mut i: usize = lo;
    while i < hi
        invariant
            lo <= i <= hi <= chars@.len(),
            out@ == chars@.subrange(lo as int, i as int),
        decreases hi - i,
    {
        push_char(&mut out, chars[i]);
        i += 1;
        assert(out@ =~= chars@.subrange(lo as int, i as int));
    }
    out
}

fn is_register_char(c: char) -> (r: bool)
    ensures
        r == is_register(c),
{
    'a' <= c && c <= 'z'
}

fn is_alpha_char(c: char) -> (r: bool)
    ensures
        r == is_alpha(c),
{
    ('a' <= c && c <= 'z') || ('A' <= c && c <= 'Z')
}

fn is_space_char(c: char) -> (r: bool)
    ensures
        r == is_space(c),
{
    c == ' ' || c == '\t' || c == '\n' || c == '\u{b}' || c == '\u{c}' || c == '\r'
}

proof fn lemma_digits_push(s: Seq<char>, c: char)
    ensures
        digits_value(s.push(c)) == 10 * digits_value(s) + digit_value(c),
{
    assert(s.push(c).drop_last() =~= s);
}

/// The operand that `chars[lo..hi]` denotes.
fn parse_operand_range(chars: &Vec<char>, lo: usize, hi: usize) -> (r: Option<RegisterOrValue>)
    requires
        lo <= hi <= chars@.len(),
    ensures
        r == parse_operand(chars@.subrange(lo as int, hi as int)),
        r matches Some(x) ==> x.wf(),
{
    let ghost s = chars@.subrange(lo as int, hi as int);
    if hi - lo == 1 && is_register_char(chars[lo]) {
        return Some(RegisterOrValue::Reg(chars[lo]));
    }
    let neg = hi > lo && chars[lo] == '-';
    let start: usize = if neg { lo + 1 } else { lo };
    if start >= hi {
        return None;
    }
    let ghost digits = chars@.subrange(start as int, hi as int);
    assert(neg ==> digits =~= s.skip(1));
    assert(!neg ==> digits =~= s);
    let limit: u64 = if neg { 0x8000_0000_0000_0000 } else { 0x7fff_ffff_ffff_ffff };
    let mut acc: u64 = 0;
    let mut over = false;
    let mut i: usize = start;
    while i < hi
        invariant
            lo <= start <= i <= hi <= chars@.len(),
            s == chars@.subrange(lo as int, hi as int),
            digits == chars@.subrange(start as int, hi as int),
            neg == (s.len() > 0 && s[0] == '-'),
            !(s.len() == 1 && is_register(s[0])),
            neg ==> start == lo + 1,
            !neg ==> start == lo,
            limit == (if neg { 0x8000_0000_0000_0000u64 } else { 0x7fff_ffff_ffff_ffffu64 }),
            all_digits(chars@.subrange(start as int, i as int)),
            over ==> digits_value(chars@.subrange(start as int, i as int)) > limit,
            !over ==> acc == digits_value(chars@.subrange(start as int, i as int)),
            acc <= limit,
        decreases hi - i,
    {
        let c = chars[i];
        if !('0' <= c && c <= '9') {
            assert(digits[i - start] == c);
            assert(!all_digits(digits));
            if neg {
                assert(digits =~= s.skip(1));
                assert(!is_digit(s[0]));
            } else {
                assert(digits =~= s);
                assert(s[0] != '-');
            }
            return None;
        }
        let ghost prev = chars@.subrange(start as int, i as int);
        assert(chars@.subrange(start as int, i + 1) =~= prev.push(c));
        proof {
            lemma_digits_push(prev, c);
        }
        let d: u64 = (c as u32 - '0' as u32) as u64;
        if !over {
            if acc > (limit - d) / 10 {
                over = true;
                assert(10 * acc + d > limit) by (nonlinear_arith)
                    requires
                        acc > (limit - d) / 10,
                        d <= 9,
                        d <= limit,
                ;
            } else {
                assert(10 * acc + d <= limit) by (nonlinear_arith)
                    requires
                        acc <= (limit - d) / 10,
                        d <= limit,
                ;
                acc = acc * 10 + d;
            }
        } else {
            assert(digits_value(prev) >= 0) by {
                lemma_digits_nonneg(prev);
            }
        }
        i += 1;
    }
    assert(chars@.subrange(start as int, i as int) =~= digits);
    if over {
        None
    } else if neg {
        if acc == 0x8000_0000_0000_0000 {
            Some(RegisterOrValue::Val(i64::MIN))
        } else {
            Some(RegisterOrValue::Val(-(acc as i64)))
        }
    } else {
        Some(RegisterOrValue::Val(acc as i64))
    }
}

proof fn lemma_digits_nonneg(s: Seq<char>)
    requires
        all_digits(s),
    ensures
        digits_value(s) >= 0,
    decreases s.len(),
{
    if s.len() > 0 {
        assert(all_digits(s.drop_last()));
        lemma_digits_nonneg(s.drop_last());
    }
}

/// A decoding result with its failure seen as kind and text.
pub open spec fn result_view<T>(r: Result<T, DecodeError>) -> Result<T, (ErrorKind, Seq<char>)> {
    match r {
        Ok(x) => Ok(x),
        Err(e) => Err(error_view(e)),
    }
}

/// The bounds of `chars[lo..hi]` without its leading and trailing whitespace.
fn trim_range(chars: &Vec<char>, lo: usize, hi: usize) -> (r: (usize, usize))
    requires
        lo <= hi <= chars@.len(),
    ensures
        lo <= r.0 <= r.1 <= hi,
        chars@.subrange(r.0 as int, r.1 as int) == trim(chars@.subrange(lo as int, hi as int)),
{
    let ghost s = chars@.subrange(lo as int, hi as int);
    let mut i: usize = lo;
    while i < hi && is_space_char(chars[i])
        invariant
            lo <= i <= hi <= chars@.len(),
            trim_start(s) == trim_start(chars@.subrange(i as int, hi as int)),
        decreases hi - i,
    {
        assert(chars@.subrange(i as int, hi as int).skip(1) =~= chars@.subrange(i + 1, hi as int));
        i += 1;
    }
    let mut j: usize = hi;
    while j > i && is_space_char(chars[j - 1])
        invariant
            lo <= i <= j <= hi <= chars@.len(),
            trim_start(s) == chars@.subrange(i as int, hi as int),
            trim(s) == trim_end(chars@.subrange(i as int, j as int)),
        decreases j - i,
    {
        assert(chars@.subrange(i as int, j as int).drop_last() =~= chars@.subrange(i as int, j - 1));
        j -= 1;
    }
    (i, j)
}

/// The code of the mnemonic spelt by `chars[a..a + 3]`, or -1.
fn mnemonic_code_at(chars: &Vec<char>, a: usize) -> (r: i32)
    requires
        a + 3 <= chars@.len(),
    ensures
        r == mnemonic_code(chars@.subrange(a as int, a + 3)),
{
    let ghost m = chars@.subrange(a as int, a + 3);
    let n = chars.len();
    assert(a + 3 <= n);
    let c0 = chars[a];
    let c1 = chars[a + 1];
    let c2 = chars[a + 2];
    assert(m =~= seq![c0, c1, c2]);
    if c0 == 's' && c1 == 'n' && c2 == 'd' {
        0
    } else if c0 == 's' && c1 == 'e' && c2 == 't' {
        1
    } else if c0 == 'a' && c1 == 'd' && c2 == 'd' {
        2
    } else if c0 == 's' && c1 == 'u' && c2 == 'b' {
        3
    } else if c0 == 'm' && c1 == 'u' && c2 == 'l' {
        4
    } else if c0 == 'm' && c1 == 'o' && c2 == 'd' {
        5
    } else if c0 == 'j' && c1 == 'g' && c2 == 'z' {
        6
    } else if c0 == 'j' && c1 == 'n' && c2 == 'z' {
        7
    } else if c0 == 'r' && c1 == 'c' && c2 == 'v' {
        8
    } else {
        -1
    }
}

/// The index of the first space in `chars[lo..hi]`.
fn first_space_in(chars: &Vec<char>, lo: usize, hi: usize) -> (r: Option<usize>)
    requires
        lo <= hi <= chars@.len(),
    ensures
        match r {
            Some(k) => lo <= k < hi && first_space_from(chars@.subrange(lo as int, hi as int), 0)
                == k - lo,
            None => first_space_from(chars@.subrange(lo as int, hi as int), 0) == -1,
        },
{
    let ghost s = chars@.subrange(lo as int, hi as int);
    let mut i: usize = lo;
    while i < hi
        invariant
            lo <= i <= hi <= chars@.len(),
            s == chars@.subrange(lo as int, hi as int),
            first_space_from(s, 0) == first_space_from(s, i - lo),
        decreases hi - i,
    {
        if chars[i] == ' ' {
            return Some(i);
        }
        i += 1;
    }
    None
}

fn operand_or_error_range(chars: &Vec<char>, lo: usize, hi: usize) -> (r: Result<
    RegisterOrValue,
    DecodeError,
>)
    requires
        lo <= hi <= chars@.len(),
    ensures
        result_view(r) == operand_or_error(chars@.subrange(lo as int, hi as int)),
        r matches Ok(x) ==> x.wf(),
{
    match parse_operand_range(chars, lo, hi) {
        Some(x) => Ok(x),
        None => Err(DecodeError { kind: ErrorKind::MalformedOperand, text: string_of(chars, lo, hi) }),
    }
}

fn make_register_form(code: i32, r: char, x: RegisterOrValue) -> (i: Instruction)
    ensures
        i == register_form(code as int, r, x),
{
    if code == 1 {
        Instruction::Assign(r, x)
    } else if code == 2 {
        Instruction::Add(r, x)
    } else if code == 3 {
        Instruction::Sub(r, x)
    } else if code == 4 {
        Instruction::Mul(r, x)
    } else {
        Instruction::Mod(r, x)
    }
}

/// Decodes `chars[lo..hi]`, one line of program text.
fn decode_range(chars: &Vec<char>, lo: usize, hi: usize) -> (r: Result<Instruction, DecodeError>)
    requires
        lo <= hi <= chars@.len(),
    ensures
        result_view(r) == decode_line(chars@.subrange(lo as int, hi as int)),
        r matches Ok(i) ==> i.wf(),
{
    let ghost line = chars@.subrange(lo as int, hi as int);
    let (a, b) = trim_range(chars, lo, hi);
    let ghost t = chars@.subrange(a as int, b as int);
    if b - a < 4 || chars[a + 3] != ' ' {
        return Err(
            DecodeError { kind: ErrorKind::MalformedInstruction, text: string_of(chars, lo, hi) },
        );
    }
    assert(t.take(3) =~= chars@.subrange(a as int, a + 3));
    assert(t.skip(4) =~= chars@.subrange(a + 4, b as int));
    let code = mnemonic_code_at(chars, a);
    let rs = a + 4;
    let ghost rest = chars@.subrange(rs as int, b as int);
    if code == 0 {
        match operand_or_error_range(chars, rs, b) {
            Ok(x) => Ok(Instruction::Snd(x)),
            Err(e) => Err(e),
        }
    } else if 1 <= code && code <= 5 {
        if b - rs >= 2 && is_alpha_char(chars[rs]) && chars[rs + 1] == ' ' {
            let reg = chars[rs];
            assert(rest.skip(2) =~= chars@.subrange(rs + 2, b as int));
            if !is_register_char(reg) {
                assert(rest.take(1) =~= chars@.subrange(rs as int, rs + 1));
                Err(
                    DecodeError {
                        kind: ErrorKind::MalformedOperand,
                        text: string_of(chars, rs, rs + 1),
                    },
                )
            } else {
                match operand_or_error_range(chars, rs + 2, b) {
                    Ok(x) => Ok(make_register_form(code, reg, x)),
                    Err(e) => Err(e),
                }
            }
        } else {
            Err(
                DecodeError {
                    kind: ErrorKind::MalformedInstruction,
                    text: string_of(chars, lo, hi),
                },
            )
        }
    } else if code == 6 || code == 7 {
        match first_space_in(chars, rs, b) {
            None => Err(
                DecodeError {
                    kind: ErrorKind::MalformedInstruction,
                    text: string_of(chars, lo, hi),
                },
            ),
            Some(k) => {
                assert(rest.take(k - rs) =~= chars@.subrange(rs as int, k as int));
                assert(rest.skip(k - rs + 1) =~= chars@.subrange(k + 1, b as int));
                match operand_or_error_range(chars, rs, k) {
                    Ok(x) => match operand_or_error_range(chars, k + 1, b) {
                        Ok(y) => if code == 6 {
                            Ok(Instruction::Jgz(x, y))
                        } else {
                            Ok(Instruction::Jnz(x, y))
                        },
                        Err(e) => Err(e),
                    },
                    Err(e) => Err(e),
                }
            },
        }
    } else if code == 8 {
        if b - rs == 1 && is_alpha_char(chars[rs]) {
            if is_register_char(chars[rs]) {
                Ok(Instruction::Rcv(chars[rs]))
            } else {
                Err(
                    DecodeError {
                        kind: ErrorKind::MalformedOperand,
                        text: string_of(chars, rs, b),
                    },
                )
            }
        } else {
            Err(
                DecodeError {
                    kind: ErrorKind::MalformedInstruction,
                    text: string_of(chars, lo, hi),
                },
            )
        }
    } else {
        Err(
            DecodeError { kind: ErrorKind::MalformedInstruction, text: string_of(chars, lo, hi) },
        )
    }
}

/// The pieces of a text between line feeds: one more than there are line feeds.
pub open spec fn split_newlines(s: Seq<char>) -> Seq<Seq<char>>
    decreases s.len(),
{
    if s.len() == 0 {
        seq![Seq::empty()]
    } else {
        let p = split_newlines(s.drop_last());
        if s.last() == '\n' {
            p.push(Seq::empty())
        } else {
            p.update(p.len() - 1, p.last().push(s.last()))
        }
    }
}

/// The lines of a text: the pieces between line feeds, where an empty last piece (after a
/// final line feed, or of an empty text) is no line.
pub open spec fn lines(s: Seq<char>) -> Seq<Seq<char>> {
    let p = split_newlines(s);
    if p.last().len() == 0 {
        p.drop_last()
    } else {
        p
    }
}

/// Decodes each line in order; the first line that fails decides the failure.
pub open spec fn decode_all(ls: Seq<Seq<char>>) -> Result<Seq<Instruction>, (ErrorKind, Seq<char>)>
    decreases ls.len(),
{
    if ls.len() == 0 {
        Ok(Seq::empty())
    } else {
        match decode_all(ls.drop_last()) {
            Err(e) => Err(e),
            Ok(r) => match decode_line(ls.last()) {
                Ok(i) => Ok(r.push(i)),
                Err(e) => Err(e),
            },
        }
    }
}

/// A load result seen as the decoded instructions or the failure's kind and text.
pub open spec fn load_view(r: Result<Program, DecodeError>) -> Result<
    Seq<Instruction>,
    (ErrorKind, Seq<char>),
> {
    match r {
        Ok(p) => Ok(p.instructions@),
        Err(e) => Err(error_view(e)),
    }
}

/// Decoded instructions so far, or the failure that ended decoding.
pub open spec fn progress_view(instrs: Seq<Instruction>, err: Option<DecodeError>) -> Result<
    Seq<Instruction>,
    (ErrorKind, Seq<char>),
> {
    match err {
        None => Ok(instrs),
        Some(e) => Err(error_view(e)),
    }
}

/// A decoded program: an ordered sequence of instructions, fixed once loaded.
#[derive(PartialEq, Eq, Debug, Clone)]
pub struct Program {
    pub instructions: Vec<Instruction>,
}

impl Program {
    /// Every instruction of the program names only registers `a`..`z`.
    pub open spec fn wf(&self) -> bool {
        forall|k: int| 0 <= k < self.instructions@.len() ==> (#[trigger] self.instructions@[k]).wf()
    }

    /// Decodes each line of `input`; any line that fails fails the whole load.
    pub fn load(input: &str) -> (r: Result<Program, DecodeError>)
        ensures
            decode_all(lines(input@)) == load_view(r),
            r matches Ok(p) ==> p.wf(),
    {
        let chars = chars_of(input);
        let n = chars.len();
        let ghost s = chars@;
        let ghost mut done: Seq<Seq<char>> = Seq::empty();
        let mut instrs: Vec<Instruction> = Vec::new();
        let mut err: Option<DecodeError> = None;
        let mut start: usize = 0;
        let mut i: usize = 0;
        assert(s.take(0) =~= Seq::<char>::empty());
        assert(split_newlines(s.take(0)) =~= done.push(s.subrange(0, 0)));
        while i < n
            invariant
                n == s.len(),
                s == chars@,
                start <= i <= n,
                split_newlines(s.take(i as int)) == done.push(s.subrange(start as int, i as int)),
                decode_all(done) == progress_view(instrs@, err),
                forall|k: int| 0 <= k < instrs@.len() ==> (#[trigger] instrs@[k]).wf(),
            decreases n - i,
        {
            let c = chars[i];
            let ghost cur = s.subrange(start as int, i as int);
            assert(s.take(i + 1).drop_last() =~= s.take(i as int));
            if c == '\n' {
                if err.is_none() {
                    match decode_range(&chars, start, i) {
                        Ok(x) => instrs.push(x),
                        Err(e) => err = Some(e),
                    }
                }
                proof {
                    assert(done.push(cur).drop_last() =~= done);
                    done = done.push(cur);
                }
                start = i + 1;
                assert(s.subrange(start as int, start as int) =~= Seq::<char>::empty());
            } else {
                assert(cur.push(c) =~= s.subrange(start as int, i + 1));
                assert(done.push(cur).update(done.len() as int, cur.push(c)) =~= done.push(
                    cur.push(c),
                ));
            }
            i += 1;
        }
        assert(s.take(n as int) =~= s);
        let ghost last = s.subrange(start as int, n as int);
        assert(split_newlines(s) == done.push(last));
        if start < n {
            if err.is_none() {
                match decode_range(&chars, start, n) {
                    Ok(x) => instrs.push(x),
                    Err(e) => err = Some(e),
                }
            }
            assert(done.push(last).drop_last() =~= done);
            assert(lines(s) == done.push(last));
        } else {
            assert(last.len() == 0);
            assert(done.push(last).drop_last() =~= done);
            assert(lines(s) == done);
        }
        assert(decode_all(lines(s)) == progress_view(instrs@, err));
        match err {
            Some(e) => Err(e),
            None => Ok(Program { instructions: instrs }),
        }
    }

    /// The number of instructions.
    pub fn len(&self) -> (r: usize)
        ensures
            r == self.instructions@.len(),
    {
        self.instructions.len()
    }

    /// The instruction at `ip`, if the program has one there.
    pub fn get(&self, ip: usize) -> (r: Option<&Instruction>)
        ensures
            ip < self.instructions@.len() ==> r == Some(&self.instructions@[ip as int]),
            ip >= self.instructions@.len() ==> r is None,
    {
        if ip < self.instructions.len() {
            Some(&self.instructions[ip])
        } else {
            None
        }
    }
}

impl RegisterOrValue {
    /// Classifies a token: a register, an immediate, or a malformed operand.
    pub fn from(input: &str) -> (r: Result<RegisterOrValue, DecodeError>)
        ensures
            result_view(r) == operand_or_error(input@),
            r matches Ok(x) ==> x.wf(),
    {
        let chars = chars_of(input);
        let n = chars.len();
        assert(chars@.subrange(0, n as int) =~= input@);
        operand_or_error_range(&chars, 0, n)
    }
}

impl Instruction {
    /// Decodes one line of program text.
    pub fn from(input: &str) -> (r: Result<Instruction, DecodeError>)
        ensures
            result_view(r) == decode_line(input@),
            r matches Ok(i) ==> i.wf(),
    {
        let chars = chars_of(input);
        let n = chars.len();
        assert(chars@.subrange(0, n as int) =~= input@);
        decode_range(&chars, 0, n)
    }
}

/// The character of a decimal digit `d` (0 to 9).
pub open spec fn digit_char(d: int) -> char {
    ((d + 48) as u8) as char
}

/// The decimal digits of `n`, most significant first, without leading zeros.
pub open spec fn nat_digits(n: nat) -> Seq<char>
    decreases n,
{
    if n < 10 {
        seq![digit_char(n as int)]
    } else {
        nat_digits(n / 10).push(digit_char((n % 10) as int))
    }
}

/// The decimal text of an integer, with a leading `-` when it is negative.
pub open spec fn int_text(v: int) -> Seq<char> {
    if v < 0 {
        seq!['-'] + nat_digits((-v) as nat)
    } else {
        nat_digits(v as nat)
    }
}

/// The canonical text of an operand.
pub open spec fn operand_text(x: RegisterOrValue) -> Seq<char> {
    match x {
        RegisterOrValue::Reg(c) => seq![c],
        RegisterOrValue::Val(v) => int_text(v as int),
    }
}

/// The canonical text of an instruction: its mnemonic, then its operands, each after one space.
pub open spec fn render_instruction(i: Instruction) -> Seq<char> {
    match i {
        Instruction::Snd(x) => mnemonic(0) + seq![' '] + operand_text(x),
        Instruction::Assign(r, x) => mnemonic(1) + seq![' ', r, ' '] + operand_text(x),
        Instruction::Add(r, x) => mnemonic(2) + seq![' ', r, ' '] + operand_text(x),
        Instruction::Sub(r, x) => mnemonic(3) + seq![' ', r, ' '] + operand_text(x),
        Instruction::Mul(r, x) => mnemonic(4) + seq![' ', r, ' '] + operand_text(x),
        Instruction::Mod(r, x) => mnemonic(5) + seq![' ', r, ' '] + operand_text(x),
        Instruction::Jgz(x, y) => mnemonic(6) + seq![' '] + operand_text(x) + seq![' ']
            + operand_text(y),
        Instruction::Jnz(x, y) => mnemonic(7) + seq![' '] + operand_text(x) + seq![' ']
            + operand_text(y),
        Instruction::Rcv(r) => mnemonic(8) + seq![' ', r],
    }
}

/// The text of a program: each instruction's text followed by a line feed.
pub open spec fn render_program(instrs: Seq<Instruction>) -> Seq<char>
    decreases instrs.len(),
{
    if instrs.len() == 0 {
        Seq::empty()
    } else {
        render_program(instrs.drop_last()) + render_instruction(instrs.last()) + seq!['\n']
    }
}

fn push_digits(out: &mut String, n: u64)
    ensures
        final(out)@ == old(out)@ + nat_digits(n as nat),
    decreases n,
{
    if n >= 10 {
        push_digits(out, n / 10);
    }
    let d: u8 = (n % 10) as u8;
    push_char(out, (d + 48) as char);
    assert(final(out)@ =~= old(out)@ + nat_digits(n as nat));
}

fn push_operand(out: &mut String, x: &RegisterOrValue)
    ensures
        final(out)@ == old(out)@ + operand_text(*x),
{
    match *x {
        RegisterOrValue::Reg(c) => {
            push_char(out, c);
            assert(final(out)@ =~= old(out)@ + operand_text(*x));
        },
        RegisterOrValue::Val(v) => {
            if v < 0 {
                push_char(out, '-');
                let magnitude: u64 = (-(v + 1)) as u64 + 1;
                push_digits(out, magnitude);
            } else {
                push_digits(out, v as u64);
            }
            assert(final(out)@ =~= old(out)@ + operand_text(*x));
        },
    }
}

fn push_three(out: &mut String, a: char, b: char, c: char)
    ensures
        final(out)@ == old(out)@ + seq![a, b, c],
{
    push_char(out, a);
    push_char(out, b);
    push_char(out, c);
    assert(final(out)@ =~= old(out)@ + seq![a, b, c]);
}

fn push_instruction(out: &mut String, i: &Instruction)
    ensures
        final(out)@ == old(out)@ + render_instruction(*i),
{
    let ghost start = out@;
    match *i {
        Instruction::Snd(ref x) => {
            push_three(out, 's', 'n', 'd');
            push_char(out, ' ');
            push_operand(out, x);
        },
        Instruction::Assign(r, ref x) => {
            push_three(out, 's', 'e', 't');
            push_three(out, ' ', r, ' ');
            push_operand(out, x);
        },
        Instruction::Add(r, ref x) => {
            push_three(out, 'a', 'd', 'd');
            push_three(out, ' ', r, ' ');
            push_operand(out, x);
        },
        Instruction::Sub(r, ref x) => {
            push_three(out, 's', 'u', 'b');
            push_three(out, ' ', r, ' ');
            push_operand(out, x);
        },
        Instruction::Mul(r, ref x) => {
            push_three(out, 'm', 'u', 'l');
            push_three(out, ' ', r, ' ');
            push_operand(out, x);
        },
        Instruction::Mod(r, ref x) => {
            push_three(out, 'm', 'o', 'd');
            push_three(out, ' ', r, ' ');
            push_operand(out, x);
        },
        Instruction::Rcv(r) => {
            push_three(out, 'r', 'c', 'v');
            push_char(out, ' ');
            push_char(out, r);
        },
        Instruction::Jgz(ref x, ref y) => {
            push_three(out, 'j', 'g', 'z');
            push_char(out, ' ');
            push_operand(out, x);
            push_char(out, ' ');
            push_operand(out, y);
        },
        Instruction::Jnz(ref x, ref y) => {
            push_three(out, 'j', 'n', 'z');
            push_char(out, ' ');
            push_operand(out, x);
            push_char(out, ' ');
            push_operand(out, y);
        },
    }
    assert(final(out)@ =~= start + render_instruction(*i));
}

impl Instruction {
    /// The canonical text of the instruction, which decodes back to it.
    pub fn render(&self) -> (r: String)
        ensures
            r@ == render_instruction(*self),
    {
        let mut out = String::new();
        push_instruction(&mut out, self);
        assert(out@ =~= render_instruction(*self));
        out
    }
}

impl RegisterOrValue {
    /// The canonical text of the operand.
    pub fn render(&self) -> (r: String)
        ensures
            r@ == operand_text(*self),
    {
        let mut out = String::new();
        push_operand(&mut out, self);
        assert(out@ =~= operand_text(*self));
        out
    }
}

impl Program {
    /// The text of the program, one instruction per line.
    pub fn render(&self) -> (r: String)
        ensures
            r@ == render_program(self.instructions@),
    {
        let mut out = String::new();
        let mut k: usize = 0;
        while k < self.instructions.len()
            invariant
                k <= self.instructions@.len(),
                out@ == render_program(self.instructions@.take(k as int)),
            decreases self.instructions@.len() - k,
        {
            push_instruction(&mut out, &self.instructions[k]);
            push_char(&mut out, '\n');
            assert(self.instructions@.take(k + 1).drop_last() =~= self.instructions@.take(k as int));
            k += 1;
        }
        assert(self.instructions@.take(k as int) =~= self.instructions@);
        out
    }
}

pub open spec fn no_newline(s: Seq<char>) -> bool {
    forall|i: int| 0 <= i < s.len() ==> #[trigger] s[i] != '\n'
}

pub open spec fn no_space(s: Seq<char>) -> bool {
    forall|i: int| 0 <= i < s.len() ==> #[trigger] s[i] != ' '
}

proof fn lemma_nat_digits(n: nat)
    ensures
        nat_digits(n).len() >= 1,
        all_digits(nat_digits(n)),
        digits_value(nat_digits(n)) == n,
    decreases n,
{
    if n < 10 {
        let c = digit_char(n as int);
        assert(c as int == n + 48);
        assert(nat_digits(n).drop_last() =~= Seq::<char>::empty());
        assert(digits_value(Seq::<char>::empty()) == 0);
    } else {
        lemma_nat_digits(n / 10);
        let c = digit_char((n % 10) as int);
        assert(c as int == n % 10 + 48);
        lemma_digits_push(nat_digits(n / 10), c);
        assert(nat_digits(n) == nat_digits(n / 10).push(c));
        assert(10 * (n / 10) + n % 10 == n);
    }
}

proof fn lemma_operand_round_trip(x: RegisterOrValue)
    requires
        x.wf(),
    ensures
        parse_operand(operand_text(x)) == Some(x),
        operand_text(x).len() >= 1,
        no_space(operand_text(x)),
        no_newline(operand_text(x)),
        !is_space(operand_text(x).last()),
{
    match x {
        RegisterOrValue::Reg(c) => {},
        RegisterOrValue::Val(v) => {
            let t = operand_text(x);
            if v < 0 {
                let d = nat_digits((-v) as nat);
                lemma_nat_digits((-v) as nat);
                assert(t.skip(1) =~= d);
                assert(t.last() == d.last());
                assert(is_digit(d[d.len() - 1]));
                assert forall|i: int| 0 <= i < t.len() implies #[trigger] t[i] != ' ' && t[i] != '\n' by {
                    if i > 0 {
                        assert(t[i] == d[i - 1]);
                        assert(is_digit(d[i - 1]));
                    }
                }
            } else {
                lemma_nat_digits(v as nat);
                assert(is_digit(t[0]));
                assert(is_digit(t[t.len() - 1]));
                assert forall|i: int| 0 <= i < t.len() implies #[trigger] t[i] != ' ' && t[i] != '\n' by {
                    assert(is_digit(t[i]));
                }
            }
        },
    }
}

proof fn lemma_trim_unchanged(s: Seq<char>)
    requires
        s.len() > 0,
        !is_space(s[0]),
        !is_space(s.last()),
    ensures
        trim(s) == s,
{
}

proof fn lemma_first_space(a: Seq<char>, b: Seq<char>, i: int)
    requires
        no_space(a),
        0 <= i <= a.len(),
    ensures
        first_space_from(a + seq![' '] + b, i) == a.len(),
    decreases a.len() - i,
{
    let s = a + seq![' '] + b;
    if i < a.len() {
        assert(s[i] == a[i]);
        lemma_first_space(a, b, i + 1);
    } else {
        assert(s[i] == ' ');
    }
}

proof fn lemma_round_trip_register_form(code: int, r: char, x: RegisterOrValue)
    requires
        1 <= code <= 5,
        is_register(r),
        x.wf(),
    ensures
        decode_line(mnemonic(code) + seq![' ', r, ' '] + operand_text(x)) == Ok::<
            Instruction,
            (ErrorKind, Seq<char>),
        >(register_form(code, r, x)),
{
    let t = mnemonic(code) + seq![' ', r, ' '] + operand_text(x);
    lemma_operand_round_trip(x);
    assert(t.last() == operand_text(x).last());
    lemma_trim_unchanged(t);
    assert(t.take(3) =~= mnemonic(code));
    let rest = t.skip(4);
    assert(rest.skip(2) =~= operand_text(x));
}

proof fn lemma_round_trip_jump_form(code: int, x: RegisterOrValue, y: RegisterOrValue)
    requires
        code == 6 || code == 7,
        x.wf(),
        y.wf(),
    ensures
        decode_line(mnemonic(code) + seq![' '] + operand_text(x) + seq![' '] + operand_text(y))
            == Ok::<Instruction, (ErrorKind, Seq<char>)>(jump_form(code, x, y)),
{
    let t = mnemonic(code) + seq![' '] + operand_text(x) + seq![' '] + operand_text(y);
    lemma_operand_round_trip(x);
    lemma_operand_round_trip(y);
    assert(t.last() == operand_text(y).last());
    lemma_trim_unchanged(t);
    assert(t.take(3) =~= mnemonic(code));
    let rest = t.skip(4);
    assert(rest =~= operand_text(x) + seq![' '] + operand_text(y));
    lemma_first_space(operand_text(x), operand_text(y), 0);
    let k = operand_text(x).len() as int;
    assert(rest.take(k) =~= operand_text(x));
    assert(rest.skip(k + 1) =~= operand_text(y));
}

proof fn lemma_round_trip_send(x: RegisterOrValue)
    requires
        x.wf(),
    ensures
        decode_line(mnemonic(0) + seq![' '] + operand_text(x)) == Ok::<
            Instruction,
            (ErrorKind, Seq<char>),
        >(Instruction::Snd(x)),
{
    let t = mnemonic(0) + seq![' '] + operand_text(x);
    lemma_operand_round_trip(x);
    assert(t.last() == operand_text(x).last());
    lemma_trim_unchanged(t);
    assert(t.take(3) =~= mnemonic(0));
    assert(t.skip(4) =~= operand_text(x));
}

proof fn lemma_round_trip_receive(r: char)
    requires
        is_register(r),
    ensures
        decode_line(mnemonic(8) + seq![' ', r]) == Ok::<Instruction, (ErrorKind, Seq<char>)>(
            Instruction::Rcv(r),
        ),
{
    let t = mnemonic(8) + seq![' ', r];
    lemma_trim_unchanged(t);
    assert(t.take(3) =~= mnemonic(8));
    assert(t.skip(4) =~= seq![r]);
}

/// Decoding the canonical text of any instruction whose registers are `a`..`z` gives back
/// that instruction: rendering then decoding is the identity.
#[verifier::rlimit(40)]
pub proof fn lemma_round_trip(i: Instruction)
    requires
        i.wf(),
    ensures
        decode_line(render_instruction(i)) == Ok::<Instruction, (ErrorKind, Seq<char>)>(i),
{
    match i {
        Instruction::Snd(x) => {
            assert(render_instruction(i) == mnemonic(0) + seq![' '] + operand_text(x));
            lemma_round_trip_send(x);
        },
        Instruction::Assign(r, x) => {
            assert(render_instruction(i) == mnemonic(1) + seq![' ', r, ' '] + operand_text(x));
            lemma_round_trip_register_form(1, r, x);
        },
        Instruction::Add(r, x) => {
            assert(render_instruction(i) == mnemonic(2) + seq![' ', r, ' '] + operand_text(x));
            lemma_round_trip_register_form(2, r, x);
        },
        Instruction::Sub(r, x) => {
            assert(render_instruction(i) == mnemonic(3) + seq![' ', r, ' '] + operand_text(x));
            lemma_round_trip_register_form(3, r, x);
        },
        Instruction::Mul(r, x) => {
            assert(render_instruction(i) == mnemonic(4) + seq![' ', r, ' '] + operand_text(x));
            lemma_round_trip_register_form(4, r, x);
        },
        Instruction::Mod(r, x) => {
            assert(render_instruction(i) == mnemonic(5) + seq![' ', r, ' '] + operand_text(x));
            lemma_round_trip_register_form(5, r, x);
        },
        Instruction::Jgz(x, y) => {
            assert(render_instruction(i) == mnemonic(6) + seq![' '] + operand_text(x) + seq![' ']
                + operand_text(y));
            lemma_round_trip_jump_form(6, x, y);
        },
        Instruction::Jnz(x, y) => {
            assert(render_instruction(i) == mnemonic(7) + seq![' '] + operand_text(x) + seq![' ']
                + operand_text(y));
            lemma_round_trip_jump_form(7, x, y);
        },
        Instruction::Rcv(r) => {
            assert(render_instruction(i) == mnemonic(8) + seq![' ', r]);
            lemma_round_trip_receive(r);
        },
    }
}

/// After storing `v` in register `r`, reading `r` gives `v` and every other register keeps
/// its value.
pub proof fn lemma_register_round_trip(regs: Seq<i64>, r: char, v: i64)
    requires
        regs.len() == NUM_REGISTERS,
        is_register(r),
    ensures
        regs.update(reg_index(r), v)[reg_index(r)] == v,
        forall|c: char|
            is_register(c) && c != r ==> regs.update(reg_index(r), v)[reg_index(c)] == regs[reg_index(
                c,
            )],
{
}

/// Addition, subtraction and multiplication never fail: each stores its exact result wrapped
/// into the range of `i64`, which is the exact result whenever that fits, and otherwise
/// differs from it by a multiple of 2^64.
pub proof fn lemma_arithmetic_wraps(regs: Seq<i64>, i: Instruction)
    requires
        regs.len() == NUM_REGISTERS,
        i.wf(),
        i is Add || i is Sub || i is Mul,
    ensures
        !divides_by_zero(regs, i),
        is_arithmetic(i),
        ({
            let (r, exact) = match i {
                Instruction::Add(r, x) => (r, regs[reg_index(r)] + eval_operand(regs, x)),
                Instruction::Sub(r, x) => (r, regs[reg_index(r)] - eval_operand(regs, x)),
                Instruction::Mul(r, x) => (r, regs[reg_index(r)] * eval_operand(regs, x)),
                _ => (' ', 0),
            };
            let stored = apply_spec(regs, i)[reg_index(r)] as int;
            &&& (i64::MIN <= exact <= i64::MAX ==> stored == exact)
            &&& (stored - exact) % 0x1_0000_0000_0000_0000 == 0
        }),
{
}

/// The remainder of `mod` takes the sign of the dividend, is smaller in magnitude than the
/// divisor, and differs from the dividend by a multiple of the divisor.
pub proof fn lemma_truncating_rem(a: i64, b: i64)
    requires
        b != 0,
    ensures
        a < 0 ==> trunc_rem(a as int, b as int) <= 0,
        a >= 0 ==> trunc_rem(a as int, b as int) >= 0,
        abs(trunc_rem(a as int, b as int)) < abs(b as int),
        (a - trunc_rem(a as int, b as int)) % abs(b as int) == 0,
{
    let n = abs(b as int);
    let m = abs(a as int) % n;
    let q = abs(a as int) / n;
    vstd::arithmetic::div_mod::lemma_fundamental_div_mod(abs(a as int), n);
    if a < 0 {
        assert(a - (-m) == (-q) * n) by (nonlinear_arith)
            requires
                abs(a as int) == n * q + m,
                a < 0,
                abs(a as int) == -a,
        ;
        vstd::arithmetic::div_mod::lemma_mod_multiples_basic(-q, n);
    } else {
        assert(a - m == q * n) by (nonlinear_arith)
            requires
                abs(a as int) == n * q + m,
                abs(a as int) == a,
        ;
        vstd::arithmetic::div_mod::lemma_mod_multiples_basic(q, n);
    }
}

proof fn lemma_split_nonempty(s: Seq<char>)
    ensures
        split_newlines(s).len() >= 1,
    decreases s.len(),
{
    if s.len() > 0 {
        lemma_split_nonempty(s.drop_last());
    }
}

proof fn lemma_split_append(s: Seq<char>, t: Seq<char>)
    requires
        no_newline(t),
    ensures
        split_newlines(s + t) == split_newlines(s).update(
            split_newlines(s).len() - 1,
            split_newlines(s).last() + t,
        ),
    decreases t.len(),
{
    lemma_split_nonempty(s);
    let p = split_newlines(s);
    if t.len() == 0 {
        assert(s + t =~= s);
        assert(p.last() + t =~= p.last());
        assert(p.update(p.len() - 1, p.last()) =~= p);
    } else {
        let u = t.drop_last();
        assert(no_newline(u));
        lemma_split_append(s, u);
        assert((s + t).drop_last() =~= s + u);
        assert((s + t).last() == t.last());
        assert(t.last() != '\n');
        let q = p.update(p.len() - 1, p.last() + u);
        assert(q.last().push(t.last()) =~= p.last() + t);
        assert(q.update(q.len() - 1, q.last().push(t.last())) =~= p.update(p.len() - 1, p.last() + t));
    }
}

proof fn lemma_render_has_no_newline(i: Instruction)
    requires
        i.wf(),
    ensures
        no_newline(render_instruction(i)),
{
    let t = render_instruction(i);
    match i {
        Instruction::Snd(x) => lemma_operand_round_trip(x),
        Instruction::Assign(_, x) | Instruction::Add(_, x) | Instruction::Sub(_, x)
        | Instruction::Mul(_, x) | Instruction::Mod(_, x) => lemma_operand_round_trip(x),
        Instruction::Jgz(x, y) | Instruction::Jnz(x, y) => {
            lemma_operand_round_trip(x);
            lemma_operand_round_trip(y);
        },
        Instruction::Rcv(_) => {},
    }
    assert forall|k: int| 0 <= k < t.len() implies #[trigger] t[k] != '\n' by {
        match i {
            Instruction::Snd(x) => if k >= 4 {
                assert(t[k] == operand_text(x)[k - 4]);
            },
            Instruction::Assign(_, x) | Instruction::Add(_, x) | Instruction::Sub(_, x)
            | Instruction::Mul(_, x) | Instruction::Mod(_, x) => if k >= 6 {
                assert(t[k] == operand_text(x)[k - 6]);
            },
            Instruction::Jgz(x, y) | Instruction::Jnz(x, y) => {
                let a = operand_text(x).len() as int;
                if 4 <= k < 4 + a {
                    assert(t[k] == operand_text(x)[k - 4]);
                } else if k > 4 + a {
                    assert(t[k] == operand_text(y)[k - 5 - a]);
                }
            },
            Instruction::Rcv(_) => {},
        }
    }
}

proof fn lemma_split_rendered(p: Seq<Instruction>)
    requires
        forall|k: int| 0 <= k < p.len() ==> (#[trigger] p[k]).wf(),
    ensures
        split_newlines(render_program(p)) == p.map_values(|i: Instruction| render_instruction(i)).push(
            Seq::empty(),
        ),
    decreases p.len(),
{
    if p.len() == 0 {
        assert(render_program(p) =~= Seq::<char>::empty());
        assert(p.map_values(|i: Instruction| render_instruction(i)).push(Seq::empty()) =~= seq![
            Seq::<char>::empty(),
        ]);
    } else {
        let q = p.drop_last();
        lemma_split_rendered(q);
        let head = render_program(q);
        let line = render_instruction(p.last());
        lemma_render_has_no_newline(p.last());
        lemma_split_append(head, line);
        assert((head + line + seq!['\n']).drop_last() =~= head + line);
        let mq = q.map_values(|i: Instruction| render_instruction(i));
        assert(Seq::<char>::empty() + line =~= line);
        assert(mq.push(Seq::empty()).update(mq.len() as int, line) =~= mq.push(line));
        assert(mq.push(line) =~= p.map_values(|i: Instruction| render_instruction(i)));
    }
}

proof fn lemma_decode_rendered(p: Seq<Instruction>)
    requires
        forall|k: int| 0 <= k < p.len() ==> (#[trigger] p[k]).wf(),
    ensures
        decode_all(p.map_values(|i: Instruction| render_instruction(i))) == Ok::<
            Seq<Instruction>,
            (ErrorKind, Seq<char>),
        >(p),
    decreases p.len(),
{
    let ls = p.map_values(|i: Instruction| render_instruction(i));
    if p.len() == 0 {
        assert(ls.len() == 0);
        assert(p =~= Seq::<Instruction>::empty());
    } else {
        let q = p.drop_last();
        lemma_decode_rendered(q);
        assert(ls.drop_last() =~= q.map_values(|i: Instruction| render_instruction(i)));
        lemma_round_trip(p.last());
        assert(q.push(p.last()) =~= p);
    }
}

/// Loading the text of a program whose registers are all `a`..`z` gives back the same
/// instructions: a program survives being written out and read back.
pub proof fn lemma_program_round_trip(p: Seq<Instruction>)
    requires
        forall|k: int| 0 <= k < p.len() ==> (#[trigger] p[k]).wf(),
    ensures
        decode_all(lines(render_program(p))) == Ok::<Seq<Instruction>, (ErrorKind, Seq<char>)>(p),
{
    lemma_split_rendered(p);
    let ls = p.map_values(|i: Instruction| render_instruction(i));
    assert(ls.push(Seq::empty()).drop_last() =~= ls);
    lemma_decode_rendered(p);
}

} // verus!
