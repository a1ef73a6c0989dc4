//! A machine for generated routines.
//!
//! It executes the abstract instruction sequence the code generator emits,
//! so that a routine's behaviour — the bytes it writes, the status it
//! returns — can be stated, proved and tested without a native backend. The
//! tape is the 30,000-byte zero-filled buffer; reads past the given input
//! yield -1, as a single-character input primitive does at its end. Every
//! run is bounded by fuel, since a generated routine need not terminate.
//!
//! One deliberate deviation from native semantics: where the routine in
//! native form moves its cell cursor out of the tape unchecked — undefined
//! behaviour by the language's design — this machine checks the bounds and
//! reports the run as stuck.

use vstd::prelude::*;
use crate::ir::Inst;

verus! {

/// The number of cells of the tape.
pub const TAPE_LEN: usize = 30000;

/// The machine state as the contracts see it.
pub ghost struct MState {
    pub tape: Seq<u8>,
    pub ptr: int,
    pub pc: int,
    pub out: Seq<u8>,
    pub in_pos: int,
}

/// What one step does: continue in a new state, halt with a status, or get
/// stuck (cursor out of range, missing label, or no instruction left).
pub ghost enum StepSpec {
    Next(MState),
    Halt(i32),
    Stuck,
}

/// The byte `a` steps above `b`, wrapping at 8 bits.
pub open spec fn wrap_add_spec(b: u8, a: u8) -> u8 {
    ((b + a) % 256) as u8
}

/// The low 8 bits of an input value, as the read instruction stores them:
/// the value reduced modulo 256.
pub open spec fn low_byte_spec(v: i32) -> u8 {
    ((v as int) % 256) as u8
}

/// The first position of `Label(l)` in the code at or past `i`.
pub open spec fn find_label_from(code: Seq<Inst>, l: usize, i: int) -> Option<int>
    decreases code.len() - i,
{
    if i < 0 || i >= code.len() {
        None
    } else if code[i] == Inst::Label(l) {
        Some(i)
    } else {
        find_label_from(code, l, i + 1)
    }
}

/// The position of label `l` in the code.
pub open spec fn find_label(code: Seq<Inst>, l: usize) -> Option<int> {
    find_label_from(code, l, 0)
}

/// What executing one instruction does to the machine state.
pub open spec fn step_spec(code: Seq<Inst>, input: Seq<i32>, s: MState) -> StepSpec {
    if s.pc < 0 || s.pc >= code.len() {
        StepSpec::Stuck
    } else {
        match code[s.pc] {
            Inst::Alloc => StepSpec::Next(
                MState {
                    tape: Seq::new(TAPE_LEN as nat, |j: int| 0u8),
                    ptr: 0,
                    pc: s.pc + 1,
                    ..s
                },
            ),
            Inst::AddPtr(a) => {
                let p2 = s.ptr + a as int;
                if 0 <= p2 < s.tape.len() {
                    StepSpec::Next(MState { ptr: p2, pc: s.pc + 1, ..s })
                } else {
                    StepSpec::Stuck
                }
            },
            Inst::AddByte(a) => {
                if 0 <= s.ptr < s.tape.len() {
                    StepSpec::Next(
                        MState {
                            tape: s.tape.update(s.ptr, wrap_add_spec(s.tape[s.ptr], a)),
                            pc: s.pc + 1,
                            ..s
                        },
                    )
                } else {
                    StepSpec::Stuck
                }
            },
            Inst::Put => {
                if 0 <= s.ptr < s.tape.len() {
                    StepSpec::Next(MState { out: s.out.push(s.tape[s.ptr]), pc: s.pc + 1, ..s })
                } else {
                    StepSpec::Stuck
                }
            },
            Inst::Get => {
                if 0 <= s.ptr < s.tape.len() {
                    let v: i32 = if 0 <= s.in_pos < input.len() {
                        input[s.in_pos]
                    } else {
                        -1i32
                    };
                    StepSpec::Next(
                        MState {
                            tape: s.tape.update(s.ptr, low_byte_spec(v)),
                            in_pos: s.in_pos + 1,
                            pc: s.pc + 1,
                            ..s
                        },
                    )
                } else {
                    StepSpec::Stuck
                }
            },
            Inst::Jump(l) => match find_label(code, l) {
                Some(t) => StepSpec::Next(MState { pc: t, ..s }),
                None => StepSpec::Stuck,
            },
            Inst::Branch(b, e) => {
                if 0 <= s.ptr < s.tape.len() {
                    let l = if s.tape[s.ptr] != 0 {
                        b
                    } else {
                        e
                    };
                    match find_label(code, l) {
                        Some(t) => StepSpec::Next(MState { pc: t, ..s }),
                        None => StepSpec::Stuck,
                    }
                } else {
                    StepSpec::Stuck
                }
            },
            Inst::Label(_) => StepSpec::Next(MState { pc: s.pc + 1, ..s }),
            Inst::Free => StepSpec::Next(MState { pc: s.pc + 1, ..s }),
            Inst::Ret(status) => StepSpec::Halt(status),
        }
    }
}

/// What running from state `s` with the given fuel yields: the bytes
/// written and the status, or nothing where the run got stuck or the fuel
/// ran out.
pub open spec fn run_from(code: Seq<Inst>, input: Seq<i32>, s: MState, fuel: nat) -> Option<
    (Seq<u8>, i32),
>
    decreases fuel,
{
    if fuel == 0 {
        None
    } else {
        match step_spec(code, input, s) {
            StepSpec::Next(s2) => run_from(code, input, s2, (fuel - 1) as nat),
            StepSpec::Halt(status) => Some((s.out, status)),
            StepSpec::Stuck => None,
        }
    }
}

/// The state a routine starts in: no tape yet, everything at zero.
pub open spec fn run_init() -> MState {
    MState { tape: Seq::empty(), ptr: 0, pc: 0, out: Seq::empty(), in_pos: 0 }
}

/// What a whole run of the code on the given input yields within the fuel.
pub open spec fn run_spec(code: Seq<Inst>, input: Seq<i32>, fuel: nat) -> Option<(Seq<u8>, i32)> {
    run_from(code, input, run_init(), fuel)
}

/// The byte `a` steps above `b`, wrapping at 8 bits.
pub fn wrap_add(b: u8, a: u8) -> (r: u8)
    ensures
        r == wrap_add_spec(b, a),
{
    ((b as u16 + a as u16) % 256) as u8
}

/// The low 8 bits of an input value.
fn low_byte(v: i32) -> (r: u8)
    ensures
        r == low_byte_spec(v),
{
    if v >= 0 {
        (v % 256) as u8
    } else {
        let n: i32 = -(v + 1);
        let r: i32 = 255 - (n % 256);
        proof {
            vstd::arithmetic::div_mod::lemma_fundamental_div_mod(n as int, 256);
            vstd::arithmetic::div_mod::lemma_fundamental_div_mod_converse(
                v as int,
                256,
                -(n as int / 256) - 1,
                255 - (n as int % 256),
            );
        }
        r as u8
    }
}

/// The first position of `Label(l)` in the code.
fn find_label_in(code: &Vec<Inst>, l: usize) -> (r: Option<usize>)
    ensures
        match r {
            Some(ix) => find_label(code@, l) == Some(ix as int),
            None => find_label(code@, l) is None,
        },
{
    let mut j: usize = 0;
    while j < code.len()
        invariant
            j <= code@.len(),
            find_label(code@, l) == find_label_from(code@, l, j as int),
        decreases code@.len() - j,
    {
        match code[j] {
            Inst::Label(x) => {
                if x == l {
                    return Some(j);
                }
            },
            _ => {},
        }
        j = j + 1;
    }
    None
}

/// The machine: the tape, the cell cursor, the instruction cursor, the
/// bytes written so far, and the input values with a read position.
#[derive(Debug)]
pub struct Machine {
    pub tape: Vec<u8>,
    pub ptr: usize,
    pub pc: usize,
    pub out: Vec<u8>,
    pub input: Vec<i32>,
    pub in_pos: usize,
}

/// One step's outcome as the machine reports it.
#[derive(Debug, Clone, Copy, PartialEq, Eq, Structural)]
pub enum StepOutcome {
    Next,
    Halt(i32),
    Stuck,
}

impl Machine {
    /// The state the contracts speak of.
    pub open spec fn st(self) -> MState {
        MState {
            tape: self.tape@,
            ptr: self.ptr as int,
            pc: self.pc as int,
            out: self.out@,
            in_pos: self.in_pos as int,
        }
    }

    /// A machine over the given input, about to run the first instruction.
    pub fn new(input: Vec<i32>) -> (m: Machine)
        ensures
            m.st() == run_init(),
            m.input == input,
    {
        let m = Machine { tape: Vec::new(), ptr: 0, pc: 0, out: Vec::new(), input, in_pos: 0 };
        proof {
            assert(m.tape@ =~= Seq::<u8>::empty());
            assert(m.out@ =~= Seq::<u8>::empty());
        }
        m
    }

    /// Execute the instruction under the instruction cursor.
    pub fn step(&mut self, code: &Vec<Inst>) -> (r: StepOutcome)
        requires
            old(self).in_pos < usize::MAX,
        ensures
            final(self).input == old(self).input,
            match step_spec(code@, old(self).input@, old(self).st()) {
                StepSpec::Next(s2) => r == StepOutcome::Next && final(self).st() == s2,
                StepSpec::Halt(status) => r == StepOutcome::Halt(status) && final(self).st()
                    == old(self).st(),
                StepSpec::Stuck => r == StepOutcome::Stuck && final(self).st() == old(self).st(),
            },
    {
        if self.pc >= code.len() {
            return StepOutcome::Stuck;
        }
        let inst = code[self.pc];
        match inst {
            Inst::Alloc => {
                let mut t: Vec<u8> = Vec::new();
                let mut j: usize = 0;
                while j < TAPE_LEN
                    invariant
                        j <= TAPE_LEN,
                        t@.len() == j,
                        forall|k: int| 0 <= k < j ==> t@[k] == 0u8,
                    decreases TAPE_LEN - j,
                {
                    t.push(0u8);
                    j = j + 1;
                }
                proof {
                    assert(t@ =~= Seq::new(TAPE_LEN as nat, |k: int| 0u8));
                }
                self.tape = t;
                self.ptr = 0;
                self.pc = self.pc + 1;
                StepOutcome::Next
            },
            Inst::AddPtr(a) => {
                if a >= 0 {
                    let d = a as usize;
                    if d < self.tape.len() && self.ptr < self.tape.len() - d {
                        self.ptr = self.ptr + d;
                        self.pc = self.pc + 1;
                        StepOutcome::Next
                    } else {
                        StepOutcome::Stuck
                    }
                } else {
                    let n: usize = ((-(a + 1)) as usize) + 1;
                    if n <= self.ptr && self.ptr - n < self.tape.len() {
                        self.ptr = self.ptr - n;
                        self.pc = self.pc + 1;
                        StepOutcome::Next
                    } else {
                        StepOutcome::Stuck
                    }
                }
            },
            Inst::AddByte(a) => {
                if self.ptr < self.tape.len() {
                    let b = self.tape[self.ptr];
                    let w = wrap_add(b, a);
                    self.tape[self.ptr] = w;
                    self.pc = self.pc + 1;
                    StepOutcome::Next
                } else {
                    StepOutcome::Stuck
                }
            },
            Inst::Put => {
                if self.ptr < self.tape.len() {
                    let b = self.tape[self.ptr];
                    self.out.push(b);
                    self.pc = self.pc + 1;
                    StepOutcome::Next
                } else {
                    StepOutcome::Stuck
                }
            },
            Inst::Get => {
                if self.ptr < self.tape.len() {
                    let v: i32 = if self.in_pos < self.input.len() {
                        self.input[self.in_pos]
                    } else {
                        -1
                    };
                    let w = low_byte(v);
                    self.tape[self.ptr] = w;
                    self.in_pos = self.in_pos + 1;
                    self.pc = self.pc + 1;
                    StepOutcome::Next
                } else {
                    StepOutcome::Stuck
                }
            },
            Inst::Jump(l) => {
                match find_label_in(code, l) {
                    Some(t) => {
                        self.pc = t;
                        StepOutcome::Next
                    },
                    None => StepOutcome::Stuck,
                }
            },
            Inst::Branch(b, e) => {
                if self.ptr < self.tape.len() {
                    let l = if self.tape[self.ptr] != 0 {
                        b
                    } else {
                        e
                    };
                    match find_label_in(code, l) {
                        Some(t) => {
                            self.pc = t;
                            StepOutcome::Next
                        },
                        None => StepOutcome::Stuck,
                    }
                } else {
                    StepOutcome::Stuck
                }
            },
            Inst::Label(_) => {
                self.pc = self.pc + 1;
                StepOutcome::Next
            },
            Inst::Free => {
                self.pc = self.pc + 1;
                StepOutcome::Next
            },
            Inst::Ret(status) => StepOutcome::Halt(status),
        }
    }
}

/// Run the code on the given input for at most `fuel` steps: the bytes the
/// routine writes and the status it returns, or nothing where the run got
/// stuck or did not finish within the fuel.
#[verifier::loop_isolation(false)]
pub fn run(code: &Vec<Inst>, input: Vec<i32>, fuel: usize) -> (r: Option<(Vec<u8>, i32)>)
    ensures
        match r {
            Some(p) => run_spec(code@, input@, fuel as nat) == Some((p.0@, p.1)),
            None => run_spec(code@, input@, fuel as nat) is None,
        },
{
    let ghost input0 = input@;
    let mut m = Machine::new(input);
    let mut i: usize = 0;
    while i < fuel
        invariant
            i <= fuel,
            m.in_pos <= i,
            m.input@ == input0,
            run_from(code@, input0, m.st(), (fuel - i) as nat) == run_spec(
                code@,
                input0,
                fuel as nat,
            ),
        decreases fuel - i,
    {
        let outcome = m.step(code);
        match outcome {
            StepOutcome::Next => {},
            StepOutcome::Halt(status) => {
                let out = m.out;
                return Some((out, status));
            },
            StepOutcome::Stuck => {
                return None;
            },
        }
        i = i + 1;
    }
    None
}

/// Law: byte arithmetic wraps at 8 bits: one step above 255 gives 0, and
/// one step down from 0 — a decrement adds 255 — gives 255.
pub proof fn lemma_byte_wraps()
    ensures
        wrap_add_spec(255u8, 1u8) == 0u8,
        wrap_add_spec(0u8, 255u8) == 255u8,
{
}

/// The byte `n` increments above `b`.
pub open spec fn inc_n(b: u8, n: nat) -> u8
    decreases n,
{
    if n == 0 {
        b
    } else {
        wrap_add_spec(inc_n(b, (n - 1) as nat), 1u8)
    }
}

/// The byte `n` decrements below `b`.
pub open spec fn dec_n(b: u8, n: nat) -> u8
    decreases n,
{
    if n == 0 {
        b
    } else {
        wrap_add_spec(dec_n(b, (n - 1) as nat), 255u8)
    }
}

proof fn lemma_dec_shift(x: u8, k: nat)
    ensures
        dec_n(x, k + 1) == dec_n(wrap_add_spec(x, 255u8), k),
    decreases k,
{
    let y = wrap_add_spec(x, 255u8);
    if k > 0 {
        lemma_dec_shift(x, (k - 1) as nat);
        assert(dec_n(x, k + 1) == wrap_add_spec(dec_n(x, k), 255u8));
        assert(dec_n(y, k) == wrap_add_spec(dec_n(y, (k - 1) as nat), 255u8));
    } else {
        assert(dec_n(x, 1) == wrap_add_spec(dec_n(x, 0), 255u8));
    }
}

/// Law: `n` increments followed by `n` decrements of the same cell restore
/// its byte, for every starting byte and every `n`, wraps included.
pub proof fn lemma_inc_dec_round_trip(b: u8, n: nat)
    ensures
        dec_n(inc_n(b, n), n) == b,
    decreases n,
{
    if n > 0 {
        let m = inc_n(b, (n - 1) as nat);
        lemma_dec_shift(wrap_add_spec(m, 1u8), (n - 1) as nat);
        assert(wrap_add_spec(wrap_add_spec(m, 1u8), 255u8) == m);
        lemma_inc_dec_round_trip(b, (n - 1) as nat);
    }
}

} // verus!
