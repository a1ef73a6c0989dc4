//! Code generator: token stream to one abstract routine.
//!
//! The generator walks the token stream once, lowering each token to
//! instructions of a small label-based instruction set. Nested loops are
//! managed with an explicit LIFO stack of loop frames, each holding three
//! fresh labels (start, body, end); a loop close with no open loop is the
//! error `UnmatchedLoopEnd`. The routine starts by allocating the 30,000
//! byte tape and ends by releasing it and returning status 0. A backend
//! translates the instructions to native code outside this crate.

use vstd::prelude::*;
use crate::lexer::{Token, TokenType};

verus! {

/// The one structural generation error: a loop close with no open loop.
#[derive(Debug, Clone, Copy, PartialEq, Eq, Structural)]
pub enum GenError {
    UnmatchedLoopEnd,
}

/// One abstract instruction of the generated routine.
#[derive(Debug, Clone, Copy, PartialEq, Eq, Structural)]
pub enum Inst {
    /// Allocate the 30,000 byte zero-filled tape; the cell cursor starts at
    /// its first cell.
    Alloc,
    /// Move the cell cursor by the given number of cells.
    AddPtr(i32),
    /// Add the given amount to the byte under the cursor, wrapping at 8 bits.
    AddByte(u8),
    /// Output the byte under the cursor.
    Put,
    /// Read one input value and store its low 8 bits under the cursor.
    Get,
    /// Continue at the given label.
    Jump(usize),
    /// Continue at the first label if the byte under the cursor is nonzero,
    /// at the second otherwise.
    Branch(usize, usize),
    /// Mark a continuation point.
    Label(usize),
    /// Release the tape.
    Free,
    /// Return the given status.
    Ret(i32),
}

/// One open loop: the labels of its entry test, its body and its exit.
#[derive(Debug, Clone, Copy, PartialEq, Eq, Structural)]
pub struct WhileBlock {
    pub while_start: usize,
    pub while_body: usize,
    pub while_end: usize,
}

/// The generator state as the contracts see it: the instructions emitted so
/// far, the stack of open loops, and the next fresh label.
pub ghost struct GenState {
    pub code: Seq<Inst>,
    pub stack: Seq<WhileBlock>,
    pub next_label: int,
}

/// The byte amount an increment request adds to a cell: the requested
/// amount reduced modulo 256.
pub open spec fn byte_amount(amount: i32) -> u8 {
    ((amount as int) % 256) as u8
}

/// What lowering one token kind does to the generator state. `PStart`,
/// `NewLine` and `EOF` are never lowered (the tokenizer emits no tokens of
/// the first two kinds, and `EOF` only signals the end of the walk): they
/// leave the state unchanged.
pub open spec fn gen_step(st: GenState, k: TokenType) -> Result<GenState, GenError> {
    match k {
        TokenType::IncPtr => Ok(GenState { code: st.code.push(Inst::AddPtr(1)), ..st }),
        TokenType::DecPtr => Ok(GenState { code: st.code.push(Inst::AddPtr(-1i32)), ..st }),
        TokenType::IncByte => Ok(GenState { code: st.code.push(Inst::AddByte(1)), ..st }),
        TokenType::DecByte => Ok(GenState { code: st.code.push(Inst::AddByte(255)), ..st }),
        TokenType::WriteByte => Ok(GenState { code: st.code.push(Inst::Put), ..st }),
        TokenType::ReadByte => Ok(GenState { code: st.code.push(Inst::Get), ..st }),
        TokenType::LoopStart => {
            let s = st.next_label as usize;
            let b = (st.next_label + 1) as usize;
            let e = (st.next_label + 2) as usize;
            Ok(
                GenState {
                    code: st.code + seq![
                        Inst::Jump(s),
                        Inst::Label(s),
                        Inst::Branch(b, e),
                        Inst::Label(b),
                    ],
                    stack: st.stack.push(WhileBlock { while_start: s, while_body: b, while_end: e }),
                    next_label: st.next_label + 3,
                },
            )
        },
        TokenType::LoopEnd => {
            if st.stack.len() == 0 {
                Err(GenError::UnmatchedLoopEnd)
            } else {
                let w = st.stack.last();
                Ok(
                    GenState {
                        code: st.code + seq![Inst::Jump(w.while_start), Inst::Label(w.while_end)],
                        stack: st.stack.drop_last(),
                        ..st
                    },
                )
            }
        },
        _ => Ok(st),
    }
}

/// The teardown after the last token: release the tape and return status 0.
pub open spec fn gen_finish(st: GenState) -> GenState {
    GenState { code: st.code + seq![Inst::Free, Inst::Ret(0)], ..st }
}

/// What lowering the token kinds from index `i` on does to the generator
/// state, stopping at the first `EOF` or at the end.
pub open spec fn gen_from(kinds: Seq<TokenType>, i: int, st: GenState) -> Result<
    GenState,
    GenError,
>
    decreases kinds.len() - i,
{
    if i < 0 || i >= kinds.len() || kinds[i] == TokenType::EOF {
        Ok(gen_finish(st))
    } else {
        match gen_step(st, kinds[i]) {
            Ok(st2) => gen_from(kinds, i + 1, st2),
            Err(e) => Err(e),
        }
    }
}

/// The fresh generator state: nothing emitted but the tape allocation.
pub open spec fn gen_init() -> GenState {
    GenState { code: seq![Inst::Alloc], stack: Seq::empty(), next_label: 0 }
}

/// The routine generated for a whole token kind sequence, or the error.
pub open spec fn gen_spec(kinds: Seq<TokenType>) -> Result<GenState, GenError> {
    gen_from(kinds, 0, gen_init())
}

/// The generator owning the emitted instructions, the stack of open loops
/// and the fresh-label counter.
#[derive(Debug)]
pub struct Compiler {
    pub insts: Vec<Inst>,
    pub while_blocks: Vec<WhileBlock>,
    pub next_label: usize,
}

impl Compiler {
    /// The state the contracts speak of.
    pub open spec fn st(self) -> GenState {
        GenState {
            code: self.insts@,
            stack: self.while_blocks@,
            next_label: self.next_label as int,
        }
    }

    /// A generator that has emitted nothing.
    pub fn new() -> (r: Compiler)
        ensures
            r.st() == (GenState {
                code: Seq::<Inst>::empty(),
                stack: Seq::<WhileBlock>::empty(),
                next_label: 0,
            }),
    {
        let r = Compiler { insts: Vec::new(), while_blocks: Vec::new(), next_label: 0 };
        proof {
            assert(r.insts@ =~= Seq::<Inst>::empty());
            assert(r.while_blocks@ =~= Seq::<WhileBlock>::empty());
        }
        r
    }

    /// Emit the tape allocation that every routine starts with.
    pub fn init_pointers(&mut self)
        ensures
            final(self).st() == (GenState {
                code: old(self).st().code.push(Inst::Alloc),
                ..old(self).st()
            }),
    {
        self.insts.push(Inst::Alloc);
    }

    /// Emit a cursor move by `amount` cells.
    pub fn build_add_ptr(&mut self, amount: i32)
        ensures
            final(self).st() == (GenState {
                code: old(self).st().code.push(Inst::AddPtr(amount)),
                ..old(self).st()
            }),
    {
        self.insts.push(Inst::AddPtr(amount));
    }

    /// Emit an addition of `amount` to the byte under the cursor; the byte
    /// wraps at 8 bits, so only `amount` modulo 256 is kept.
    pub fn build_add(&mut self, amount: i32)
        ensures
            final(self).st() == (GenState {
                code: old(self).st().code.push(Inst::AddByte(byte_amount(amount))),
                ..old(self).st()
            }),
    {
        let m: u8 = if amount >= 0 {
            (amount % 256) as u8
        } else {
            let n: i32 = -(amount + 1);
            let r: i32 = 255 - (n % 256);
            proof {
                vstd::arithmetic::div_mod::lemma_fundamental_div_mod(n as int, 256);
                vstd::arithmetic::div_mod::lemma_fundamental_div_mod_converse(
                    amount as int,
                    256,
                    -(n as int / 256) - 1,
                    255 - (n as int % 256),
                );
            }
            r as u8
        };
        self.insts.push(Inst::AddByte(m));
    }

    /// Emit a read of one input value into the byte under the cursor.
    pub fn build_get(&mut self)
        ensures
            final(self).st() == (GenState {
                code: old(self).st().code.push(Inst::Get),
                ..old(self).st()
            }),
    {
        self.insts.push(Inst::Get);
    }

    /// Emit an output of the byte under the cursor.
    pub fn build_put(&mut self)
        ensures
            final(self).st() == (GenState {
                code: old(self).st().code.push(Inst::Put),
                ..old(self).st()
            }),
    {
        self.insts.push(Inst::Put);
    }

    /// Open a loop: push a frame of three fresh labels, jump to its start
    /// label, test the byte under the cursor there, and continue emission in
    /// the body.
    pub fn build_while_start(&mut self)
        requires
            old(self).next_label + 3 <= usize::MAX,
        ensures
            final(self).st() == gen_step(old(self).st(), TokenType::LoopStart)->Ok_0,
    {
        let s = self.next_label;
        let b = self.next_label + 1;
        let e = self.next_label + 2;
        self.next_label = self.next_label + 3;
        self.while_blocks.push(WhileBlock { while_start: s, while_body: b, while_end: e });
        self.insts.push(Inst::Jump(s));
        self.insts.push(Inst::Label(s));
        self.insts.push(Inst::Branch(b, e));
        self.insts.push(Inst::Label(b));
        proof {
            assert(self.insts@ =~= old(self).insts@ + seq![
                Inst::Jump(s),
                Inst::Label(s),
                Inst::Branch(b, e),
                Inst::Label(b),
            ]);
        }
    }

    /// Close the innermost open loop: pop its frame, jump back to its start
    /// label and continue emission at its end label. With no open loop this
    /// is the error `UnmatchedLoopEnd` and the state is unchanged.
    pub fn build_while_end(&mut self) -> (r: Result<(), GenError>)
        ensures
            match gen_step(old(self).st(), TokenType::LoopEnd) {
                Ok(st2) => r == Ok::<(), GenError>(()) && final(self).st() == st2,
                Err(e) => r == Err::<(), GenError>(e) && final(self).st() == old(self).st(),
            },
    {
        match self.while_blocks.pop() {
            Some(w) => {
                self.insts.push(Inst::Jump(w.while_start));
                self.insts.push(Inst::Label(w.while_end));
                proof {
                    assert(self.insts@ =~= old(self).insts@ + seq![
                        Inst::Jump(w.while_start),
                        Inst::Label(w.while_end),
                    ]);
                }
                Ok(())
            },
            None => Err(GenError::UnmatchedLoopEnd),
        }
    }

    /// Emit the release of the tape.
    pub fn build_free(&mut self)
        ensures
            final(self).st() == (GenState {
                code: old(self).st().code.push(Inst::Free),
                ..old(self).st()
            }),
    {
        self.insts.push(Inst::Free);
    }

    /// Emit the return of status 0.
    pub fn return_zero(&mut self)
        ensures
            final(self).st() == (GenState {
                code: old(self).st().code.push(Inst::Ret(0)),
                ..old(self).st()
            }),
    {
        self.insts.push(Inst::Ret(0));
    }

    /// Lower a whole token sequence into one routine: allocate the tape,
    /// lower each token in source order up to the first `EOF`, release the
    /// tape and return status 0. A loop close with no open loop stops the
    /// walk at once with `UnmatchedLoopEnd`. A loop still open at the end
    /// of input is not an error: its frame stays on the stack and its end
    /// label is never placed.
    #[verifier::loop_isolation(false)]
    pub fn compile(tokens: &Vec<Token>) -> (r: Result<Compiler, GenError>)
        requires
            tokens@.len() * 3 + 3 <= usize::MAX,
        ensures
            match gen_spec(tokens@.map_values(|t: Token| t.token_type)) {
                Ok(st) => r is Ok && r->Ok_0.st() == st,
                Err(e) => r == Err::<Compiler, GenError>(e),
            },
    {
        let ghost kinds = tokens@.map_values(|t: Token| t.token_type);
        let mut c = Compiler::new();
        c.init_pointers();
        proof {
            assert(c.st().code =~= gen_init().code);
            assert(c.st() == gen_init());
        }
        let mut i: usize = 0;
        let mut done: bool = false;
        while i < tokens.len() && !done
            invariant
                i <= tokens@.len(),
                c.next_label as int <= 3 * i as int,
                if done {
                    gen_spec(kinds) == Ok::<GenState, GenError>(gen_finish(c.st()))
                } else {
                    gen_from(kinds, i as int, c.st()) == gen_spec(kinds)
                },
            decreases tokens@.len() - i,
        {
            let ghost pre = c.st();
            let t = tokens[i];
            proof {
                assert(kinds[i as int] == t.token_type);
            }
            match t.token_type {
                TokenType::IncPtr => {
                    c.build_add_ptr(1);
                },
                TokenType::DecPtr => {
                    c.build_add_ptr(-1);
                },
                TokenType::IncByte => {
                    c.build_add(1);
                },
                TokenType::DecByte => {
                    c.build_add(-1);
                },
                TokenType::WriteByte => {
                    c.build_put();
                },
                TokenType::ReadByte => {
                    c.build_get();
                },
                TokenType::LoopStart => {
                    c.build_while_start();
                },
                TokenType::LoopEnd => {
                    match c.build_while_end() {
                        Ok(()) => {},
                        Err(e) => {
                            return Err(e);
                        },
                    }
                },
                TokenType::EOF => {
                    done = true;
                },
                TokenType::PStart => {},
                TokenType::NewLine => {},
            }
            proof {
                if t.token_type == TokenType::IncByte {
                    assert(byte_amount(1) == 1u8);
                }
                if t.token_type == TokenType::DecByte {
                    assert((-1int) % 256 == 255) by {
                        vstd::arithmetic::div_mod::lemma_fundamental_div_mod_converse(
                            -1,
                            256,
                            -1,
                            255,
                        );
                    }
                    assert(byte_amount(-1i32) == 255u8);
                }
                if !done {
                    assert(gen_step(pre, kinds[i as int]) == Ok::<GenState, GenError>(c.st()));
                }
            }
            i = i + 1;
        }
        let ghost endst = c.st();
        proof {
            if !done {
                assert(gen_from(kinds, i as int, endst) == Ok::<GenState, GenError>(
                    gen_finish(endst),
                ));
            }
        }
        c.build_free();
        c.return_zero();
        proof {
            assert(c.st().code =~= endst.code + seq![Inst::Free, Inst::Ret(0)]);
            assert(c.st() == gen_finish(endst));
        }
        Ok(c)
    }
}

/// Whether every loop close from index `i` on, up to the first `EOF`, finds
/// an open loop, granted that `depth` loops already stand open.
pub open spec fn closes_matched_from(kinds: Seq<TokenType>, i: int, depth: int) -> bool
    decreases kinds.len() - i,
{
    if i < 0 || i >= kinds.len() || kinds[i] == TokenType::EOF {
        true
    } else if kinds[i] == TokenType::LoopStart {
        closes_matched_from(kinds, i + 1, depth + 1)
    } else if kinds[i] == TokenType::LoopEnd {
        depth > 0 && closes_matched_from(kinds, i + 1, depth - 1)
    } else {
        closes_matched_from(kinds, i + 1, depth)
    }
}

/// The number of loops still open at the first `EOF`, granted `depth` open
/// at index `i`. It speaks only where `closes_matched_from` holds.
pub open spec fn open_loops_from(kinds: Seq<TokenType>, i: int, depth: int) -> int
    decreases kinds.len() - i,
{
    if i < 0 || i >= kinds.len() || kinds[i] == TokenType::EOF {
        depth
    } else if kinds[i] == TokenType::LoopStart {
        open_loops_from(kinds, i + 1, depth + 1)
    } else if kinds[i] == TokenType::LoopEnd {
        open_loops_from(
            kinds,
            i + 1,
            if depth > 0 {
                depth - 1
            } else {
                0
            },
        )
    } else {
        open_loops_from(kinds, i + 1, depth)
    }
}

proof fn lemma_gen_from_stack(kinds: Seq<TokenType>, i: int, st: GenState)
    requires
        0 <= i <= kinds.len(),
    ensures
        gen_from(kinds, i, st) is Ok <==> closes_matched_from(kinds, i, st.stack.len() as int),
        closes_matched_from(kinds, i, st.stack.len() as int) ==> gen_from(
            kinds,
            i,
            st,
        )->Ok_0.stack.len() as int == open_loops_from(kinds, i, st.stack.len() as int),
        !closes_matched_from(kinds, i, st.stack.len() as int) ==> gen_from(kinds, i, st)
            == Err::<GenState, GenError>(GenError::UnmatchedLoopEnd),
    decreases kinds.len() - i,
{
    if i < kinds.len() && kinds[i] != TokenType::EOF {
        match gen_step(st, kinds[i]) {
            Ok(st2) => {
                lemma_gen_from_stack(kinds, i + 1, st2);
            },
            Err(_) => {},
        }
    }
}

/// Law: a token sequence whose loop brackets balance — every close finds an
/// open loop, and no loop stays open at the first `EOF` — generates
/// successfully, and the loop-frame stack is empty when generation ends.
pub proof fn lemma_gen_balanced(kinds: Seq<TokenType>)
    requires
        closes_matched_from(kinds, 0, 0),
        open_loops_from(kinds, 0, 0) == 0,
    ensures
        gen_spec(kinds) is Ok,
        gen_spec(kinds)->Ok_0.stack == Seq::<WhileBlock>::empty(),
{
    lemma_gen_from_stack(kinds, 0, gen_init());
    assert(gen_spec(kinds)->Ok_0.stack =~= Seq::<WhileBlock>::empty());
}

/// Law: a token sequence with a loop close that no open loop matches fails
/// to generate, with `UnmatchedLoopEnd`: the walk stops at the first such
/// close and consumes no further token.
pub proof fn lemma_gen_unmatched(kinds: Seq<TokenType>)
    requires
        !closes_matched_from(kinds, 0, 0),
    ensures
        gen_spec(kinds) == Err::<GenState, GenError>(GenError::UnmatchedLoopEnd),
{
    lemma_gen_from_stack(kinds, 0, gen_init());
}

} // verus!
