//! Tokenizer: source text to a positioned token stream.
//!
//! Characters are scanned left to right. The eight instruction characters
//! each become one token carrying the 1-based line and 0-based column at
//! which they appear; a newline advances the line counter and resets the
//! column but emits no token. Any other character stops the scan with an
//! `Error::InvalidCharacter`. A successful scan ends with exactly one
//! `EndOfInput` token placed one line past the last line seen.

use vstd::prelude::*;

verus! {

/// The one lexical error: an unrecognized character, with its 0-based
/// column and 1-based line.
#[derive(Debug, Clone, Copy, PartialEq, Eq, Structural)]
pub enum Error {
    InvalidCharacter(char, i32, i32),
}

#[derive(Debug, Clone, Copy, PartialEq, Eq, Structural)]
pub enum TokenType {
    /// Initial state marker; never emitted by the tokenizer.
    PStart,
    /// End of input; emitted exactly once, last.
    EOF,
    /// Newline marker; tracked for bookkeeping, never emitted as a token.
    NewLine,
    /// `>` move the data pointer one cell right.
    IncPtr,
    /// `<` move the data pointer one cell left.
    DecPtr,
    /// `+` increment the byte at the data pointer.
    IncByte,
    /// `-` decrement the byte at the data pointer.
    DecByte,
    /// `.` output the byte at the data pointer.
    WriteByte,
    /// `,` read one byte of input into the byte at the data pointer.
    ReadByte,
    /// `[` jump past the matching `]` if the byte at the data pointer is zero.
    LoopStart,
    /// `]` jump back to the matching `[` if the byte at the data pointer is nonzero.
    LoopEnd,
}

/// One token: its kind, its 1-based line and its 0-based column.
#[derive(Debug, Clone, Copy, PartialEq, Eq, Structural)]
pub struct Token {
    pub token_type: TokenType,
    pub line: i32,
    pub pos: i32,
}

/// The token kind of an instruction character, `None` for every other
/// character (the newline included).
pub open spec fn token_kind(c: char) -> Option<TokenType> {
    if c == '>' {
        Some(TokenType::IncPtr)
    } else if c == '<' {
        Some(TokenType::DecPtr)
    } else if c == '+' {
        Some(TokenType::IncByte)
    } else if c == '-' {
        Some(TokenType::DecByte)
    } else if c == '.' {
        Some(TokenType::WriteByte)
    } else if c == ',' {
        Some(TokenType::ReadByte)
    } else if c == '[' {
        Some(TokenType::LoopStart)
    } else if c == ']' {
        Some(TokenType::LoopEnd)
    } else {
        None
    }
}

/// The kind a single character scans to: an instruction kind, `NewLine`
/// for a newline, `None` for a character the language does not know.
pub open spec fn classify(c: char) -> Option<TokenType> {
    if c == '\n' {
        Some(TokenType::NewLine)
    } else {
        token_kind(c)
    }
}

/// What scanning the rest of the input from index `i` produces, with the
/// current 1-based `line` and 0-based `pos`: the remaining tokens followed
/// by the final `EOF` token, or the first error.
pub open spec fn lex_rec(input: Seq<char>, i: int, line: int, pos: int) -> Result<
    Seq<Token>,
    Error,
>
    decreases input.len() - i,
{
    if i < 0 || i >= input.len() {
        Ok(seq![Token { token_type: TokenType::EOF, line: (line + 1) as i32, pos: 1 }])
    } else if input[i] == '\n' {
        lex_rec(input, i + 1, line + 1, 0)
    } else {
        match token_kind(input[i]) {
            Some(k) => match lex_rec(input, i + 1, line, pos + 1) {
                Ok(rest) => Ok(
                    seq![Token { token_type: k, line: line as i32, pos: pos as i32 }] + rest,
                ),
                Err(e) => Err(e),
            },
            None => Err(Error::InvalidCharacter(input[i], pos as i32, line as i32)),
        }
    }
}

/// The token stream of a whole source text, or the first error.
pub open spec fn lex_spec(input: Seq<char>) -> Result<Seq<Token>, Error> {
    lex_rec(input, 0, 1, 0)
}

/// The tokens of a successful scan (empty on an error).
pub open spec fn ok_tokens(r: Result<Seq<Token>, Error>) -> Seq<Token> {
    match r {
        Ok(s) => s,
        Err(_) => Seq::empty(),
    }
}

/// The scanner state: the source, a cursor into it, the position
/// bookkeeping, the kind last scanned and the tokens recorded so far.
#[derive(Debug)]
pub struct Tokenizer {
    pub input: Vec<char>,
    pub ptr: usize,
    pub pos: i32,
    pub line: i32,
    pub cur_tok: TokenType,
    pub tokens: Vec<Token>,
}

impl Tokenizer {
    /// Position bookkeeping stays within bounds that make every line and
    /// column representable, whatever prefix has been scanned.
    pub open spec fn wf(self) -> bool {
        &&& self.input@.len() + 2 <= i32::MAX
        &&& self.ptr <= self.input@.len()
        &&& 1 <= self.line as int <= self.ptr as int + 1
        &&& 0 <= self.pos as int <= self.ptr as int
    }

    /// A fresh scanner over the given source text, at line 1, column 0.
    pub fn new(input: Vec<char>) -> (t: Tokenizer)
        requires
            input@.len() + 2 <= i32::MAX,
        ensures
            t.input == input,
            t.ptr == 0,
            t.pos == 0,
            t.line == 1,
            t.cur_tok == TokenType::PStart,
            t.tokens@ == Seq::<Token>::empty(),
            t.wf(),
    {
        Tokenizer {
            input,
            ptr: 0,
            pos: 0,
            line: 1,
            cur_tok: TokenType::PStart,
            tokens: Vec::new(),
        }
    }

    /// The 0-based column of the character the cursor stands on.
    pub fn pos(&self) -> (r: i32)
        ensures
            r == self.pos,
    {
        self.pos
    }

    /// The 1-based line the cursor stands on.
    pub fn line(&self) -> (r: i32)
        ensures
            r == self.line,
    {
        self.line
    }

    /// Scan the character under the cursor: classify it and move past it,
    /// or report it as invalid and stay put. Newlines are classified, not
    /// recorded; recording is `send`'s task.
    pub fn next(&mut self) -> (r: Result<TokenType, Error>)
        requires
            old(self).wf(),
            old(self).ptr < old(self).input@.len(),
        ensures
            final(self).input == old(self).input,
            final(self).pos == old(self).pos,
            final(self).line == old(self).line,
            final(self).cur_tok == old(self).cur_tok,
            final(self).tokens == old(self).tokens,
            match classify(old(self).input@[old(self).ptr as int]) {
                Some(k) => r == Ok::<TokenType, Error>(k) && final(self).ptr == old(self).ptr
                    + 1,
                None => r == Err::<TokenType, Error>(
                    Error::InvalidCharacter(
                        old(self).input@[old(self).ptr as int],
                        old(self).pos,
                        old(self).line,
                    ),
                ) && final(self).ptr == old(self).ptr,
            },
            final(self).wf(),
    {
        let c = self.input[self.ptr];
        let tok: TokenType;
        match c {
            '>' => {
                tok = TokenType::IncPtr;
            },
            '<' => {
                tok = TokenType::DecPtr;
            },
            '+' => {
                tok = TokenType::IncByte;
            },
            '-' => {
                tok = TokenType::DecByte;
            },
            '.' => {
                tok = TokenType::WriteByte;
            },
            ',' => {
                tok = TokenType::ReadByte;
            },
            '[' => {
                tok = TokenType::LoopStart;
            },
            ']' => {
                tok = TokenType::LoopEnd;
            },
            '\n' => {
                tok = TokenType::NewLine;
            },
            _ => {
                return Err(Error::InvalidCharacter(c, self.pos, self.line));
            },
        }
        self.ptr = self.ptr + 1;
        Ok(tok)
    }

    /// Record the kind last scanned: a newline advances the line counter
    /// and resets the column, emitting nothing; any other kind is appended
    /// as a token at the current line and column, and the column moves one
    /// past it.
    pub fn send(&mut self)
        requires
            old(self).line < i32::MAX,
            old(self).pos < i32::MAX,
        ensures
            final(self).input == old(self).input,
            final(self).ptr == old(self).ptr,
            final(self).cur_tok == old(self).cur_tok,
            if old(self).cur_tok == TokenType::NewLine {
                final(self).tokens == old(self).tokens && final(self).line == old(self).line + 1
                    && final(self).pos == 0
            } else {
                final(self).tokens@ == old(self).tokens@.push(
                    Token {
                        token_type: old(self).cur_tok,
                        line: old(self).line,
                        pos: old(self).pos,
                    },
                ) && final(self).line == old(self).line && final(self).pos == old(self).pos + 1
            },
    {
        if self.cur_tok == TokenType::NewLine {
            self.line = self.line + 1;
            self.pos = 0;
        } else {
            let tok = Token { token_type: self.cur_tok, line: self.line, pos: self.pos };
            self.tokens.push(tok);
            self.pos = self.pos + 1;
        }
    }

    /// Scan the remaining source to its end. On success the recorded tokens
    /// grow by exactly the tokens of the rest of the input, `EOF` last; on
    /// the first invalid character that error is returned, and no partial
    /// result may be trusted.
    #[verifier::loop_isolation(false)]
    pub fn lex(&mut self) -> (r: Result<(), Error>)
        requires
            old(self).wf(),
        ensures
            final(self).input == old(self).input,
            match lex_rec(
                old(self).input@,
                old(self).ptr as int,
                old(self).line as int,
                old(self).pos as int,
            ) {
                Ok(rest) => r == Ok::<(), Error>(()) && final(self).tokens@ == old(self).tokens@
                    + rest,
                Err(e) => r == Err::<(), Error>(e),
            },
    {
        let ghost g0 = lex_rec(
            self.input@,
            self.ptr as int,
            self.line as int,
            self.pos as int,
        );
        let ghost t0 = self.tokens@;
        while self.ptr < self.input.len()
            invariant
                self.wf(),
                self.input == old(self).input,
                self.tokens@.len() >= t0.len(),
                self.tokens@.take(t0.len() as int) == t0,
                match lex_rec(self.input@, self.ptr as int, self.line as int, self.pos as int) {
                    Ok(rest) => g0 == Ok::<Seq<Token>, Error>(
                        self.tokens@.skip(t0.len() as int) + rest,
                    ),
                    Err(e) => g0 == Err::<Seq<Token>, Error>(e),
                },
            decreases self.input@.len() - self.ptr,
        {
            let ghost pre = *self;
            let tok = self.next();
            match tok {
                Ok(t) => {
                    self.cur_tok = t;
                },
                Err(e) => {
                    return Err(e);
                },
            }
            self.send();
            proof {
                let i = pre.ptr as int;
                let c = pre.input@[i];
                if c != '\n' {
                    let k = token_kind(c)->Some_0;
                    let t = Token { token_type: k, line: pre.line, pos: pre.pos };
                    assert(lex_rec(pre.input@, i, pre.line as int, pre.pos as int) == (
                    match lex_rec(pre.input@, i + 1, pre.line as int, pre.pos as int + 1) {
                        Ok(rest) => Ok::<Seq<Token>, Error>(seq![t] + rest),
                        Err(e) => Err::<Seq<Token>, Error>(e),
                    }));
                    assert(self.tokens@ == pre.tokens@.push(t));
                    assert(self.tokens@.take(t0.len() as int) =~= t0);
                    match lex_rec(self.input@, self.ptr as int, self.line as int, self.pos as int) {
                        Ok(rest) => {
                            assert(self.tokens@.skip(t0.len() as int) + rest =~= pre.tokens@.skip(
                                t0.len() as int,
                            ) + (seq![t] + rest));
                        },
                        Err(_) => {},
                    }
                }
            }
        }
        proof {
            assert(lex_rec(self.input@, self.ptr as int, self.line as int, self.pos as int)
                == Ok::<Seq<Token>, Error>(
                seq![
                    Token {
                        token_type: TokenType::EOF,
                        line: (self.line as int + 1) as i32,
                        pos: 1,
                    },
                ],
            ));
        }
        let eof = Token { token_type: TokenType::EOF, line: self.line + 1, pos: 1 };
        self.tokens.push(eof);
        proof {
            assert(self.tokens@ =~= t0 + (self.tokens@.skip(t0.len() as int)));
            assert(self.tokens@.skip(t0.len() as int) =~= self.tokens@.take(
                self.tokens@.len() as int - 1,
            ).skip(t0.len() as int) + seq![eof]);
        }
        Ok(())
    }
}

/// The 1-based line on which the character at index `j` stands: one more
/// than the number of newlines strictly before it.
pub open spec fn line_at(input: Seq<char>, j: int) -> int
    decreases j,
{
    if j <= 0 {
        1
    } else {
        line_at(input, j - 1) + (if input[j - 1] == '\n' {
            1int
        } else {
            0int
        })
    }
}

/// The 0-based column of the character at index `j`: the number of
/// characters between it and the nearest newline before it.
pub open spec fn col_at(input: Seq<char>, j: int) -> int
    decreases j,
{
    if j <= 0 {
        0
    } else if input[j - 1] == '\n' {
        0
    } else {
        col_at(input, j - 1) + 1
    }
}

/// The tokens a well-formed source is expected to produce before `EOF`:
/// one per instruction character, in source order, tagged with the line
/// and column computed from the source text alone.
pub open spec fn expected_tokens(input: Seq<char>, i: int) -> Seq<Token>
    decreases input.len() - i,
{
    if i < 0 || i >= input.len() {
        Seq::empty()
    } else {
        match token_kind(input[i]) {
            Some(k) => seq![
                Token {
                    token_type: k,
                    line: line_at(input, i) as i32,
                    pos: col_at(input, i) as i32,
                },
            ] + expected_tokens(input, i + 1),
            None => expected_tokens(input, i + 1),
        }
    }
}

proof fn lemma_line_col_bounds(input: Seq<char>, j: int)
    requires
        0 <= j <= input.len(),
    ensures
        1 <= line_at(input, j) <= j + 1,
        0 <= col_at(input, j) <= j,
    decreases j,
{
    if j > 0 {
        lemma_line_col_bounds(input, j - 1);
    }
}

proof fn lemma_lex_rec_clean(input: Seq<char>, i: int)
    requires
        input.len() + 2 <= i32::MAX,
        0 <= i <= input.len(),
        forall|j: int| i <= j < input.len() ==> classify(input[j]) is Some,
    ensures
        lex_rec(input, i, line_at(input, i), col_at(input, i)) == Ok::<Seq<Token>, Error>(
            expected_tokens(input, i) + seq![
                Token {
                    token_type: TokenType::EOF,
                    line: (line_at(input, input.len() as int) + 1) as i32,
                    pos: 1,
                },
            ],
        ),
    decreases input.len() - i,
{
    lemma_line_col_bounds(input, i);
    let eof = Token {
        token_type: TokenType::EOF,
        line: (line_at(input, input.len() as int) + 1) as i32,
        pos: 1,
    };
    if i == input.len() {
        lemma_line_col_bounds(input, input.len() as int);
        assert(expected_tokens(input, i) + seq![eof] =~= seq![eof]);
    } else {
        lemma_lex_rec_clean(input, i + 1);
        let c = input[i];
        if c == '\n' {
            assert(line_at(input, i + 1) == line_at(input, i) + 1);
            assert(col_at(input, i + 1) == 0);
        } else {
            let k = token_kind(c)->Some_0;
            lemma_line_col_bounds(input, i + 1);
            let t = Token {
                token_type: k,
                line: line_at(input, i) as i32,
                pos: col_at(input, i) as i32,
            };
            assert((seq![t] + expected_tokens(input, i + 1)) + seq![eof] =~= seq![t] + (
            expected_tokens(input, i + 1) + seq![eof]));
        }
    }
}

proof fn lemma_expected_kinds(input: Seq<char>, i: int)
    requires
        0 <= i <= input.len(),
    ensures
        forall|n: int|
            0 <= n < expected_tokens(input, i).len() ==> (#[trigger] expected_tokens(
                input,
                i,
            )[n].token_type) != TokenType::NewLine && expected_tokens(input, i)[n].token_type
                != TokenType::EOF && expected_tokens(input, i)[n].token_type != TokenType::PStart,
    decreases input.len() - i,
{
    if i < input.len() {
        lemma_expected_kinds(input, i + 1);
    }
}

/// Law: a source made only of instruction characters and newlines scans
/// without error to exactly one token per instruction character, in source
/// order, each tagged with its 1-based line and 0-based column, followed by
/// a single `EOF` token one line past the last line; no `NewLine`-kind
/// token is ever emitted.
pub proof fn lemma_lex_clean(input: Seq<char>)
    requires
        input.len() + 2 <= i32::MAX,
        forall|j: int| 0 <= j < input.len() ==> classify(input[j]) is Some,
    ensures
        lex_spec(input) == Ok::<Seq<Token>, Error>(
            expected_tokens(input, 0) + seq![
                Token {
                    token_type: TokenType::EOF,
                    line: (line_at(input, input.len() as int) + 1) as i32,
                    pos: 1,
                },
            ],
        ),
        forall|n: int|
            0 <= n < expected_tokens(input, 0).len() ==> (#[trigger] expected_tokens(
                input,
                0,
            )[n].token_type) != TokenType::NewLine && expected_tokens(input, 0)[n].token_type
                != TokenType::EOF,
{
    lemma_lex_rec_clean(input, 0);
    lemma_expected_kinds(input, 0);
}

/// Law: a source whose first unrecognized character stands at index `j`
/// fails to scan, with `InvalidCharacter` carrying exactly that character,
/// its 0-based column and its 1-based line.
pub proof fn lemma_lex_invalid(input: Seq<char>, j: int)
    requires
        input.len() + 2 <= i32::MAX,
        0 <= j < input.len(),
        classify(input[j]) is None,
        forall|k: int| 0 <= k < j ==> classify(input[k]) is Some,
    ensures
        lex_spec(input) == Err::<Seq<Token>, Error>(
            Error::InvalidCharacter(
                input[j],
                col_at(input, j) as i32,
                line_at(input, j) as i32,
            ),
        ),
{
    lemma_lex_rec_invalid(input, 0, j);
}

proof fn lemma_lex_rec_invalid(input: Seq<char>, i: int, j: int)
    requires
        input.len() + 2 <= i32::MAX,
        0 <= i <= j < input.len(),
        classify(input[j]) is None,
        forall|k: int| i <= k < j ==> classify(input[k]) is Some,
    ensures
        lex_rec(input, i, line_at(input, i), col_at(input, i)) == Err::<Seq<Token>, Error>(
            Error::InvalidCharacter(
                input[j],
                col_at(input, j) as i32,
                line_at(input, j) as i32,
            ),
        ),
    decreases j - i,
{
    lemma_line_col_bounds(input, j);
    lemma_line_col_bounds(input, i);
    if i < j {
        lemma_lex_rec_invalid(input, i + 1, j);
    }
}

} // verus!

