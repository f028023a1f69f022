//! The tokenizer: a total, single-pass scanner over a byte buffer.
use vstd::prelude::*;

verus! {

/// Field separator.
pub const SPACE: u8 = 32;

/// Carriage return.
pub const CR: u8 = 13;

/// Line feed.
pub const LF: u8 = 10;

/// Stream terminator.
pub const NUL: u8 = 0;

/// What `String::from_utf8_lossy` makes of a run of bytes.
pub uninterp spec fn lossy_of(b: Seq<u8>) -> Seq<char>;

/// Relies on `String::from_utf8_lossy`: its text depends on the bytes alone,
/// and no bytes give no text.
#[verifier::external_body]
fn lossy_string(b: &[u8]) -> (r: String)
    ensures
        r@ == lossy_of(b@),
        b@.len() == 0 ==> r@.len() == 0,
{
    String::from_utf8_lossy(b).into_owned()
}

pub open spec fn is_newline(b: u8) -> bool {
    b == CR || b == LF
}

/// A byte that ends a text run.
pub open spec fn is_delimiter(b: u8) -> bool {
    b == SPACE || b == CR || b == LF || b == NUL
}

/// The scan stops at position `i`: the buffer is exhausted or holds a NUL.
pub open spec fn at_end(s: Seq<u8>, i: int) -> bool {
    i >= s.len() || s[i] == NUL
}

/// First position at or after `i` that does not hold a space.
pub open spec fn skip_spaces(s: Seq<u8>, i: int) -> int
    decreases s.len() - i,
{
    if 0 <= i < s.len() && s[i] == SPACE {
        skip_spaces(s, i + 1)
    } else {
        i
    }
}

/// End of the run of CR/LF bytes starting at `i`.
pub open spec fn newline_run_end(s: Seq<u8>, i: int) -> int
    decreases s.len() - i,
{
    if 0 <= i < s.len() && is_newline(s[i]) {
        newline_run_end(s, i + 1)
    } else {
        i
    }
}

/// End of the run of non-delimiter bytes starting at `i`.
pub open spec fn text_run_end(s: Seq<u8>, i: int) -> int
    decreases s.len() - i,
{
    if 0 <= i < s.len() && !is_delimiter(s[i]) {
        text_run_end(s, i + 1)
    } else {
        i
    }
}

/// Each run ends inside the buffer, at or after where it starts.
pub proof fn lemma_run_bounds(s: Seq<u8>, i: int)
    requires
        0 <= i <= s.len(),
    ensures
        i <= skip_spaces(s, i) <= s.len(),
        i <= newline_run_end(s, i) <= s.len(),
        i <= text_run_end(s, i) <= s.len(),
    decreases s.len() - i,
{
    if i < s.len() {
        lemma_run_bounds(s, i + 1);
    }
}

/// Represents the type of lex item.
#[derive(Debug, PartialEq, Eq, Structural, Clone, Copy)]
pub enum TokenKind {
    Error,
    Text,
    Eol,
    End,
}

/// Represents a lex item.
#[derive(Debug, PartialEq, Eq, Clone)]
pub struct Token {
    pub kind: TokenKind,
    pub lexeme: String,
}

/// One token as a scan of the buffer sees it: its kind and the bytes
/// `start..end` it spans.
pub struct Scan {
    pub kind: TokenKind,
    pub start: int,
    pub end: int,
}

/// The token that a scan from position `i` produces.
pub open spec fn scan(s: Seq<u8>, i: int) -> Scan {
    let j = skip_spaces(s, i);
    if at_end(s, j) {
        Scan { kind: TokenKind::End, start: j, end: j }
    } else if is_newline(s[j]) {
        Scan { kind: TokenKind::Eol, start: j, end: newline_run_end(s, j + 1) }
    } else {
        Scan { kind: TokenKind::Text, start: j, end: text_run_end(s, j + 1) }
    }
}

/// The lexeme of a scanned token.
pub open spec fn lexeme_of(s: Seq<u8>, t: Scan) -> Seq<char> {
    lossy_of(s.subrange(t.start, t.end))
}

/// A scan stays inside the buffer, and one that does not stop moves forward.
pub proof fn lemma_scan_bounds(s: Seq<u8>, i: int)
    requires
        0 <= i <= s.len(),
    ensures
        i <= scan(s, i).start <= scan(s, i).end <= s.len(),
        scan(s, i).kind != TokenKind::End ==> i < scan(s, i).end,
        scan(s, i).kind == TokenKind::Text ==> scan(s, i).start < scan(s, i).end,
{
    lemma_run_bounds(s, i);
    let j = skip_spaces(s, i);
    if j < s.len() {
        lemma_run_bounds(s, j + 1);
    }
}

/// Once the scan reaches the end of input it stays there: scanning again
/// from where an end-of-input token left off gives end of input again.
pub proof fn lemma_end_is_terminal(s: Seq<u8>, i: int)
    requires
        0 <= i <= s.len(),
        scan(s, i).kind == TokenKind::End,
    ensures
        scan(s, scan(s, i).end) == scan(s, i),
{
}

/// A run of consecutive CR/LF bytes, however long and however mixed, is one
/// end-of-line token: the token spans the whole run, and the scan after it
/// does not start with another CR or LF.
pub proof fn lemma_newline_run_is_one_token(s: Seq<u8>, i: int)
    requires
        0 <= i < s.len(),
        is_newline(s[i]),
    ensures
        scan(s, i).kind == TokenKind::Eol,
        scan(s, i).start == i,
        scan(s, i).end == newline_run_end(s, i),
        forall|k: int| i <= k < scan(s, i).end ==> is_newline(#[trigger] s[k]),
        scan(s, i).end == s.len() || !is_newline(s[scan(s, i).end]),
{
    lemma_newline_run_facts(s, i + 1);
}

proof fn lemma_newline_run_facts(s: Seq<u8>, i: int)
    requires
        0 <= i <= s.len(),
    ensures
        forall|k: int| i <= k < newline_run_end(s, i) ==> is_newline(#[trigger] s[k]),
        i <= newline_run_end(s, i) <= s.len(),
        newline_run_end(s, i) == s.len() || !is_newline(s[newline_run_end(s, i)]),
    decreases s.len() - i,
{
    if i < s.len() && is_newline(s[i]) {
        lemma_newline_run_facts(s, i + 1);
    }
}

/// Holds the state of the lexer
pub struct Lexer {
    input: Vec<u8>,
    offset: usize,
    rdoffset: usize,
}

impl Lexer {
    /// The buffer being scanned.
    pub closed spec fn source(&self) -> Seq<u8> {
        self.input@
    }

    /// Where the next scan starts.
    pub closed spec fn position(&self) -> int {
        self.rdoffset as int
    }

    /// Between calls, the lexeme window is empty and the cursor in the buffer.
    pub closed spec fn wf(&self) -> bool {
        self.offset == self.rdoffset && self.rdoffset <= self.input.len()
    }

    /// The cursor of a well-formed lexer lies within its buffer.
    pub proof fn lemma_position_in_bounds(&self)
        requires
            self.wf(),
        ensures
            0 <= self.position() <= self.source().len() <= usize::MAX,
    {
    }

    pub fn new(items: Vec<u8>) -> (l: Lexer)
        ensures
            l.wf(),
            l.source() == items@,
            l.position() == 0,
    {
        Lexer { input: items, offset: 0, rdoffset: 0 }
    }

    /// Returns the next token in the input
    pub fn next_token(&mut self) -> (t: Token)
        requires
            old(self).wf(),
        ensures
            final(self).wf(),
            final(self).source() == old(self).source(),
            t.kind == scan(old(self).source(), old(self).position()).kind,
            t.lexeme@ == lexeme_of(old(self).source(), scan(old(self).source(), old(self).position())),
            final(self).position() == scan(old(self).source(), old(self).position()).end,
    {
        let ghost s = self.input@;
        proof {
            lemma_run_bounds(s, self.rdoffset as int);
        }
        let mut ch = self.peek();

        // Ignore whitespace
        while ch == SPACE
            invariant
                self.input@ == s,
                self.offset == self.rdoffset <= s.len(),
                skip_spaces(s, self.rdoffset as int) == skip_spaces(s, old(self).rdoffset as int),
                ch == (if self.rdoffset < s.len() { s[self.rdoffset as int] } else { NUL }),
            decreases s.len() - self.rdoffset,
        {
            self.advance();
            self.offset = self.rdoffset;
            ch = self.peek();
        }

        proof {
            lemma_run_bounds(s, self.rdoffset as int);
            if self.rdoffset < s.len() {
                lemma_run_bounds(s, self.rdoffset + 1);
            }
        }
        let token = if ch == CR || ch == LF {
            self.advance();
            self.emit_newline()
        } else if ch == NUL {
            self.emit(TokenKind::End)
        } else {
            self.advance();
            self.emit_text()
        };

        self.offset = self.rdoffset;
        token
    }

    /// Returns a text token
    fn emit_text(&mut self) -> (t: Token)
        requires
            old(self).offset <= old(self).rdoffset <= old(self).input.len(),
        ensures
            final(self).input == old(self).input,
            final(self).offset == old(self).offset,
            final(self).rdoffset == text_run_end(old(self).input@, old(self).rdoffset as int),
            t.kind == TokenKind::Text,
            t.lexeme@ == lossy_of(
                old(self).input@.subrange(old(self).offset as int, final(self).rdoffset as int),
            ),
    {
        let ghost s = self.input@;
        let ghost target = text_run_end(s, self.rdoffset as int);
        while self.peek() != SPACE && self.peek() != CR && self.peek() != LF && self.peek() != NUL
            invariant
                self.input@ == s,
                self.input == old(self).input,
                self.offset == old(self).offset,
                self.offset <= self.rdoffset <= s.len(),
                text_run_end(s, self.rdoffset as int) == target,
            decreases s.len() - self.rdoffset,
        {
            self.advance();
        }

        self.emit(TokenKind::Text)
    }

    /// Returns a newline token
    fn emit_newline(&mut self) -> (t: Token)
        requires
            old(self).offset <= old(self).rdoffset <= old(self).input.len(),
        ensures
            final(self).input == old(self).input,
            final(self).offset == old(self).offset,
            final(self).rdoffset == newline_run_end(old(self).input@, old(self).rdoffset as int),
            t.kind == TokenKind::Eol,
            t.lexeme@ == lossy_of(
                old(self).input@.subrange(old(self).offset as int, final(self).rdoffset as int),
            ),
    {
        let ghost s = self.input@;
        let ghost target = newline_run_end(s, self.rdoffset as int);
        while self.peek() == CR || self.peek() == LF
            invariant
                self.input@ == s,
                self.input == old(self).input,
                self.offset == old(self).offset,
                self.offset <= self.rdoffset <= s.len(),
                newline_run_end(s, self.rdoffset as int) == target,
            decreases s.len() - self.rdoffset,
        {
            self.advance();
        }

        self.emit(TokenKind::Eol)
    }

    /// Consumes the next byte of the input; a NUL once the input is exhausted.
    fn advance(&mut self) -> (c: u8)
        requires
            old(self).rdoffset <= old(self).input.len(),
        ensures
            final(self).input == old(self).input,
            final(self).offset == old(self).offset,
            old(self).rdoffset < old(self).input.len() ==> c == old(self).input@[old(self).rdoffset as int]
                && final(self).rdoffset == old(self).rdoffset + 1,
            old(self).rdoffset >= old(self).input.len() ==> c == NUL && final(self).rdoffset
                == old(self).rdoffset,
    {
        if self.rdoffset >= self.input.len() {
            NUL
        } else {
            let ch = self.input[self.rdoffset];
            self.rdoffset += 1;
            ch
        }
    }

    /// Look ahead one byte; a NUL once the input is exhausted.
    fn peek(&self) -> (c: u8)
        requires
            self.rdoffset <= self.input.len(),
        ensures
            c == (if self.rdoffset < self.input.len() { self.input@[self.rdoffset as int] } else { NUL }),
    {
        if self.rdoffset >= self.input.len() {
            NUL
        } else {
            self.input[self.rdoffset]
        }
    }

    /// Returns a token with the lexer's state
    fn emit(&self, kind: TokenKind) -> (t: Token)
        requires
            self.offset <= self.rdoffset <= self.input.len(),
        ensures
            t.kind == kind,
            t.lexeme@ == lossy_of(self.input@.subrange(self.offset as int, self.rdoffset as int)),
    {
        Token { kind, lexeme: self.current_lexeme() }
    }

    /// Returns the current substring under observation
    fn current_lexeme(&self) -> (r: String)
        requires
            self.offset <= self.rdoffset <= self.input.len(),
        ensures
            r@ == lossy_of(self.input@.subrange(self.offset as int, self.rdoffset as int)),
    {
        lossy_string(vstd::slice::slice_subrange(self.input.as_slice(), self.offset, self.rdoffset))
    }
}

} // verus!
