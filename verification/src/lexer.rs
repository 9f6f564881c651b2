use vstd::prelude::*;

verus! {

// ---------------------------------------------------------------------------
// Character classes
// ---------------------------------------------------------------------------

/// The characters the lexer skips as whitespace: exactly those with the
/// Unicode `White_Space` property, the set `char::is_whitespace` accepts.
pub open spec fn is_blank(c: char) -> bool {
    let u = c as u32;
    u == 0x09 || u == 0x0A || u == 0x0B || u == 0x0C || u == 0x0D || u == 0x20 || u == 0x85
        || u == 0xA0 || u == 0x1680 || (0x2000 <= u && u <= 0x200A) || u == 0x2028 || u == 0x2029
        || u == 0x202F || u == 0x205F || u == 0x3000
}

/// An ASCII letter or underscore: the characters an identifier may start with.
pub open spec fn is_ident_start(c: char) -> bool {
    let u = c as u32;
    (0x41 <= u && u <= 0x5A) || (0x61 <= u && u <= 0x7A) || u == 0x5F
}

/// An ASCII digit.
pub open spec fn is_digit(c: char) -> bool {
    let u = c as u32;
    0x30 <= u && u <= 0x39
}

/// An ASCII letter, digit or underscore: the characters an identifier may
/// continue with.
pub open spec fn is_ident_cont(c: char) -> bool {
    is_ident_start(c) || is_digit(c)
}

fn blank_char(c: char) -> (b: bool)
    ensures
        b == is_blank(c),
{
    let u = c as u32;
    u == 0x09 || u == 0x0A || u == 0x0B || u == 0x0C || u == 0x0D || u == 0x20 || u == 0x85
        || u == 0xA0 || u == 0x1680 || (0x2000 <= u && u <= 0x200A) || u == 0x2028 || u == 0x2029
        || u == 0x202F || u == 0x205F || u == 0x3000
}

fn ident_start_char(c: char) -> (b: bool)
    ensures
        b == is_ident_start(c),
{
    let u = c as u32;
    (0x41 <= u && u <= 0x5A) || (0x61 <= u && u <= 0x7A) || u == 0x5F
}

fn digit_char(c: char) -> (b: bool)
    ensures
        b == is_digit(c),
{
    let u = c as u32;
    0x30 <= u && u <= 0x39
}

fn ident_cont_char(c: char) -> (b: bool)
    ensures
        b == is_ident_cont(c),
{
    ident_start_char(c) || digit_char(c)
}

// ---------------------------------------------------------------------------
// The mathematical model: a cursor over a sequence of characters, and the
// token the lexer produces from a given cursor position.
// ---------------------------------------------------------------------------

/// Ghost cursor state: position in characters, 1-based line and column.
pub struct SpecCursor {
    pub pos: int,
    pub line: int,
    pub col: int,
}

/// Ghost counterpart of `TokenKind`, over sequences of characters.
pub enum SpecTokenKind {
    Identifier(Seq<char>),
    Number(Seq<char>),
    Symbol(char),
    Whitespace,
    Comment(Seq<char>),
    Eof,
}

/// Ghost counterpart of `Token`.
pub struct SpecToken {
    pub kind: SpecTokenKind,
    pub line: int,
    pub col: int,
}

/// The cursor after consuming one character: a newline moves to the start of
/// the next line, anything else advances the column by one.
pub open spec fn advanced(cur: SpecCursor, c: char) -> SpecCursor {
    if c == '\n' {
        SpecCursor { pos: cur.pos + 1, line: cur.line + 1, col: 1 }
    } else {
        SpecCursor { pos: cur.pos + 1, line: cur.line, col: cur.col + 1 }
    }
}

/// The position where a comment's text ends when it starts at `i`: the index
/// of the next newline at or after `i`, or the end of the input.
pub open spec fn comment_end(input: Seq<char>, i: int) -> int
    decreases input.len() - i,
{
    if i < input.len() && input[i] != '\n' {
        comment_end(input, i + 1)
    } else {
        i
    }
}

/// The end of the maximal run of identifier characters starting at `i`.
pub open spec fn ident_end(input: Seq<char>, i: int) -> int
    decreases input.len() - i,
{
    if i < input.len() && is_ident_cont(input[i]) {
        ident_end(input, i + 1)
    } else {
        i
    }
}

/// The end of the maximal run of ASCII digits starting at `i`.
pub open spec fn number_end(input: Seq<char>, i: int) -> int
    decreases input.len() - i,
{
    if i < input.len() && is_digit(input[i]) {
        number_end(input, i + 1)
    } else {
        i
    }
}

/// What one request for a token produces from cursor `cur`: the token, and
/// the cursor left behind. This is the specification of `Lexer::next_token`,
/// and follows its fixed priority order: end of input, whitespace, a `//`
/// comment, an identifier, a number, and a one-character symbol.
pub open spec fn spec_next(input: Seq<char>, cur: SpecCursor) -> (SpecToken, SpecCursor)
    decreases input.len() - cur.pos,
{
    if cur.pos >= input.len() {
        (SpecToken { kind: SpecTokenKind::Eof, line: cur.line, col: cur.col }, cur)
    } else {
        let c = input[cur.pos];
        if is_blank(c) {
            spec_next(input, advanced(cur, c))
        } else if c == '/' && cur.pos + 1 < input.len() && input[cur.pos + 1] == '/' {
            let end = comment_end(input, cur.pos + 2);
            (
                SpecToken {
                    kind: SpecTokenKind::Comment(input.subrange(cur.pos + 2, end)),
                    line: cur.line,
                    col: cur.col,
                },
                SpecCursor { pos: end, line: cur.line, col: cur.col + (end - cur.pos) },
            )
        } else if is_ident_start(c) {
            let end = ident_end(input, cur.pos);
            (
                SpecToken {
                    kind: SpecTokenKind::Identifier(input.subrange(cur.pos, end)),
                    line: cur.line,
                    col: cur.col,
                },
                SpecCursor { pos: end, line: cur.line, col: cur.col + (end - cur.pos) },
            )
        } else if is_digit(c) {
            let end = number_end(input, cur.pos);
            (
                SpecToken {
                    kind: SpecTokenKind::Number(input.subrange(cur.pos, end)),
                    line: cur.line,
                    col: cur.col,
                },
                SpecCursor { pos: end, line: cur.line, col: cur.col + (end - cur.pos) },
            )
        } else {
            (
                SpecToken { kind: SpecTokenKind::Symbol(c), line: cur.line, col: cur.col },
                advanced(cur, c),
            )
        }
    }
}

/// The cursor after consuming every whitespace character under it: where the
/// next token, if any, begins.
pub open spec fn skip_blanks(input: Seq<char>, cur: SpecCursor) -> SpecCursor
    decreases input.len() - cur.pos,
{
    if cur.pos < input.len() && is_blank(input[cur.pos]) {
        skip_blanks(input, advanced(cur, input[cur.pos]))
    } else {
        cur
    }
}

proof fn lemma_comment_end_bounds(input: Seq<char>, i: int)
    requires
        0 <= i <= input.len(),
    ensures
        i <= comment_end(input, i) <= input.len(),
        forall|j: int| i <= j < comment_end(input, i) ==> input[j] != '\n',
    decreases input.len() - i,
{
    if i < input.len() && input[i] != '\n' {
        lemma_comment_end_bounds(input, i + 1);
    }
}

proof fn lemma_ident_end_bounds(input: Seq<char>, i: int)
    requires
        0 <= i <= input.len(),
    ensures
        i <= ident_end(input, i) <= input.len(),
        forall|j: int| i <= j < ident_end(input, i) ==> is_ident_cont(input[j]),
    decreases input.len() - i,
{
    if i < input.len() && is_ident_cont(input[i]) {
        lemma_ident_end_bounds(input, i + 1);
    }
}

proof fn lemma_number_end_bounds(input: Seq<char>, i: int)
    requires
        0 <= i <= input.len(),
    ensures
        i <= number_end(input, i) <= input.len(),
        forall|j: int| i <= j < number_end(input, i) ==> is_digit(input[j]),
    decreases input.len() - i,
{
    if i < input.len() && is_digit(input[i]) {
        lemma_number_end_bounds(input, i + 1);
    }
}

/// Totality and progress of one request for a token: the request skips a
/// run of whitespace, then covers one lexeme span that ends exactly at the
/// new cursor, so that the spans of successive tokens never overlap; the
/// cursor never moves backwards nor past the end; the request makes strict
/// progress unless it produced `Eof`; `Eof` is produced exactly when nothing
/// but whitespace remains; and `Whitespace` is never produced.
pub proof fn lemma_next_progress(input: Seq<char>, cur: SpecCursor)
    requires
        0 <= cur.pos <= input.len(),
    ensures
        ({
            let sb = skip_blanks(input, cur);
            let (tok, next) = spec_next(input, cur);
            &&& cur.pos <= sb.pos <= next.pos <= input.len()
            &&& (forall|i: int| cur.pos <= i < sb.pos ==> is_blank(input[i]))
            &&& (sb.pos < input.len() ==> !is_blank(input[sb.pos]))
            &&& tok.line == sb.line && tok.col == sb.col
            &&& (tok.kind is Eof <==> sb.pos == input.len())
            &&& (tok.kind is Eof ==> next.pos == input.len() && next == sb)
            &&& (!(tok.kind is Eof) ==> sb.pos < next.pos)
            &&& !(tok.kind is Whitespace)
            &&& (tok.kind matches SpecTokenKind::Identifier(s) ==> next.pos == ident_end(
                input,
                sb.pos,
            ) && s == input.subrange(sb.pos, next.pos) && is_ident_start(input[sb.pos]))
            &&& (tok.kind matches SpecTokenKind::Number(s) ==> next.pos == number_end(
                input,
                sb.pos,
            ) && s == input.subrange(sb.pos, next.pos) && is_digit(input[sb.pos]))
            &&& (tok.kind matches SpecTokenKind::Comment(s) ==> next.pos == comment_end(
                input,
                sb.pos + 2,
            ) && sb.pos + 2 <= next.pos && s == input.subrange(sb.pos + 2, next.pos)
                && input[sb.pos] == '/' && input[sb.pos + 1] == '/')
            &&& (tok.kind matches SpecTokenKind::Symbol(c) ==> next.pos == sb.pos + 1 && c
                == input[sb.pos] && !(c == '/' && sb.pos + 1 < input.len() && input[sb.pos + 1]
                == '/'))
        }),
    decreases input.len() - cur.pos,
{
    if cur.pos < input.len() {
        let c = input[cur.pos];
        if is_blank(c) {
            lemma_next_progress(input, advanced(cur, c));
            assert(spec_next(input, cur) == spec_next(input, advanced(cur, c)));
            assert(skip_blanks(input, cur) == skip_blanks(input, advanced(cur, c)));
        } else if c == '/' && cur.pos + 1 < input.len() && input[cur.pos + 1] == '/' {
            lemma_comment_end_bounds(input, cur.pos + 2);
        } else if is_ident_start(c) {
            lemma_ident_end_bounds(input, cur.pos + 1);
            assert(ident_end(input, cur.pos) == ident_end(input, cur.pos + 1));
        } else if is_digit(c) {
            lemma_number_end_bounds(input, cur.pos + 1);
            assert(number_end(input, cur.pos) == number_end(input, cur.pos + 1));
        }
    }
}

/// Whitespace invisibility: an input made of nothing but whitespace yields
/// `Eof` and no other token, from any position within it.
pub proof fn lemma_blank_input_yields_eof(input: Seq<char>, cur: SpecCursor)
    requires
        0 <= cur.pos <= input.len(),
        forall|i: int| 0 <= i < input.len() ==> is_blank(input[i]),
    ensures
        spec_next(input, cur).0.kind is Eof,
{
    lemma_next_progress(input, cur);
}

/// The sentinel repeats: whenever a request produced `Eof`, the cursor it
/// left behind yields `Eof` again, at the same line and column, and leaves
/// the cursor unchanged — so every further request behaves the same way.
pub proof fn lemma_eof_idempotent(input: Seq<char>, cur: SpecCursor)
    requires
        0 <= cur.pos <= input.len(),
    ensures
        ({
            let (tok, next) = spec_next(input, cur);
            tok.kind is Eof ==> {
                &&& tok.line == next.line && tok.col == next.col
                &&& spec_next(input, next) == (tok, next)
            }
        }),
    decreases input.len() - cur.pos,
{
    lemma_next_progress(input, cur);
    if cur.pos < input.len() && is_blank(input[cur.pos]) {
        lemma_eof_idempotent(input, advanced(cur, input[cur.pos]));
    }
}

/// The source text a token keeps: identifiers, numbers and symbols carry
/// their lexeme; whitespace, comments and the sentinel contribute nothing.
pub open spec fn visible_text(k: SpecTokenKind) -> Seq<char> {
    match k {
        SpecTokenKind::Identifier(s) => s,
        SpecTokenKind::Number(s) => s,
        SpecTokenKind::Symbol(c) => seq![c],
        SpecTokenKind::Whitespace => Seq::<char>::empty(),
        SpecTokenKind::Comment(_) => Seq::<char>::empty(),
        SpecTokenKind::Eof => Seq::<char>::empty(),
    }
}

/// The input from position `i` on, with whitespace removed and every `//`
/// comment removed together with its two marker characters.
pub open spec fn visible_chars(input: Seq<char>, i: int) -> Seq<char>
    decreases input.len() - i
        when 0 <= i <= input.len()
        via visible_chars_decreases
{
    if i >= input.len() {
        Seq::<char>::empty()
    } else if is_blank(input[i]) {
        visible_chars(input, i + 1)
    } else if input[i] == '/' && i + 1 < input.len() && input[i + 1] == '/' {
        visible_chars(input, comment_end(input, i + 2))
    } else {
        seq![input[i]] + visible_chars(input, i + 1)
    }
}

#[via_fn]
proof fn visible_chars_decreases(input: Seq<char>, i: int) {
    if 0 <= i && i + 2 <= input.len() {
        lemma_comment_end_bounds(input, i + 2);
    }
}

/// The stream of tokens produced from cursor `cur` on, up to and including
/// the first `Eof` sentinel: the finite prefix that covers the real input.
pub open spec fn token_stream(input: Seq<char>, cur: SpecCursor) -> Seq<SpecToken>
    decreases input.len() - cur.pos
        when 0 <= cur.pos <= input.len()
        via token_stream_decreases
{
    let (tok, next) = spec_next(input, cur);
    if tok.kind is Eof {
        seq![tok]
    } else {
        seq![tok] + token_stream(input, next)
    }
}

#[via_fn]
proof fn token_stream_decreases(input: Seq<char>, cur: SpecCursor) {
    if 0 <= cur.pos <= input.len() {
        lemma_next_progress(input, cur);
    }
}

/// The concatenation, left to right, of the source text a stream of tokens
/// keeps.
pub open spec fn visible_concat(toks: Seq<SpecToken>) -> Seq<char>
    decreases toks.len(),
{
    if toks.len() == 0 {
        Seq::<char>::empty()
    } else {
        visible_text(toks[0].kind) + visible_concat(toks.drop_first())
    }
}

proof fn lemma_visible_blank_prefix(input: Seq<char>, p: int, q: int)
    requires
        0 <= p <= q <= input.len(),
        forall|i: int| p <= i < q ==> is_blank(input[i]),
    ensures
        visible_chars(input, p) == visible_chars(input, q),
    decreases q - p,
{
    if p < q {
        lemma_visible_blank_prefix(input, p + 1, q);
    }
}

proof fn lemma_visible_plain_run(input: Seq<char>, j: int, end: int)
    requires
        0 <= j <= end <= input.len(),
        forall|i: int| j <= i < end ==> !is_blank(input[i]) && input[i] != '/',
    ensures
        visible_chars(input, j) == input.subrange(j, end) + visible_chars(input, end),
    decreases end - j,
{
    if j < end {
        lemma_visible_plain_run(input, j + 1, end);
        assert(input.subrange(j, end) =~= seq![input[j]] + input.subrange(j + 1, end));
        assert(seq![input[j]] + (input.subrange(j + 1, end) + visible_chars(input, end)) =~= (seq![
            input[j],
        ] + input.subrange(j + 1, end)) + visible_chars(input, end));
    } else {
        assert(input.subrange(j, end) =~= Seq::<char>::empty());
        assert(Seq::<char>::empty() + visible_chars(input, end) =~= visible_chars(input, end));
    }
}

/// The partition of the input that the token stream makes: concatenating the
/// source text of the identifier, number and symbol tokens, left to right,
/// reproduces the input with whitespace and comments removed.
pub proof fn lemma_tokens_reproduce_input(input: Seq<char>, cur: SpecCursor)
    requires
        0 <= cur.pos <= input.len(),
    ensures
        visible_concat(token_stream(input, cur)) == visible_chars(input, cur.pos),
    decreases input.len() - cur.pos,
{
    lemma_next_progress(input, cur);
    let sb = skip_blanks(input, cur);
    let (tok, next) = spec_next(input, cur);
    lemma_visible_blank_prefix(input, cur.pos, sb.pos);
    if tok.kind is Eof {
        assert(seq![tok].drop_first() =~= Seq::<SpecToken>::empty());
        assert(visible_concat(Seq::<SpecToken>::empty()) == Seq::<char>::empty());
        assert(visible_concat(token_stream(input, cur)) =~= visible_chars(input, cur.pos));
    } else {
        lemma_tokens_reproduce_input(input, next);
        let rest = token_stream(input, next);
        assert((seq![tok] + rest).drop_first() =~= rest);
        match tok.kind {
            SpecTokenKind::Identifier(s) => {
                lemma_ident_end_bounds(input, sb.pos);
                assert(forall|i: int|
                    sb.pos <= i < next.pos ==> !is_blank(input[i]) && input[i] != '/');
                lemma_visible_plain_run(input, sb.pos, next.pos);
            },
            SpecTokenKind::Number(s) => {
                lemma_number_end_bounds(input, sb.pos);
                assert(forall|i: int|
                    sb.pos <= i < next.pos ==> !is_blank(input[i]) && input[i] != '/');
                lemma_visible_plain_run(input, sb.pos, next.pos);
            },
            SpecTokenKind::Comment(s) => {
                assert(visible_chars(input, sb.pos) == visible_chars(input, next.pos));
                assert(Seq::<char>::empty() + visible_chars(input, next.pos) =~= visible_chars(
                    input,
                    next.pos,
                ));
            },
            SpecTokenKind::Symbol(c) => {
                assert(visible_chars(input, sb.pos) == seq![c] + visible_chars(input, next.pos));
            },
            _ => {},
        }
        assert(visible_concat(token_stream(input, cur)) =~= visible_chars(input, cur.pos));
    }
}

// ---------------------------------------------------------------------------
// Tokens
// ---------------------------------------------------------------------------

/// The shape of a token. `Whitespace` is an internal classification only:
/// whitespace is consumed silently and `next_token` never returns it.
#[derive(Debug, PartialEq, Clone)]
pub enum TokenKind {
    Identifier(String),
    Number(String),
    Symbol(char),
    Whitespace,
    Comment(String),
    Eof,
}

/// One lexical token: its shape and the 1-based line and column of its first
/// character.
#[derive(Debug, PartialEq, Clone)]
pub struct Token {
    pub kind: TokenKind,
    pub line: usize,
    pub column: usize,
}

impl View for TokenKind {
    type V = SpecTokenKind;

    open spec fn view(&self) -> SpecTokenKind {
        match self {
            TokenKind::Identifier(s) => SpecTokenKind::Identifier(s@),
            TokenKind::Number(s) => SpecTokenKind::Number(s@),
            TokenKind::Symbol(c) => SpecTokenKind::Symbol(*c),
            TokenKind::Whitespace => SpecTokenKind::Whitespace,
            TokenKind::Comment(s) => SpecTokenKind::Comment(s@),
            TokenKind::Eof => SpecTokenKind::Eof,
        }
    }
}

impl View for Token {
    type V = SpecToken;

    open spec fn view(&self) -> SpecToken {
        SpecToken { kind: self.kind@, line: self.line as int, col: self.column as int }
    }
}

// ---------------------------------------------------------------------------
// The lexer
// ---------------------------------------------------------------------------

/// A single-pass, lookahead-1 tokenizer over a borrowed input text. It keeps
/// a cursor (character position, 1-based line and column) and hands out one
/// token per call of `next_token`.
pub struct Lexer<'a> {
    input: &'a str,
    pos: usize,
    line: usize,
    column: usize,
}

impl<'a> Lexer<'a> {
    /// The input text, as a sequence of characters.
    pub closed spec fn input_seq(&self) -> Seq<char> {
        self.input@
    }

    /// The current cursor.
    pub closed spec fn cursor(&self) -> SpecCursor {
        SpecCursor { pos: self.pos as int, line: self.line as int, col: self.column as int }
    }

    /// Well-formedness: the cursor lies within the input, and line and column
    /// are 1-based and bounded by the number of characters consumed, which
    /// keeps the bookkeeping free of overflow.
    pub closed spec fn wf(&self) -> bool {
        &&& self.input@.len() < usize::MAX
        &&& self.pos <= self.input@.len()
        &&& 1 <= self.line <= self.pos + 1
        &&& 1 <= self.column <= self.pos + 1
    }

    /// A fresh lexer over `input`, with the cursor at its first character,
    /// line 1, column 1. The input must be shorter than `usize::MAX`
    /// characters so that every position, line and column fits in a `usize`;
    /// no text that fits in memory comes near that bound.
    pub fn new(input: &'a str) -> (lx: Lexer<'a>)
        requires
            input@.len() < usize::MAX,
        ensures
            lx.wf(),
            lx.input_seq() == input@,
            lx.cursor() == (SpecCursor { pos: 0, line: 1, col: 1 }),
    {
        Lexer { input, pos: 0, line: 1, column: 1 }
    }

    /// The character under the cursor, without consuming it.
    fn peek_char(&self) -> (r: Option<char>)
        requires
            self.wf(),
        ensures
            self.cursor().pos < self.input_seq().len() ==> r == Some(
                self.input_seq()[self.cursor().pos],
            ),
            self.cursor().pos >= self.input_seq().len() ==> r is None,
    {
        if self.pos < self.input.unicode_len() {
            Some(self.input.get_char(self.pos))
        } else {
            None
        }
    }

    /// Consume one character, keeping line and column up to date: a newline
    /// starts the next line at column 1, any other character moves the column
    /// on by one.
    fn bump(&mut self) -> (r: Option<char>)
        requires
            old(self).wf(),
        ensures
            final(self).wf(),
            final(self).input_seq() == old(self).input_seq(),
            old(self).cursor().pos < old(self).input_seq().len() ==> {
                &&& r == Some(old(self).input_seq()[old(self).cursor().pos])
                &&& final(self).cursor() == advanced(
                    old(self).cursor(),
                    old(self).input_seq()[old(self).cursor().pos],
                )
            },
            old(self).cursor().pos >= old(self).input_seq().len() ==> {
                &&& r is None
                &&& final(self).cursor() == old(self).cursor()
            },
    {
        let cur = self.peek_char();
        if let Some(ch) = cur {
            if ch == '\n' {
                self.line = self.line + 1;
                self.column = 1;
            } else {
                self.column = self.column + 1;
            }
            self.pos = self.pos + 1;
        }
        cur
    }

    /// Produce the next token and move the cursor past it. Total: it always
    /// returns a token, and once the input is exhausted it returns `Eof` at
    /// the position just past the last character, again on every further
    /// call. The token and the new cursor are exactly what `spec_next` gives
    /// for the old cursor.
    pub fn next_token(&mut self) -> (r: Option<Token>)
        requires
            old(self).wf(),
        ensures
            final(self).wf(),
            final(self).input_seq() == old(self).input_seq(),
            r is Some,
            r matches Some(tok) ==> {
                let (st, next) = spec_next(old(self).input_seq(), old(self).cursor());
                tok@ == st && final(self).cursor() == next
            },
    {
        let ghost inp = self.input_seq();
        loop
            invariant
                self.wf(),
                self.input_seq() == inp,
                inp == old(self).input_seq(),
                spec_next(inp, self.cursor()) == spec_next(inp, old(self).cursor()),
            decreases inp.len() - self.cursor().pos,
        {
            let ghost entry = self.cursor();
            let start_line = self.line;
            let start_col = self.column;
            let ch = match self.peek_char() {
                Some(c) => c,
                None => {
                    return Some(
                        Token { kind: TokenKind::Eof, line: start_line, column: start_col },
                    );
                },
            };

            if blank_char(ch) {
                self.bump();
            } else if ch == '/' && self.pos + 1 < self.input.unicode_len() && self.input.get_char(
                self.pos + 1,
            ) == '/' {
                let start_pos = self.pos;
                self.bump();
                self.bump();
                loop
                    invariant
                        self.wf(),
                        self.input_seq() == inp,
                        entry.pos + 2 <= self.cursor().pos <= inp.len(),
                        self.cursor().line == entry.line,
                        self.cursor().col == entry.col + (self.cursor().pos - entry.pos),
                        comment_end(inp, entry.pos + 2) == comment_end(inp, self.cursor().pos),
                    ensures
                        self.wf(),
                        self.input_seq() == inp,
                        self.cursor().line == entry.line,
                        self.cursor().col == entry.col + (self.cursor().pos - entry.pos),
                        entry.pos + 2 <= self.cursor().pos,
                        self.cursor().pos == comment_end(inp, entry.pos + 2),
                    decreases inp.len() - self.cursor().pos,
                {
                    match self.peek_char() {
                        Some(c) => {
                            if c == '\n' {
                                break ;
                            }
                            self.bump();
                        },
                        None => {
                            break ;
                        },
                    }
                }
                let end_pos = self.pos;
                let text = self.input.substring_char(start_pos + 2, end_pos).to_owned();
                return Some(
                    Token { kind: TokenKind::Comment(text), line: start_line, column: start_col },
                );
            } else if ident_start_char(ch) {
                let start_pos = self.pos;
                self.bump();
                loop
                    invariant
                        self.wf(),
                        self.input_seq() == inp,
                        entry.pos < self.cursor().pos <= inp.len(),
                        self.cursor().line == entry.line,
                        self.cursor().col == entry.col + (self.cursor().pos - entry.pos),
                        ident_end(inp, entry.pos) == ident_end(inp, self.cursor().pos),
                    ensures
                        self.wf(),
                        self.input_seq() == inp,
                        self.cursor().line == entry.line,
                        self.cursor().col == entry.col + (self.cursor().pos - entry.pos),
                        entry.pos < self.cursor().pos,
                        self.cursor().pos == ident_end(inp, entry.pos),
                    decreases inp.len() - self.cursor().pos,
                {
                    match self.peek_char() {
                        Some(c) => {
                            if ident_cont_char(c) {
                                self.bump();
                            } else {
                                break ;
                            }
                        },
                        None => {
                            break ;
                        },
                    }
                }
                let end_pos = self.pos;
                let text = self.input.substring_char(start_pos, end_pos).to_owned();
                return Some(
                    Token {
                        kind: TokenKind::Identifier(text),
                        line: start_line,
                        column: start_col,
                    },
                );
            } else if digit_char(ch) {
                let start_pos = self.pos;
                self.bump();
                loop
                    invariant
                        self.wf(),
                        self.input_seq() == inp,
                        entry.pos < self.cursor().pos <= inp.len(),
                        self.cursor().line == entry.line,
                        self.cursor().col == entry.col + (self.cursor().pos - entry.pos),
                        number_end(inp, entry.pos) == number_end(inp, self.cursor().pos),
                    ensures
                        self.wf(),
                        self.input_seq() == inp,
                        self.cursor().line == entry.line,
                        self.cursor().col == entry.col + (self.cursor().pos - entry.pos),
                        entry.pos < self.cursor().pos,
                        self.cursor().pos == number_end(inp, entry.pos),
                    decreases inp.len() - self.cursor().pos,
                {
                    match self.peek_char() {
                        Some(c) => {
                            if digit_char(c) {
                                self.bump();
                            } else {
                                break ;
                            }
                        },
                        None => {
                            break ;
                        },
                    }
                }
                let end_pos = self.pos;
                let text = self.input.substring_char(start_pos, end_pos).to_owned();
                return Some(
                    Token { kind: TokenKind::Number(text), line: start_line, column: start_col },
                );
            } else {
                self.bump();
                return Some(
                    Token { kind: TokenKind::Symbol(ch), line: start_line, column: start_col },
                );
            }
        }
    }
}

} // verus!
