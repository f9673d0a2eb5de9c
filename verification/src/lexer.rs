//! The tokenizer: cuts source text into tokens, one at a time and from the
//! front, without dropping a byte. Whitespace is a token like any other, and
//! a character that starts no token becomes a token of kind `Error`.

use crate::kind::SyntaxKind;
use vstd::prelude::*;
use vstd::string::StringSliceAdditionalSpecFns;
use vstd::utf8::*;

verus! {

/// A set of bytes that a token may be a run of.
#[derive(Clone, Copy, PartialEq, Eq, Structural)]
pub enum Class {
    /// Space, tab, line feed, carriage return.
    Space,
    /// The decimal digits.
    Digit,
    /// The letters of ASCII and the decimal digits.
    Word,
    /// The bytes that continue a character of several bytes.
    Continuation,
}

/// Whether `b` is a letter of ASCII, `A` to `Z` or `a` to `z`.
pub open spec fn is_letter(b: u8) -> bool {
    (0x41 <= b <= 0x5a) || (0x61 <= b <= 0x7a)
}

impl Class {
    /// Whether `b` belongs to the class.
    pub open spec fn has(self, b: u8) -> bool {
        match self {
            Class::Space => b == 0x20 || b == 0x09 || b == 0x0a || b == 0x0d,
            Class::Digit => 0x30 <= b <= 0x39,
            Class::Word => is_letter(b) || (0x30 <= b <= 0x39),
            Class::Continuation => 0x80 <= b <= 0xbf,
        }
    }

    /// Whether `b` belongs to the class.
    pub fn contains(self, b: u8) -> (r: bool)
        ensures
            r == self.has(b),
    {
        match self {
            Class::Space => b == 0x20 || b == 0x09 || b == 0x0a || b == 0x0d,
            Class::Digit => 0x30 <= b && b <= 0x39,
            Class::Word => (0x41 <= b && b <= 0x5a) || (0x61 <= b && b <= 0x7a) || (0x30 <= b
                && b <= 0x39),
            Class::Continuation => 0x80 <= b && b <= 0xbf,
        }
    }
}

/// Where the longest run of bytes of `class` that starts at `from` ends.
pub open spec fn run_end(bytes: Seq<u8>, from: int, class: Class) -> int
    decreases bytes.len() - from,
{
    if 0 <= from < bytes.len() && class.has(bytes[from]) {
        run_end(bytes, from + 1, class)
    } else {
        from
    }
}

/// The length of the token at the front of `bytes`, which is not empty: the
/// longest run of whitespace, of digits, or of letters and digits after a
/// letter; else one character.
pub open spec fn first_len(bytes: Seq<u8>) -> int {
    let b = bytes[0];
    if Class::Space.has(b) {
        run_end(bytes, 1, Class::Space)
    } else if Class::Digit.has(b) {
        run_end(bytes, 1, Class::Digit)
    } else if is_letter(b) {
        run_end(bytes, 1, Class::Word)
    } else if b < 0x80 {
        1
    } else {
        run_end(bytes, 1, Class::Continuation)
    }
}

/// The kind of a token of one character that is neither whitespace, digit
/// nor letter.
pub open spec fn symbol_kind(b: u8) -> SyntaxKind {
    if b == 0x2b {
        // `+`
        SyntaxKind::Plus
    } else if b == 0x2d {
        // `-`
        SyntaxKind::Minus
    } else if b == 0x2a {
        // `*`
        SyntaxKind::Star
    } else if b == 0x2f {
        // `/`
        SyntaxKind::Slash
    } else if b == 0x3d {
        // `=`
        SyntaxKind::Equals
    } else if b == 0x28 {
        // `(`
        SyntaxKind::LParen
    } else if b == 0x29 {
        // `)`
        SyntaxKind::RParen
    } else if b == 0x7b {
        // `{`
        SyntaxKind::LBrace
    } else if b == 0x7d {
        // `}`
        SyntaxKind::RBrace
    } else {
        SyntaxKind::Error
    }
}

/// The kind of a run of letters and digits: a keyword where it spells one,
/// `fn` or `let`, else an identifier.
pub open spec fn word_kind(word: Seq<u8>) -> SyntaxKind {
    if word == seq![0x66u8, 0x6eu8] {
        SyntaxKind::FnKw
    } else if word == seq![0x6cu8, 0x65u8, 0x74u8] {
        SyntaxKind::LetKw
    } else {
        SyntaxKind::Ident
    }
}

/// The kind of the token at the front of `bytes`, which is not empty.
pub open spec fn first_kind(bytes: Seq<u8>) -> SyntaxKind {
    let b = bytes[0];
    if Class::Space.has(b) {
        SyntaxKind::Whitespace
    } else if Class::Digit.has(b) {
        SyntaxKind::Number
    } else if is_letter(b) {
        word_kind(bytes.subrange(0, first_len(bytes)))
    } else {
        symbol_kind(b)
    }
}

/// A token as a value: its kind and the bytes of its text.
pub struct Lexeme {
    pub kind: SyntaxKind,
    pub text: Seq<u8>,
}

/// The token at the front of `bytes`, which is not empty.
pub open spec fn first_lexeme(bytes: Seq<u8>) -> Lexeme {
    Lexeme { kind: first_kind(bytes), text: bytes.subrange(0, first_len(bytes)) }
}

/// All the tokens of `bytes`, in order.
pub open spec fn lex(bytes: Seq<u8>) -> Seq<Lexeme>
    decreases bytes.len(),
{
    if bytes.len() == 0 {
        Seq::empty()
    } else {
        proof {
            lemma_first_len_bounds(bytes);
        }
        seq![first_lexeme(bytes)] + lex(bytes.subrange(first_len(bytes), bytes.len() as int))
    }
}

/// The texts of `lexemes`, one after the other.
pub open spec fn concat(lexemes: Seq<Lexeme>) -> Seq<u8>
    decreases lexemes.len(),
{
    if lexemes.len() == 0 {
        Seq::empty()
    } else {
        lexemes[0].text + concat(lexemes.drop_first())
    }
}

/// A run ends at or after its start, inside the text, and on a byte that is
/// not of its class.
pub proof fn lemma_run_end_bounds(bytes: Seq<u8>, from: int, class: Class)
    requires
        0 <= from <= bytes.len(),
    ensures
        from <= run_end(bytes, from, class) <= bytes.len(),
        run_end(bytes, from, class) < bytes.len() ==> !class.has(
            bytes[run_end(bytes, from, class)],
        ),
        forall|i: int| from <= i < run_end(bytes, from, class) ==> class.has(#[trigger] bytes[i]),
    decreases bytes.len() - from,
{
    if from < bytes.len() && class.has(bytes[from]) {
        lemma_run_end_bounds(bytes, from + 1, class);
    }
}

/// A token has at least one byte and no more than the text has.
pub proof fn lemma_first_len_bounds(bytes: Seq<u8>)
    requires
        bytes.len() > 0,
    ensures
        1 <= first_len(bytes) <= bytes.len(),
{
    lemma_run_end_bounds(bytes, 1, Class::Space);
    lemma_run_end_bounds(bytes, 1, Class::Digit);
    lemma_run_end_bounds(bytes, 1, Class::Word);
    lemma_run_end_bounds(bytes, 1, Class::Continuation);
}

/// The tokenizer is lossless: the texts of the tokens of `bytes`, joined, are
/// `bytes`. No token is empty, and only the empty text has no token.
pub proof fn lemma_lex_lossless(bytes: Seq<u8>)
    ensures
        concat(lex(bytes)) == bytes,
        forall|i: int| 0 <= i < lex(bytes).len() ==> (#[trigger] lex(bytes)[i]).text.len() > 0,
        lex(bytes).len() == 0 <==> bytes.len() == 0,
    decreases bytes.len(),
{
    if bytes.len() > 0 {
        lemma_first_len_bounds(bytes);
        let n = first_len(bytes);
        let tail = bytes.subrange(n, bytes.len() as int);
        lemma_lex_lossless(tail);
        let all = lex(bytes);
        assert(all.drop_first() =~= lex(tail));
        assert(all[0] == first_lexeme(bytes));
        assert(bytes.subrange(0, n) + tail =~= bytes);
        assert forall|i: int| 0 <= i < all.len() implies (#[trigger] all[i]).text.len() > 0 by {
            if i > 0 {
                assert(all[i] == lex(tail)[i - 1]);
            }
        }
    }
}

/// In well-formed text, the byte after a byte of ASCII starts a character.
proof fn lemma_boundary_after_ascii(bytes: Seq<u8>, i: int)
    requires
        valid_utf8(bytes),
        0 < i <= bytes.len(),
        bytes[i - 1] < 0x80,
    ensures
        is_char_boundary(bytes, i),
{
    if i < bytes.len() {
        is_char_boundary_iff_not_is_continuation_byte(bytes, i - 1);
        valid_utf8_split(bytes, i - 1);
        let suffix = bytes.subrange(i - 1, bytes.len() as int);
        assert(suffix[0] == bytes[i - 1]);
        assert(valid_utf8(suffix));
        assert(length_of_first_scalar(suffix) == 1);
        let rest = pop_first_scalar(suffix);
        assert(valid_utf8(rest));
        assert(rest.len() > 0);
        assert(rest[0] == bytes[i]);
        assert(valid_first_scalar(rest));
        is_char_boundary_iff_not_is_continuation_byte(bytes, i);
    } else {
        is_char_boundary_start_end_of_seq(bytes);
    }
}

/// In well-formed text, a token ends where a character starts or the text
/// ends.
pub proof fn lemma_token_boundary(bytes: Seq<u8>)
    requires
        valid_utf8(bytes),
        bytes.len() > 0,
    ensures
        is_char_boundary(bytes, first_len(bytes)),
{
    lemma_first_len_bounds(bytes);
    let n = first_len(bytes);
    let b = bytes[0];
    if Class::Space.has(b) {
        lemma_run_end_bounds(bytes, 1, Class::Space);
        assert(n > 1 ==> Class::Space.has(bytes[n - 1]));
        lemma_boundary_after_ascii(bytes, n);
    } else if Class::Digit.has(b) {
        lemma_run_end_bounds(bytes, 1, Class::Digit);
        assert(n > 1 ==> Class::Digit.has(bytes[n - 1]));
        lemma_boundary_after_ascii(bytes, n);
    } else if is_letter(b) {
        lemma_run_end_bounds(bytes, 1, Class::Word);
        assert(n > 1 ==> Class::Word.has(bytes[n - 1]));
        lemma_boundary_after_ascii(bytes, n);
    } else if b < 0x80 {
        lemma_boundary_after_ascii(bytes, n);
    } else {
        lemma_run_end_bounds(bytes, 1, Class::Continuation);
        if n < bytes.len() {
            is_char_boundary_iff_not_is_continuation_byte(bytes, n);
        } else {
            is_char_boundary_start_end_of_seq(bytes);
        }
    }
}

/// A token: its kind and its text, which is a piece of the source text.
#[derive(Clone, Copy)]
pub struct Token<'a> {
    pub kind: SyntaxKind,
    pub text: &'a str,
}

impl<'a> View for Token<'a> {
    type V = Lexeme;

    open spec fn view(&self) -> Lexeme {
        Lexeme { kind: self.kind, text: self.text.spec_bytes() }
    }
}

/// The tokenizer over one source text. Its view is the bytes that it has not
/// yet turned into tokens.
pub struct Lexer<'a> {
    rest: &'a str,
}

impl<'a> View for Lexer<'a> {
    type V = Seq<u8>;

    closed spec fn view(&self) -> Seq<u8> {
        self.rest.spec_bytes()
    }
}

/// Where the run of bytes of `class` that starts at `from` ends.
fn scan(bytes: &[u8], from: usize, class: Class) -> (end: usize)
    requires
        from <= bytes@.len(),
    ensures
        end == run_end(bytes@, from as int, class),
        from <= end <= bytes@.len(),
{
    let mut i: usize = from;
    while i < bytes.len() && class.contains(bytes[i])
        invariant
            from <= i <= bytes@.len(),
            run_end(bytes@, i as int, class) == run_end(bytes@, from as int, class),
        decreases bytes@.len() - i,
    {
        i += 1;
    }
    i
}

/// The kind of a token of one character that is neither whitespace, digit
/// nor letter.
fn symbol(b: u8) -> (kind: SyntaxKind)
    ensures
        kind == symbol_kind(b),
{
    if b == 0x2b {
        SyntaxKind::Plus
    } else if b == 0x2d {
        SyntaxKind::Minus
    } else if b == 0x2a {
        SyntaxKind::Star
    } else if b == 0x2f {
        SyntaxKind::Slash
    } else if b == 0x3d {
        SyntaxKind::Equals
    } else if b == 0x28 {
        SyntaxKind::LParen
    } else if b == 0x29 {
        SyntaxKind::RParen
    } else if b == 0x7b {
        SyntaxKind::LBrace
    } else if b == 0x7d {
        SyntaxKind::RBrace
    } else {
        SyntaxKind::Error
    }
}

/// The kind of the run of letters and digits that takes the first `end` of
/// `bytes`.
fn word(bytes: &[u8], end: usize) -> (kind: SyntaxKind)
    requires
        end <= bytes@.len(),
    ensures
        kind == word_kind(bytes@.subrange(0, end as int)),
{
    let ghost run = bytes@.subrange(0, end as int);
    if end == 2 && bytes[0] == 0x66 && bytes[1] == 0x6e {
        assert(run =~= seq![0x66u8, 0x6eu8]);
        SyntaxKind::FnKw
    } else if end == 3 && bytes[0] == 0x6c && bytes[1] == 0x65 && bytes[2] == 0x74 {
        assert(run =~= seq![0x6cu8, 0x65u8, 0x74u8]);
        SyntaxKind::LetKw
    } else {
        assert(run != seq![0x66u8, 0x6eu8]) by {
            if run == seq![0x66u8, 0x6eu8] {
                assert(run.len() == 2);
                assert(run[0] == 0x66u8 && run[1] == 0x6eu8);
            }
        }
        assert(run != seq![0x6cu8, 0x65u8, 0x74u8]) by {
            if run == seq![0x6cu8, 0x65u8, 0x74u8] {
                assert(run.len() == 3);
                assert(run[0] == 0x6cu8 && run[1] == 0x65u8 && run[2] == 0x74u8);
            }
        }
        SyntaxKind::Ident
    }
}

impl<'a> Lexer<'a> {
    /// A tokenizer at the start of `input`.
    pub fn new(input: &'a str) -> (lexer: Self)
        ensures
            lexer@ == input.spec_bytes(),
    {
        Lexer { rest: input }
    }

    /// Takes the next token off the front of the text; `None` at its end.
    pub fn next(&mut self) -> (token: Option<Token<'a>>)
        ensures
            old(self)@.len() == 0 ==> token is None && final(self)@ == old(self)@,
            old(self)@.len() > 0 ==> token is Some && token->0@ == first_lexeme(old(self)@)
                && final(self)@ == old(self)@.subrange(
                first_len(old(self)@),
                old(self)@.len() as int,
            ),
    {
        let bytes = self.rest.as_bytes();
        if bytes.len() == 0 {
            return None;
        }
        let b: u8 = bytes[0];
        let end: usize;
        let kind: SyntaxKind;
        if Class::Space.contains(b) {
            end = scan(bytes, 1, Class::Space);
            kind = SyntaxKind::Whitespace;
        } else if Class::Digit.contains(b) {
            end = scan(bytes, 1, Class::Digit);
            kind = SyntaxKind::Number;
        } else if (0x41 <= b && b <= 0x5a) || (0x61 <= b && b <= 0x7a) {
            end = scan(bytes, 1, Class::Word);
            kind = word(bytes, end);
        } else if b < 0x80 {
            end = 1;
            kind = symbol(b);
        } else {
            end = scan(bytes, 1, Class::Continuation);
            kind = symbol(b);
        }
        proof {
            encode_utf8_valid_utf8(self.rest@);
            lemma_token_boundary(bytes@);
        }
        let (text, rest) = self.rest.split_at(end);
        self.rest = rest;
        Some(Token { kind, text })
    }
}

/// A tokenizer with one token of lookahead. Its view is the bytes that have
/// not been handed out as tokens; looking ahead does not change it.
pub struct Cursor<'a> {
    lexer: Lexer<'a>,
    ahead: Option<Token<'a>>,
}

impl<'a> View for Cursor<'a> {
    type V = Seq<u8>;

    closed spec fn view(&self) -> Seq<u8> {
        match self.ahead {
            Some(token) => token.text.spec_bytes() + self.lexer@,
            None => self.lexer@,
        }
    }
}

impl<'a> Cursor<'a> {
    /// A token that was looked at is the first token of what is left.
    pub closed spec fn wf(&self) -> bool {
        match self.ahead {
            Some(token) => self@.len() > 0 && token@ == first_lexeme(self@),
            None => true,
        }
    }

    /// The tokens that are left.
    pub open spec fn tokens(&self) -> Seq<Lexeme> {
        lex(self@)
    }

    /// A cursor at the start of `input`.
    pub fn new(input: &'a str) -> (cursor: Self)
        ensures
            cursor.wf(),
            cursor@ == input.spec_bytes(),
    {
        Cursor { lexer: Lexer::new(input), ahead: None }
    }

    /// The kind of the next token, which stays where it is; `None` at the end
    /// of the text.
    pub fn peek(&mut self) -> (kind: Option<SyntaxKind>)
        requires
            old(self).wf(),
        ensures
            final(self).wf(),
            final(self)@ == old(self)@,
            kind == (if old(self)@.len() == 0 {
                None
            } else {
                Some(first_kind(old(self)@))
            }),
    {
        if self.ahead.is_none() {
            let ghost before = self.lexer@;
            self.ahead = self.lexer.next();
            proof {
                if before.len() > 0 {
                    lemma_first_len_bounds(before);
                    assert(before.subrange(0, first_len(before)) + before.subrange(
                        first_len(before),
                        before.len() as int,
                    ) =~= before);
                }
            }
        }
        match self.ahead {
            Some(token) => Some(token.kind),
            None => None,
        }
    }

    /// Takes the next token; `None` at the end of the text.
    pub fn next(&mut self) -> (token: Option<Token<'a>>)
        requires
            old(self).wf(),
        ensures
            final(self).wf(),
            old(self)@.len() == 0 ==> token is None && final(self)@ == old(self)@,
            old(self)@.len() > 0 ==> token is Some && token->0@ == first_lexeme(old(self)@)
                && final(self)@ == old(self)@.subrange(
                first_len(old(self)@),
                old(self)@.len() as int,
            ),
    {
        match self.ahead {
            Some(token) => {
                self.ahead = None;
                proof {
                    let all = old(self)@;
                    lemma_first_len_bounds(all);
                    assert(self.lexer@ =~= all.subrange(first_len(all), all.len() as int));
                }
                Some(token)
            },
            None => self.lexer.next(),
        }
    }
}

/// Taking a token off a text takes the first token off its tokens.
pub proof fn lemma_lex_step(bytes: Seq<u8>)
    requires
        bytes.len() > 0,
    ensures
        lex(bytes).len() > 0,
        lex(bytes)[0] == first_lexeme(bytes),
        lex(bytes).drop_first() == lex(bytes.subrange(first_len(bytes), bytes.len() as int)),
        1 <= first_len(bytes) <= bytes.len(),
{
    lemma_first_len_bounds(bytes);
    assert(lex(bytes).drop_first() =~= lex(
        bytes.subrange(first_len(bytes), bytes.len() as int),
    ));
}

} // verus!
