//! The tokenizer: source text to a flat list of tokens.

use crate::text::{decimal, i32_to_string, str_eq};
use vstd::prelude::*;
use vstd::std_specs::iter::IteratorSpec;
use vstd::string::*;

verus! {

/// What kind of token a piece of text is. A numeric literal carries its value.
#[derive(Debug, Clone, Copy, PartialEq, Eq, Hash, Structural)]
pub enum TokenType {
    Simbol,
    Ident,
    NumLiteral(i32),
    StrLiteral,
}

/// A token: its text, its kind, and the line it was read on (counted from 0),
/// if it came from source text.
#[derive(Debug, PartialEq, Eq, Hash)]
pub struct Token {
    pub string: String,
    pub ty: TokenType,
    pub line: Option<i32>,
}

/// The mathematical content of a [`Token`].
pub ghost struct TokenView {
    pub string: Seq<char>,
    pub ty: TokenType,
    pub line: Option<i32>,
}

impl View for Token {
    type V = TokenView;

    open spec fn view(&self) -> TokenView {
        TokenView { string: self.string@, ty: self.ty, line: self.line }
    }
}

impl Clone for Token {
    fn clone(&self) -> (copy: Self)
        ensures
            copy == *self,
    {
        Token { string: self.string.clone(), ty: self.ty, line: self.line }
    }
}

/// The views of a list of tokens, in order.
pub open spec fn tokens_view(tokens: Seq<Token>) -> Seq<TokenView> {
    tokens.map_values(|t: Token| t@)
}

/// How a token is written in a dump of the intermediate code.
pub open spec fn spec_dump_token(tok: TokenView) -> Seq<char> {
    match tok.ty {
        TokenType::Simbol => tok.string + "(Simbol)"@,
        TokenType::Ident => tok.string,
        TokenType::NumLiteral(_) => "i32 "@ + tok.string,
        TokenType::StrLiteral => "Str \""@ + tok.string + "\""@,
    }
}

/// Writes a token as it is shown in a dump of the intermediate code.
pub fn dump_token(tok: &Token) -> (text: String)
    ensures
        text@ == spec_dump_token(tok@),
{
    match tok.ty {
        TokenType::Simbol => {
            let mut s = tok.string.clone();
            s.append("(Simbol)");
            s
        },
        TokenType::Ident => tok.string.clone(),
        TokenType::NumLiteral(_) => {
            let mut s = String::from_str("i32 ");
            s.append(tok.string.as_str());
            s
        },
        TokenType::StrLiteral => {
            let mut s = String::from_str("Str \"");
            s.append(tok.string.as_str());
            s.append("\"");
            s
        },
    }
}

impl Token {
    /// A token that belongs to no source line.
    pub fn new(s: String, ty: TokenType) -> (tok: Self)
        ensures
            tok.string == s,
            tok.ty == ty,
            tok.line is None,
    {
        Token { string: s, ty, line: None }
    }

    /// A token read on line `line` of a source text.
    pub fn new_with_line_num(s: String, ty: TokenType, line: i32) -> (tok: Self)
        ensures
            tok.string == s,
            tok.ty == ty,
            tok.line == Some(line),
    {
        Token { string: s, ty, line: Some(line) }
    }

    /// The numeric literal `n`, written in decimal.
    pub fn new_num(n: i32, line: Option<i32>) -> (tok: Self)
        ensures
            tok@ == num_token(n, line),
    {
        Token { string: i32_to_string(n), ty: TokenType::NumLiteral(n), line }
    }

    /// Whether the token's text is exactly `s`.
    pub fn matches(&self, s: &str) -> (same: bool)
        ensures
            same == (self@.string == s@),
    {
        str_eq(self.string.as_str(), s)
    }
}

/// The view of the numeric literal token for `n`.
pub open spec fn num_token(n: i32, line: Option<i32>) -> TokenView {
    TokenView { string: decimal(n as int), ty: TokenType::NumLiteral(n), line }
}

/// A character that separates tokens.
pub open spec fn spec_is_whitespace(c: char) -> bool {
    c == ' ' || c == '\n' || c == '\t' || c == '\r'
}

/// A character that is a token by itself.
pub open spec fn spec_is_one_char_symbol(c: char) -> bool {
    c == '(' || c == ')' || c == '{' || c == '}' || c == '[' || c == ']' || c == ';' || c == ','
}

/// A character of which runs make up a symbol.
pub open spec fn spec_is_normal_symbol(c: char) -> bool {
    c == '=' || c == '+' || c == '-' || c == '*' || c == '/' || c == '!' || c == '%' || c == '&'
        || c == '~' || c == '|' || c == '<' || c == '>' || c == '?' || c == ':' || c == '.' || c
        == '#'
}

/// A decimal digit.
pub open spec fn spec_is_digit(c: char) -> bool {
    '0' <= c <= '9'
}

/// A letter of the basic Latin alphabet.
pub open spec fn spec_is_letter(c: char) -> bool {
    ('a' <= c <= 'z') || ('A' <= c <= 'Z')
}

/// A character that an identifier goes on with.
pub open spec fn spec_is_letter_or_digit(c: char) -> bool {
    spec_is_letter(c) || spec_is_digit(c)
}

/// Whether `c` separates tokens.
pub fn is_whitespace(c: char) -> (b: bool)
    ensures
        b == spec_is_whitespace(c),
{
    c == ' ' || c == '\n' || c == '\t' || c == '\r'
}

/// Whether `c` is a token by itself.
pub fn is_one_char_symbol(c: char) -> (b: bool)
    ensures
        b == spec_is_one_char_symbol(c),
{
    c == '(' || c == ')' || c == '{' || c == '}' || c == '[' || c == ']' || c == ';' || c == ','
}

/// Whether `c` can be part of a symbol of several characters.
pub fn is_normal_symbol(c: char) -> (b: bool)
    ensures
        b == spec_is_normal_symbol(c),
{
    c == '=' || c == '+' || c == '-' || c == '*' || c == '/' || c == '!' || c == '%' || c == '&'
        || c == '~' || c == '|' || c == '<' || c == '>' || c == '?' || c == ':' || c == '.' || c
        == '#'
}

fn is_digit(c: char) -> (b: bool)
    ensures
        b == spec_is_digit(c),
{
    '0' <= c && c <= '9'
}

fn is_letter(c: char) -> (b: bool)
    ensures
        b == spec_is_letter(c),
{
    ('a' <= c && c <= 'z') || ('A' <= c && c <= 'Z')
}

/// Why a text could not be split into tokens.
#[derive(Debug, Clone, Copy, PartialEq, Eq, Structural)]
pub enum LexError {
    /// A string literal is opened and never closed.
    UnterminatedString,
    /// A character that starts no token.
    UnexpectedChar,
    /// A numeric literal above `i32::MAX`.
    NumberTooLarge,
    /// The line counter would pass `i32::MAX`.
    TooManyLines,
}

/// The kinds of character runs that make up the longer tokens.
#[derive(Debug, Clone, Copy, PartialEq, Eq, Structural)]
pub enum CharClass {
    Digit,
    LetterOrDigit,
    NormalSymbol,
}

/// Whether `c` belongs to `class`.
pub open spec fn in_class(class: CharClass, c: char) -> bool {
    match class {
        CharClass::Digit => spec_is_digit(c),
        CharClass::LetterOrDigit => spec_is_letter_or_digit(c),
        CharClass::NormalSymbol => spec_is_normal_symbol(c),
    }
}

/// The first position at or after `pos` whose character is not in `class`
/// (the end of the text if there is none).
pub open spec fn run_end(txt: Seq<char>, pos: int, class: CharClass) -> int
    decreases txt.len() - pos,
{
    if 0 <= pos < txt.len() && in_class(class, txt[pos]) {
        run_end(txt, pos + 1, class)
    } else {
        pos
    }
}

/// The position of the first double quote at or after `pos` (the end of the
/// text if there is none).
pub open spec fn closing_quote(txt: Seq<char>, pos: int) -> int
    decreases txt.len() - pos,
{
    if 0 <= pos < txt.len() && txt[pos] != '"' {
        closing_quote(txt, pos + 1)
    } else {
        pos
    }
}

/// The text of a string literal with every backslash-`n` pair replaced by a
/// line feed.
pub open spec fn unescape(s: Seq<char>) -> Seq<char>
    decreases s.len(),
{
    if s.len() == 0 {
        s
    } else if s.len() >= 2 && s[0] == '\\' && s[1] == 'n' {
        seq!['\n'] + unescape(s.skip(2))
    } else {
        seq![s[0]] + unescape(s.skip(1))
    }
}

/// The number that a run of decimal digits writes.
pub open spec fn digits_value(s: Seq<char>) -> nat
    decreases s.len(),
{
    if s.len() == 0 {
        0
    } else {
        (digits_value(s.drop_last()) * 10 + (s.last() as u32 - '0' as u32)) as nat
    }
}

/// Puts `tok` in front of the tokens in `rest`, or passes its error on.
pub open spec fn cons_token(tok: TokenView, rest: Result<Seq<TokenView>, LexError>) -> Result<
    Seq<TokenView>,
    LexError,
> {
    match rest {
        Ok(toks) => Ok(seq![tok] + toks),
        Err(e) => Err(e),
    }
}

/// A token read on line `line` of the text.
pub open spec fn source_token(s: Seq<char>, ty: TokenType, line: int) -> TokenView {
    TokenView { string: s, ty, line: Some(line as i32) }
}

/// One step of the tokenizer.
pub ghost enum LexStep {
    /// White space was passed; the line count may have changed.
    Skip { next: int, line: int },
    /// A token was read.
    Emit { tok: TokenView, next: int },
    /// The text cannot be read from here.
    Fail { error: LexError },
}

/// What the tokenizer does at position `pos` of `txt`, when `line` line
/// feeds have been passed so far.
///
/// White space separates tokens and line feeds outside string literals are
/// counted. A double quote opens a string literal that runs to the next
/// double quote. One of `( ) { } [ ] ; ,` is a token by itself. A digit
/// starts a numeric literal, a letter an identifier of letters and digits,
/// and one of `= + - * / ! % & ~ | < > ? : . #` a symbol made of a run of
/// them. Any other character is an error.
pub open spec fn lex_step(txt: Seq<char>, pos: int, line: int) -> LexStep
    recommends
        0 <= pos < txt.len(),
{
    let c = txt[pos];
    if spec_is_whitespace(c) {
        if c == '\n' {
            if line >= i32::MAX {
                LexStep::Fail { error: LexError::TooManyLines }
            } else {
                LexStep::Skip { next: pos + 1, line: line + 1 }
            }
        } else {
            LexStep::Skip { next: pos + 1, line }
        }
    } else if c == '"' {
        let q = closing_quote(txt, pos + 1);
        if q >= txt.len() {
            LexStep::Fail { error: LexError::UnterminatedString }
        } else {
            LexStep::Emit {
                tok: source_token(unescape(txt.subrange(pos + 1, q)), TokenType::StrLiteral, line),
                next: q + 1,
            }
        }
    } else if spec_is_one_char_symbol(c) {
        LexStep::Emit {
            tok: source_token(txt.subrange(pos, pos + 1), TokenType::Simbol, line),
            next: pos + 1,
        }
    } else if spec_is_digit(c) {
        let e = run_end(txt, pos + 1, CharClass::Digit);
        let v = digits_value(txt.subrange(pos, e));
        if v > i32::MAX {
            LexStep::Fail { error: LexError::NumberTooLarge }
        } else {
            LexStep::Emit {
                tok: source_token(txt.subrange(pos, e), TokenType::NumLiteral(v as i32), line),
                next: e,
            }
        }
    } else if spec_is_letter(c) {
        let e = run_end(txt, pos + 1, CharClass::LetterOrDigit);
        LexStep::Emit { tok: source_token(txt.subrange(pos, e), TokenType::Ident, line), next: e }
    } else if spec_is_normal_symbol(c) {
        let e = run_end(txt, pos + 1, CharClass::NormalSymbol);
        LexStep::Emit { tok: source_token(txt.subrange(pos, e), TokenType::Simbol, line), next: e }
    } else {
        LexStep::Fail { error: LexError::UnexpectedChar }
    }
}

/// Every step that does not fail moves forward and stays inside the text.
pub proof fn lemma_lex_step_advances(txt: Seq<char>, pos: int, line: int)
    requires
        0 <= pos < txt.len(),
    ensures
        match lex_step(txt, pos, line) {
            LexStep::Skip { next, line: l } => pos < next <= txt.len() && line <= l <= line + 1,
            LexStep::Emit { next, .. } => pos < next <= txt.len(),
            LexStep::Fail { .. } => true,
        },
{
    lemma_closing_quote_bounds(txt, pos + 1);
    lemma_run_end_bounds(txt, pos + 1, CharClass::Digit);
    lemma_run_end_bounds(txt, pos + 1, CharClass::LetterOrDigit);
    lemma_run_end_bounds(txt, pos + 1, CharClass::NormalSymbol);
}

/// The tokens of `txt` from position `pos` on: the steps of [`lex_step`],
/// repeated to the end of the text.
pub open spec fn lex_tokens(txt: Seq<char>, pos: int, line: int) -> Result<
    Seq<TokenView>,
    LexError,
>
    decreases txt.len() - pos,
{
    if !(0 <= pos < txt.len()) {
        Ok(Seq::empty())
    } else {
        proof {
            lemma_closing_quote_bounds(txt, pos + 1);
            lemma_run_end_bounds(txt, pos + 1, CharClass::Digit);
            lemma_run_end_bounds(txt, pos + 1, CharClass::LetterOrDigit);
            lemma_run_end_bounds(txt, pos + 1, CharClass::NormalSymbol);
        }
        match lex_step(txt, pos, line) {
            LexStep::Skip { next, line: l } => lex_tokens(txt, next, l),
            LexStep::Emit { tok, next } => cons_token(tok, lex_tokens(txt, next, line)),
            LexStep::Fail { error } => Err(error),
        }
    }
}

/// The line count once the text from `pos` on has been read.
pub open spec fn lex_line(txt: Seq<char>, pos: int, line: int) -> int
    decreases txt.len() - pos,
{
    if !(0 <= pos < txt.len()) {
        line
    } else {
        proof {
            lemma_closing_quote_bounds(txt, pos + 1);
            lemma_run_end_bounds(txt, pos + 1, CharClass::Digit);
            lemma_run_end_bounds(txt, pos + 1, CharClass::LetterOrDigit);
            lemma_run_end_bounds(txt, pos + 1, CharClass::NormalSymbol);
        }
        match lex_step(txt, pos, line) {
            LexStep::Skip { next, line: l } => lex_line(txt, next, l),
            LexStep::Emit { tok, next } => lex_line(txt, next, line),
            LexStep::Fail { error } => line,
        }
    }
}

/// The four tokens that close every token list: a statement terminator and
/// three empty tokens, so that a parser can look a few tokens ahead.
pub open spec fn end_tokens() -> Seq<TokenView> {
    seq![
        TokenView { string: ";"@, ty: TokenType::Simbol, line: None },
        TokenView { string: Seq::empty(), ty: TokenType::Simbol, line: None },
        TokenView { string: Seq::empty(), ty: TokenType::StrLiteral, line: None },
        TokenView { string: Seq::empty(), ty: TokenType::StrLiteral, line: None },
    ]
}

/// A run ends between its start and the end of the text.
pub proof fn lemma_run_end_bounds(txt: Seq<char>, pos: int, class: CharClass)
    requires
        0 <= pos <= txt.len(),
    ensures
        pos <= run_end(txt, pos, class) <= txt.len(),
    decreases txt.len() - pos,
{
    if pos < txt.len() && in_class(class, txt[pos]) {
        lemma_run_end_bounds(txt, pos + 1, class);
    }
}

/// The closing quote lies between the start of the search and the end of
/// the text.
pub proof fn lemma_closing_quote_bounds(txt: Seq<char>, pos: int)
    requires
        0 <= pos <= txt.len(),
    ensures
        pos <= closing_quote(txt, pos) <= txt.len(),
    decreases txt.len() - pos,
{
    if pos < txt.len() && txt[pos] != '"' {
        lemma_closing_quote_bounds(txt, pos + 1);
    }
}

/// A longer run of digits writes a number at least as large.
pub proof fn lemma_digits_value_grows(s: Seq<char>, k: int)
    requires
        0 <= k <= s.len(),
        forall|i: int| 0 <= i < s.len() ==> spec_is_digit(#[trigger] s[i]),
    ensures
        digits_value(s.subrange(0, k)) <= digits_value(s),
    decreases s.len() - k,
{
    if k < s.len() {
        let t = s.subrange(0, k + 1);
        assert(t.drop_last() =~= s.subrange(0, k));
        assert(t.last() == s[k]);
        assert(digits_value(t) >= digits_value(s.subrange(0, k)) * 10);
        lemma_digits_value_grows(s, k + 1);
    } else {
        assert(s.subrange(0, k) =~= s);
    }
}

/// The characters of `s`, one by one.
fn chars_of(s: &str) -> (chars: Vec<char>)
    ensures
        chars@ == s@,
{
    let mut chars: Vec<char> = Vec::new();
    let mut it = s.chars();
    let ghost mut done: Seq<char> = Seq::empty();
    loop
        invariant
            chars@ == done,
            done + it.remaining() == s@,
            it.obeys_prophetic_iter_laws(),
            it.decrease() is Some,
        decreases it.decrease()->0,
    {
        let ghost before = it;
        match it.next() {
            Some(c) => {
                proof {
                    next_postcondition(&before, &it, Some(c));
                    assert((done.push(c)) + it.remaining() =~= done + before.remaining());
                    done = done.push(c);
                }
                chars.push(c);
            },
            None => {
                proof {
                    next_postcondition(&before, &it, None);
                    assert(done =~= s@);
                }
                return chars;
            },
        }
    }
}

fn scan_run(chars: &Vec<char>, pos: usize, class: CharClass) -> (end: usize)
    requires
        pos <= chars@.len(),
    ensures
        end == run_end(chars@, pos as int, class),
        pos <= end <= chars@.len(),
{
    let mut i = pos;
    while i < chars.len()
        invariant
            pos <= i <= chars@.len(),
            run_end(chars@, i as int, class) == run_end(chars@, pos as int, class),
        decreases chars@.len() - i,
    {
        let c = chars[i];
        let inside = match class {
            CharClass::Digit => is_digit(c),
            CharClass::LetterOrDigit => is_letter(c) || is_digit(c),
            CharClass::NormalSymbol => is_normal_symbol(c),
        };
        if !inside {
            return i;
        }
        i += 1;
    }
    i
}

fn scan_quote(chars: &Vec<char>, pos: usize) -> (end: usize)
    requires
        pos <= chars@.len(),
    ensures
        end == closing_quote(chars@, pos as int),
        pos <= end <= chars@.len(),
{
    let mut i = pos;
    while i < chars.len()
        invariant
            pos <= i <= chars@.len(),
            closing_quote(chars@, i as int) == closing_quote(chars@, pos as int),
        decreases chars@.len() - i,
    {
        if chars[i] == '"' {
            return i;
        }
        i += 1;
    }
    i
}

fn unescaped(source: &str, chars: &Vec<char>, from: usize, to: usize) -> (text: String)
    requires
        chars@ == source@,
        from <= to <= chars@.len(),
    ensures
        text@ == unescape(chars@.subrange(from as int, to as int)),
{
    let mut text = String::new();
    let mut i = from;
    while i < to
        invariant
            from <= i <= to <= chars@.len(),
            chars@ == source@,
            text@ + unescape(chars@.subrange(i as int, to as int)) == unescape(
                chars@.subrange(from as int, to as int),
            ),
        decreases to - i,
    {
        let ghost rest = chars@.subrange(i as int, to as int);
        let ghost before = text@;
        if chars[i] == '\\' && i + 1 < to && chars[i + 1] == 'n' {
            proof {
                reveal_strlit("\n");
                assert(rest.skip(2) =~= chars@.subrange(i + 2, to as int));
            }
            text.append("\n");
            proof {
                assert("\n"@ =~= seq!['\n']);
                assert(text@ + unescape(chars@.subrange(i + 2, to as int)) =~= before + unescape(
                    rest,
                ));
            }
            i += 2;
        } else {
            proof {
                assert(rest.skip(1) =~= chars@.subrange(i + 1, to as int));
                assert(source@.subrange(i as int, i + 1) =~= seq![rest[0]]);
            }
            text.append(source.substring_char(i, i + 1));
            proof {
                assert(text@ + unescape(chars@.subrange(i + 1, to as int)) =~= before + unescape(
                    rest,
                ));
            }
            i += 1;
        }
    }
    proof {
        assert(chars@.subrange(i as int, to as int) =~= Seq::<char>::empty());
        assert(text@ =~= text@ + unescape(chars@.subrange(i as int, to as int)));
    }
    text
}

fn parse_digits(chars: &Vec<char>, from: usize, to: usize) -> (value: Option<i32>)
    requires
        from <= to <= chars@.len(),
        forall|i: int| from <= i < to ==> spec_is_digit(#[trigger] chars@[i]),
    ensures
        match value {
            Some(v) => v == digits_value(chars@.subrange(from as int, to as int)),
            None => digits_value(chars@.subrange(from as int, to as int)) > i32::MAX,
        },
{
    let ghost run = chars@.subrange(from as int, to as int);
    let mut acc: u64 = 0;
    let mut i = from;
    while i < to
        invariant
            from <= i <= to <= chars@.len(),
            run == chars@.subrange(from as int, to as int),
            forall|j: int| from <= j < to ==> spec_is_digit(#[trigger] chars@[j]),
            acc == digits_value(run.subrange(0, i - from)),
            acc <= i32::MAX,
        decreases to - i,
    {
        let c = chars[i];
        let d: u64 = (c as u32 - '0' as u32) as u64;
        proof {
            let t = run.subrange(0, i - from + 1);
            assert(t.drop_last() =~= run.subrange(0, i - from));
            assert(t.last() == c);
        }
        acc = acc * 10 + d;
        i += 1;
        if acc > 0x7fff_ffff {
            proof {
                lemma_digits_value_grows(run, i - from);
            }
            return None;
        }
    }
    proof {
        assert(run.subrange(0, i - from) =~= run);
    }
    Some(acc as i32)
}

/// Splits a text into tokens, one call of [`Lexer::lex`] at a time.
#[derive(Debug)]
pub struct Lexer {
    /// The text being read.
    pub txt: String,
    /// How many characters of it have been read.
    pub pos: usize,
    /// How many line feeds have been counted.
    pub line: i32,
    /// The tokens read so far.
    pub tokens: Vec<Token>,
}

impl Lexer {
    /// A lexer that has read nothing of `prg` yet.
    pub fn new(prg: String) -> (lexer: Self)
        ensures
            lexer.txt == prg,
            lexer.pos == 0,
            lexer.line == 0,
            lexer.tokens@.len() == 0,
    {
        Lexer { txt: prg, pos: 0, line: 0, tokens: Vec::new() }
    }

    /// Reads the rest of the text and appends its tokens, followed by the
    /// closing tokens of [`end_tokens`], to `tokens`. On an error nothing
    /// changes.
    pub fn lex(&mut self) -> (done: Result<(), LexError>)
        ensures
            final(self).txt == old(self).txt,
            match lex_tokens(old(self).txt@, old(self).pos as int, old(self).line as int) {
                Ok(toks) => {
                    &&& done is Ok
                    &&& tokens_view(final(self).tokens@) == tokens_view(old(self).tokens@) + toks
                        + end_tokens()
                    &&& final(self).pos == if old(self).pos < old(self).txt@.len() {
                        old(self).txt@.len()
                    } else {
                        old(self).pos as nat
                    }
                    &&& final(self).line == lex_line(
                        old(self).txt@,
                        old(self).pos as int,
                        old(self).line as int,
                    )
                },
                Err(e) => done == Err::<(), LexError>(e) && *final(self) == *old(self),
            },
    {
        let chars = chars_of(self.txt.as_str());
        let ghost txt = self.txt@;
        let ghost pos0 = self.pos as int;
        let ghost line0 = self.line as int;
        let mut toks: Vec<Token> = Vec::new();
        let mut pos = self.pos;
        let mut line = self.line;
        while pos < chars.len()
            invariant
                *self == *old(self),
                chars@ == txt,
                txt == self.txt@,
                pos0 == old(self).pos,
                line0 == old(self).line,
                pos0 <= pos,
                pos0 < txt.len() ==> pos <= txt.len(),
                pos0 >= txt.len() ==> pos == pos0 && line == line0,
                match lex_tokens(txt, pos as int, line as int) {
                    Ok(rest) => lex_tokens(txt, pos0, line0) == Ok::<Seq<TokenView>, LexError>(
                        tokens_view(toks@) + rest,
                    ),
                    Err(e) => lex_tokens(txt, pos0, line0) == Err::<Seq<TokenView>, LexError>(e),
                },
                lex_line(txt, pos as int, line as int) == lex_line(txt, pos0, line0),
            decreases txt.len() - pos,
        {
            let c = chars[pos];
            let ghost step = lex_step(txt, pos as int, line as int);
            let ghost seen = tokens_view(toks@);
            proof {
                lemma_lex_step_advances(txt, pos as int, line as int);
            }
            if is_whitespace(c) {
                if c == '\n' {
                    if line == i32::MAX {
                        return Err(LexError::TooManyLines);
                    }
                    line += 1;
                }
                pos += 1;
                continue ;
            }
            let start = pos;
            let tok = if c == '"' {
                let q = scan_quote(&chars, pos + 1);
                if q >= chars.len() {
                    return Err(LexError::UnterminatedString);
                }
                pos = q + 1;
                Token::new_with_line_num(
                    unescaped(self.txt.as_str(), &chars, start + 1, q),
                    TokenType::StrLiteral,
                    line,
                )
            } else {
                let ty = if is_one_char_symbol(c) {
                    pos += 1;
                    TokenType::Simbol
                } else if is_digit(c) {
                    pos = scan_run(&chars, pos + 1, CharClass::Digit);
                    proof {
                        lemma_run_is_in_class(txt, start + 1, CharClass::Digit);
                    }
                    match parse_digits(&chars, start, pos) {
                        Some(v) => TokenType::NumLiteral(v),
                        None => {
                            return Err(LexError::NumberTooLarge);
                        },
                    }
                } else if is_letter(c) {
                    pos = scan_run(&chars, pos + 1, CharClass::LetterOrDigit);
                    TokenType::Ident
                } else if is_normal_symbol(c) {
                    pos = scan_run(&chars, pos + 1, CharClass::NormalSymbol);
                    TokenType::Simbol
                } else {
                    return Err(LexError::UnexpectedChar);
                };
                let text = self.txt.as_str().substring_char(start, pos);
                Token::new_with_line_num(String::from_str(text), ty, line)
            };
            proof {
                assert(step == LexStep::Emit { tok: tok@, next: pos as int });
                assert(tokens_view(toks@.push(tok)) =~= seen.push(tok@));
                match lex_tokens(txt, pos as int, line as int) {
                    Ok(rest) => {
                        assert(seen + (seq![tok@] + rest) =~= seen.push(tok@) + rest);
                    },
                    Err(e) => {},
                }
            }
            toks.push(tok);
        }
        let ghost scanned = tokens_view(toks@);
        toks.push(Token::new(String::from_str(";"), TokenType::Simbol));
        toks.push(Token::new(String::new(), TokenType::Simbol));
        toks.push(Token::new(String::new(), TokenType::StrLiteral));
        toks.push(Token::new(String::new(), TokenType::StrLiteral));
        proof {
            assert(tokens_view(toks@) =~= scanned + end_tokens());
            assert(lex_tokens(txt, pos0, line0) == Ok::<Seq<TokenView>, LexError>(scanned)) by {
                assert(scanned + Seq::<TokenView>::empty() =~= scanned);
            }
        }
        let ghost before = tokens_view(self.tokens@);
        let ghost closed = toks@;
        self.tokens.append(&mut toks);
        proof {
            assert(self.tokens@ == old(self).tokens@ + closed);
            assert(tokens_view(self.tokens@) =~= before + tokens_view(closed));
            assert(tokens_view(self.tokens@) =~= before + scanned + end_tokens());
            assert(lex_line(txt, pos as int, line as int) == line);
        }
        self.pos = pos;
        self.line = line;
        Ok(())
    }
}

/// Every character of a run belongs to the run's class.
pub proof fn lemma_run_is_in_class(txt: Seq<char>, pos: int, class: CharClass)
    requires
        0 <= pos <= txt.len(),
    ensures
        forall|i: int| pos <= i < run_end(txt, pos, class) ==> in_class(class, #[trigger] txt[i]),
    decreases txt.len() - pos,
{
    if pos < txt.len() && in_class(class, txt[pos]) {
        lemma_run_is_in_class(txt, pos + 1, class);
    }
}

} // verus!
