use vstd::prelude::*;
use crate::num::{is_dig, parse_bits};
use crate::text::{chars_to_string, str_to_chars};
use crate::token::{Token, TokenV, toks_view};

verus! {

/// An advisory message from scanning; tokenization itself never fails.
#[derive(Debug)]
pub enum LexWarn {
    /// A character no token can start with was skipped.
    UnknownChar(char),
    /// A run of digits and dots did not read as a number; zero was used.
    InvalidNumber(String),
}

/// The mathematical image of a `LexWarn`.
pub enum LexWarnV {
    UnknownChar(char),
    InvalidNumber(Seq<char>),
}

impl View for LexWarn {
    type V = LexWarnV;

    open spec fn view(&self) -> LexWarnV {
        match self {
            LexWarn::UnknownChar(c) => LexWarnV::UnknownChar(*c),
            LexWarn::InvalidNumber(s) => LexWarnV::InvalidNumber(s@),
        }
    }
}

pub open spec fn warns_view(s: Seq<LexWarn>) -> Seq<LexWarnV> {
    Seq::new(s.len(), |i: int| s[i]@)
}

proof fn lemma_warn_step(a: Seq<LexWarnV>, b: Seq<LexWarnV>, c: Seq<LexWarnV>, d: Seq<LexWarnV>, wv: LexWarnV)
    requires
        a == b + seq![wv],
        d == seq![wv] + c,
    ensures
        a + c == b + d,
{
    assert(a + c =~= b + d);
}

proof fn lemma_warns_push(ws: Seq<LexWarn>, w: LexWarn)
    ensures
        warns_view(ws.push(w)) =~= warns_view(ws) + seq![w@],
{
    assert forall|i: int| 0 <= i < ws.len() + 1 implies warns_view(ws.push(w))[i] == (warns_view(
        ws,
    ) + seq![w@])[i] by {
        assert(warns_view(ws.push(w))[i] == ws.push(w)[i]@);
        if i < ws.len() {
            assert(ws.push(w)[i] == ws[i]);
            assert((warns_view(ws) + seq![w@])[i] == ws[i]@);
        } else {
            assert(ws.push(w)[i] == w);
        }
    }
}

/// The Unicode white-space code points, the set `char::is_whitespace`
/// accepts.
pub open spec fn is_space_c(c: char) -> bool {
    let u = c as u32;
    u == 0x20 || (0x9 <= u && u <= 0xD) || u == 0x85 || u == 0xA0 || u == 0x1680 || (0x2000 <= u
        && u <= 0x200A) || u == 0x2028 || u == 0x2029 || u == 0x202F || u == 0x205F || u == 0x3000
}

/// An ASCII letter or underscore, which may start an identifier.
pub open spec fn is_ident_start_c(c: char) -> bool {
    let u = c as u32;
    (0x41 <= u && u <= 0x5A) || (0x61 <= u && u <= 0x7A) || u == 0x5F
}

/// An ASCII letter, digit or underscore, which may continue an identifier.
pub open spec fn is_ident_c(c: char) -> bool {
    is_ident_start_c(c) || is_dig(c)
}

/// A digit or decimal point, which may continue a number literal.
pub open spec fn is_num_c(c: char) -> bool {
    is_dig(c) || c == '.'
}

/// What a backslash escape stands for: `n` and `t` become the control
/// characters, every other escaped character stands for itself.
pub open spec fn esc_char(c: char) -> char {
    match c {
        'n' => '\n',
        't' => '\t',
        _ => c,
    }
}

fn ch_is_space(c: char) -> (r: bool)
    ensures
        r == is_space_c(c),
{
    let u = c as u32;
    u == 0x20 || (0x9 <= u && u <= 0xD) || u == 0x85 || u == 0xA0 || u == 0x1680 || (0x2000 <= u
        && u <= 0x200A) || u == 0x2028 || u == 0x2029 || u == 0x202F || u == 0x205F || u == 0x3000
}

fn ch_is_ident_start(c: char) -> (r: bool)
    ensures
        r == is_ident_start_c(c),
{
    let u = c as u32;
    (0x41 <= u && u <= 0x5A) || (0x61 <= u && u <= 0x7A) || u == 0x5F
}

fn ch_is_ident(c: char) -> (r: bool)
    ensures
        r == is_ident_c(c),
{
    let u = c as u32;
    ch_is_ident_start(c) || (0x30 <= u && u <= 0x39)
}

fn ch_is_dig(c: char) -> (r: bool)
    ensures
        r == is_dig(c),
{
    let u = c as u32;
    0x30 <= u && u <= 0x39
}

fn ch_is_num(c: char) -> (r: bool)
    ensures
        r == is_num_c(c),
{
    ch_is_dig(c) || c == '.'
}

fn esc_exec(c: char) -> (r: char)
    ensures
        r == esc_char(c),
{
    match c {
        'n' => '\n',
        't' => '\t',
        _ => c,
    }
}

/// Where the run of identifier characters that starts at `i` ends.
pub open spec fn scan_ident_end(s: Seq<char>, i: int) -> int
    decreases s.len() - i,
{
    if 0 <= i < s.len() && is_ident_c(s[i]) {
        scan_ident_end(s, i + 1)
    } else {
        i
    }
}

/// Where the run of digits and dots that starts at `i` ends.
pub open spec fn scan_num_end(s: Seq<char>, i: int) -> int
    decreases s.len() - i,
{
    if 0 <= i < s.len() && is_num_c(s[i]) {
        scan_num_end(s, i + 1)
    } else {
        i
    }
}

/// The decoded contents of a string literal whose body starts at `i`, and
/// the position just past its closing quote; an unterminated literal runs
/// to the end of the input.
pub open spec fn scan_string(s: Seq<char>, i: int, delim: char) -> (Seq<char>, int)
    decreases s.len() - i,
{
    if !(0 <= i < s.len()) {
        (Seq::empty(), i)
    } else if s[i] == delim {
        (Seq::empty(), i + 1)
    } else if s[i] == '\\' {
        if i + 1 < s.len() {
            let r = scan_string(s, i + 2, delim);
            (seq![esc_char(s[i + 1])] + r.0, r.1)
        } else {
            (Seq::empty(), s.len() as int)
        }
    } else {
        let r = scan_string(s, i + 1, delim);
        (seq![s[i]] + r.0, r.1)
    }
}

/// The position just past the newline that ends a line comment, or the end
/// of the input.
pub open spec fn skip_comment_end(s: Seq<char>, i: int) -> int
    decreases s.len() - i,
{
    if !(0 <= i < s.len()) {
        i
    } else if s[i] == '\n' {
        i + 1
    } else {
        skip_comment_end(s, i + 1)
    }
}

proof fn lemma_scan_ident_rng(s: Seq<char>, i: int)
    requires
        0 <= i <= s.len(),
    ensures
        i <= scan_ident_end(s, i) <= s.len(),
    decreases s.len() - i,
{
    if i < s.len() && is_ident_c(s[i]) {
        lemma_scan_ident_rng(s, i + 1);
    }
}

proof fn lemma_scan_num_rng(s: Seq<char>, i: int)
    requires
        0 <= i <= s.len(),
    ensures
        i <= scan_num_end(s, i) <= s.len(),
    decreases s.len() - i,
{
    if i < s.len() && is_num_c(s[i]) {
        lemma_scan_num_rng(s, i + 1);
    }
}

proof fn lemma_scan_string_rng(s: Seq<char>, i: int, delim: char)
    requires
        0 <= i <= s.len(),
    ensures
        i <= scan_string(s, i, delim).1 <= s.len() + 1,
        i < s.len() ==> scan_string(s, i, delim).1 <= s.len(),
    decreases s.len() - i,
{
    if 0 <= i < s.len() && s[i] != delim {
        if s[i] == '\\' {
            if i + 1 < s.len() {
                lemma_scan_string_rng(s, i + 2, delim);
            }
        } else {
            lemma_scan_string_rng(s, i + 1, delim);
        }
    }
}

proof fn lemma_skip_comment_rng(s: Seq<char>, i: int)
    requires
        0 <= i <= s.len(),
    ensures
        i <= skip_comment_end(s, i) <= s.len(),
    decreases s.len() - i,
{
    if 0 <= i < s.len() && s[i] != '\n' {
        lemma_skip_comment_rng(s, i + 1);
    }
}

proof fn lemma_scan_string_ge(s: Seq<char>, i: int, delim: char)
    ensures
        scan_string(s, i, delim).1 >= i,
    decreases s.len() - i,
{
    if 0 <= i < s.len() && s[i] != delim {
        if s[i] == '\\' {
            if i + 1 < s.len() {
                lemma_scan_string_ge(s, i + 2, delim);
            }
        } else {
            lemma_scan_string_ge(s, i + 1, delim);
        }
    }
}

proof fn lemma_skip_comment_ge(s: Seq<char>, i: int)
    ensures
        skip_comment_end(s, i) >= i,
    decreases s.len() - i,
{
    if 0 <= i < s.len() && s[i] != '\n' {
        lemma_skip_comment_ge(s, i + 1);
    }
}

/// The tokens and the advisory warnings that scanning the input from
/// position `i` produces, in order; the token list always ends with the
/// end-of-input marker.
pub open spec fn spec_lex(s: Seq<char>, i: int) -> (Seq<TokenV>, Seq<LexWarnV>)
    decreases s.len() - i,
{
    if !(0 <= i < s.len()) {
        (seq![TokenV::Eof], Seq::empty())
    } else {
        let c = s[i];
        if is_space_c(c) {
            spec_lex(s, i + 1)
        } else if is_ident_start_c(c) {
            let e = scan_ident_end(s, i);
            let r = spec_lex(s, if i < e <= s.len() { e } else { i + 1 });
            (seq![TokenV::Identifier(s.subrange(i, e))] + r.0, r.1)
        } else if is_dig(c) {
            let e = scan_num_end(s, i);
            let text = s.subrange(i, e);
            let r = spec_lex(s, if i < e <= s.len() { e } else { i + 1 });
            match parse_bits(text) {
                Some(b) => (seq![TokenV::Number(b)] + r.0, r.1),
                None => (seq![TokenV::Number(0)] + r.0, seq![LexWarnV::InvalidNumber(text)] + r.1),
            }
        } else if c == '"' || c == '\'' {
            let p = scan_string(s, i + 1, c);
            let r = spec_lex(s, if i < p.1 <= s.len() { p.1 } else { i + 1 });
            (seq![TokenV::Str(p.0)] + r.0, r.1)
        } else if c == '/' {
            if i + 1 < s.len() && s[i + 1] == '/' {
                let e = skip_comment_end(s, i + 1);
                spec_lex(s, if i < e <= s.len() { e } else { i + 1 })
            } else {
                let r = spec_lex(s, i + 1);
                (seq![TokenV::Slash] + r.0, r.1)
            }
        } else if c == '+' {
            let r = spec_lex(s, i + 1);
            (seq![TokenV::Plus] + r.0, r.1)
        } else if c == '-' {
            let r = spec_lex(s, i + 1);
            (seq![TokenV::Minus] + r.0, r.1)
        } else if c == '*' {
            let r = spec_lex(s, i + 1);
            (seq![TokenV::Star] + r.0, r.1)
        } else if c == '=' {
            let r = spec_lex(s, i + 1);
            (seq![TokenV::Equal] + r.0, r.1)
        } else if c == '(' {
            let r = spec_lex(s, i + 1);
            (seq![TokenV::LParen] + r.0, r.1)
        } else if c == ')' {
            let r = spec_lex(s, i + 1);
            (seq![TokenV::RParen] + r.0, r.1)
        } else if c == ',' {
            let r = spec_lex(s, i + 1);
            (seq![TokenV::Comma] + r.0, r.1)
        } else if c == ';' {
            let r = spec_lex(s, i + 1);
            (seq![TokenV::Semicolon] + r.0, r.1)
        } else {
            let r = spec_lex(s, i + 1);
            (r.0, seq![LexWarnV::UnknownChar(c)] + r.1)
        }
    }
}

/// The scanner: one left-to-right pass over the characters of the source
/// text, with one character of lookahead.
pub struct Lexer {
    input: Vec<char>,
    pos: usize,
    warnings: Vec<LexWarn>,
}

impl Lexer {
    /// The characters being scanned.
    pub closed spec fn input_sq(&self) -> Seq<char> {
        self.input@
    }

    /// The current scan position.
    pub closed spec fn at(&self) -> int {
        self.pos as int
    }

    /// The warnings recorded so far.
    pub closed spec fn warns(&self) -> Seq<LexWarnV> {
        warns_view(self.warnings@)
    }

    /// The position never runs past the end of the input.
    pub closed spec fn wf(&self) -> bool {
        self.pos <= self.input.len()
    }

    pub fn new(source: &str) -> (r: Lexer)
        ensures
            r.wf(),
            r.input_sq() == source@,
            r.at() == 0,
            r.warns() == Seq::<LexWarnV>::empty(),
    {
        let r = Lexer { input: str_to_chars(source), pos: 0, warnings: Vec::new() };
        proof {
            assert(r.warns() =~= Seq::<LexWarnV>::empty());
        }
        r
    }

    /// The warnings recorded while scanning, in the order they arose.
    pub fn warnings(&self) -> (r: &Vec<LexWarn>)
        ensures
            warns_view(r@) == self.warns(),
    {
        &self.warnings
    }

    /// The character at the scan position, if any.
    pub fn peek_char(&self) -> (r: Option<char>)
        ensures
            r == (if 0 <= self.at() < self.input_sq().len() {
                Some(self.input_sq()[self.at()])
            } else {
                None::<char>
            }),
    {
        if self.pos < self.input.len() {
            Some(self.input[self.pos])
        } else {
            None
        }
    }

    /// Returns the character at the scan position and moves past it.
    pub fn next_char(&mut self) -> (r: Option<char>)
        ensures
            final(self).input_sq() == old(self).input_sq(),
            final(self).warns() == old(self).warns(),
            old(self).wf() ==> final(self).wf(),
            r == (if 0 <= old(self).at() < old(self).input_sq().len() {
                Some(old(self).input_sq()[old(self).at()])
            } else {
                None::<char>
            }),
            final(self).at() == (if old(self).at() < old(self).input_sq().len() {
                old(self).at() + 1
            } else {
                old(self).at()
            }),
    {
        let ch = self.peek_char();
        if self.pos < self.input.len() {
            self.pos = self.pos + 1;
        }
        ch
    }

    /// Discards characters through the end of the current line.
    pub fn skip_line_comment(&mut self)
        requires
            old(self).wf(),
        ensures
            final(self).wf(),
            final(self).input_sq() == old(self).input_sq(),
            final(self).warns() == old(self).warns(),
            final(self).at() == skip_comment_end(old(self).input_sq(), old(self).at()),
    {
        loop
            invariant_except_break
                self.wf(),
                self.input_sq() == old(self).input_sq(),
                self.warns() == old(self).warns(),
                skip_comment_end(self.input_sq(), self.at()) == skip_comment_end(
                    old(self).input_sq(),
                    old(self).at(),
                ),
            ensures
                self.wf(),
                self.input_sq() == old(self).input_sq(),
                self.warns() == old(self).warns(),
                self.at() == skip_comment_end(old(self).input_sq(), old(self).at()),
            decreases self.input_sq().len() - self.at(),
        {
            let p = self.peek_char();
            match p {
                None => {
                    break ;
                },
                Some(c) => {
                    let _ = self.next_char();
                    if c == '\n' {
                        break ;
                    }
                },
            }
        }
    }

    /// Scans a maximal run of identifier characters into an identifier
    /// token.
    fn lex_identifier(&mut self) -> (t: Token)
        requires
            old(self).wf(),
        ensures
            final(self).wf(),
            final(self).input_sq() == old(self).input_sq(),
            final(self).warns() == old(self).warns(),
            final(self).at() == scan_ident_end(old(self).input_sq(), old(self).at()),
            t@ == TokenV::Identifier(
                old(self).input_sq().subrange(old(self).at(), final(self).at()),
            ),
    {
        let mut ident: Vec<char> = Vec::new();
        loop
            invariant_except_break
                self.wf(),
                self.input_sq() == old(self).input_sq(),
                self.warns() == old(self).warns(),
                old(self).at() <= self.at(),
                ident@ == self.input_sq().subrange(old(self).at(), self.at()),
                scan_ident_end(self.input_sq(), self.at()) == scan_ident_end(
                    old(self).input_sq(),
                    old(self).at(),
                ),
            ensures
                self.wf(),
                self.input_sq() == old(self).input_sq(),
                self.warns() == old(self).warns(),
                old(self).at() <= self.at(),
                self.at() == scan_ident_end(old(self).input_sq(), old(self).at()),
                ident@ == self.input_sq().subrange(old(self).at(), self.at()),
            decreases self.input_sq().len() - self.at(),
        {
            let p = self.peek_char();
            match p {
                Some(c) => {
                    if ch_is_ident(c) {
                        ident.push(c);
                        let _ = self.next_char();
                        proof {
                            assert(self.input_sq().subrange(old(self).at(), self.at())
                                =~= self.input_sq().subrange(old(self).at(), self.at() - 1).push(
                                self.input_sq()[self.at() - 1],
                            ));
                        }
                    } else {
                        break ;
                    }
                },
                None => {
                    break ;
                },
            }
        }
        Token::Identifier(chars_to_string(&ident))
    }

    /// Scans a maximal run of digits and dots and reads it as a number;
    /// text that does not read as a number becomes zero plus a warning.
    fn lex_number(&mut self) -> (t: Token)
        requires
            old(self).wf(),
        ensures
            final(self).wf(),
            final(self).input_sq() == old(self).input_sq(),
            final(self).at() == scan_num_end(old(self).input_sq(), old(self).at()),
            ({
                let text = old(self).input_sq().subrange(old(self).at(), final(self).at());
                match parse_bits(text) {
                    Some(b) => t@ == TokenV::Number(b) && final(self).warns() == old(self).warns(),
                    None => t@ == TokenV::Number(0) && final(self).warns() == old(self).warns()
                        + seq![LexWarnV::InvalidNumber(text)],
                }
            }),
    {
        let mut num: Vec<char> = Vec::new();
        loop
            invariant_except_break
                self.wf(),
                self.input_sq() == old(self).input_sq(),
                self.warns() == old(self).warns(),
                old(self).at() <= self.at(),
                num@ == self.input_sq().subrange(old(self).at(), self.at()),
                scan_num_end(self.input_sq(), self.at()) == scan_num_end(
                    old(self).input_sq(),
                    old(self).at(),
                ),
            ensures
                self.wf(),
                self.input_sq() == old(self).input_sq(),
                self.warns() == old(self).warns(),
                old(self).at() <= self.at(),
                self.at() == scan_num_end(old(self).input_sq(), old(self).at()),
                num@ == self.input_sq().subrange(old(self).at(), self.at()),
            decreases self.input_sq().len() - self.at(),
        {
            let p = self.peek_char();
            match p {
                Some(c) => {
                    if ch_is_num(c) {
                        num.push(c);
                        let _ = self.next_char();
                        proof {
                            assert(self.input_sq().subrange(old(self).at(), self.at())
                                =~= self.input_sq().subrange(old(self).at(), self.at() - 1).push(
                                self.input_sq()[self.at() - 1],
                            ));
                        }
                    } else {
                        break ;
                    }
                },
                None => {
                    break ;
                },
            }
        }
        match crate::num::num_parse(&num) {
            Some(b) => Token::Number(b),
            None => {
                let w = LexWarn::InvalidNumber(chars_to_string(&num));
                let ghost wv = w@;
                self.warnings.push(w);
                proof {
                    assert(self.warns() =~= old(self).warns() + seq![wv]);
                }
                Token::Number(0)
            },
        }
    }

    /// Scans a string literal body up to its closing delimiter, decoding
    /// backslash escapes; an unterminated literal keeps what was collected.
    fn lex_string(&mut self, delimiter: char) -> (t: Token)
        requires
            old(self).wf(),
        ensures
            final(self).wf(),
            final(self).input_sq() == old(self).input_sq(),
            final(self).warns() == old(self).warns(),
            final(self).at() == scan_string(old(self).input_sq(), old(self).at(), delimiter).1,
            t@ == TokenV::Str(scan_string(old(self).input_sq(), old(self).at(), delimiter).0),
    {
        let mut result: Vec<char> = Vec::new();
        loop
            invariant_except_break
                self.wf(),
                self.input_sq() == old(self).input_sq(),
                self.warns() == old(self).warns(),
                scan_string(old(self).input_sq(), old(self).at(), delimiter).0 == result@
                    + scan_string(self.input_sq(), self.at(), delimiter).0,
                scan_string(old(self).input_sq(), old(self).at(), delimiter).1 == scan_string(
                    self.input_sq(),
                    self.at(),
                    delimiter,
                ).1,
            ensures
                self.wf(),
                self.input_sq() == old(self).input_sq(),
                self.warns() == old(self).warns(),
                self.at() == scan_string(old(self).input_sq(), old(self).at(), delimiter).1,
                result@ == scan_string(old(self).input_sq(), old(self).at(), delimiter).0,
            decreases self.input_sq().len() - self.at(),
        {
            let p = self.peek_char();
            match p {
                None => {
                    proof {
                        assert(result@ + scan_string(self.input_sq(), self.at(), delimiter).0
                            =~= result@);
                    }
                    break ;
                },
                Some(c) => {
                    if c == delimiter {
                        let _ = self.next_char();
                        proof {
                            assert(result@ + Seq::<char>::empty() =~= result@);
                        }
                        break ;
                    } else if c == '\\' {
                        let ghost pre = self.at();
                        let _ = self.next_char();
                        let e2 = self.next_char();
                        match e2 {
                            Some(escaped) => {
                                result.push(esc_exec(escaped));
                                proof {
                                    let s = self.input_sq();
                                    assert((seq![esc_char(s[pre + 1])] + scan_string(
                                        s,
                                        pre + 2,
                                        delimiter,
                                    ).0) =~= seq![esc_char(s[pre + 1])] + scan_string(
                                        s,
                                        self.at(),
                                        delimiter,
                                    ).0);
                                    assert(result@.drop_last() + (seq![esc_char(s[pre + 1])]
                                        + scan_string(s, self.at(), delimiter).0) =~= result@
                                        + scan_string(s, self.at(), delimiter).0);
                                }
                            },
                            None => {
                                proof {
                                    assert(result@ + scan_string(
                                        self.input_sq(),
                                        self.at(),
                                        delimiter,
                                    ).0 =~= result@);
                                }
                            },
                        }
                    } else {
                        result.push(c);
                        let _ = self.next_char();
                        proof {
                            let s = self.input_sq();
                            assert(result@.drop_last() + (seq![s[self.at() - 1]] + scan_string(
                                s,
                                self.at(),
                                delimiter,
                            ).0) =~= result@ + scan_string(s, self.at(), delimiter).0);
                        }
                    }
                },
            }
        }
        Token::Str(chars_to_string(&result))
    }

    /// One pass over the whole input: the token sequence it denotes,
    /// always ending with the end-of-input marker.  Unknown characters and
    /// unreadable numbers are recorded as warnings, never as failures.
    #[verifier::rlimit(100)]
    pub fn tokenize(&mut self) -> (tokens: Vec<Token>)
        requires
            old(self).wf(),
        ensures
            final(self).wf(),
            final(self).input_sq() == old(self).input_sq(),
            toks_view(tokens@) == spec_lex(old(self).input_sq(), old(self).at()).0,
            final(self).warns() == old(self).warns() + spec_lex(
                old(self).input_sq(),
                old(self).at(),
            ).1,
    {
        let mut tokens: Vec<Token> = Vec::new();
        loop
            invariant_except_break
                self.wf(),
                self.input_sq() == old(self).input_sq(),
                toks_view(tokens@) + spec_lex(self.input_sq(), self.at()).0 == spec_lex(
                    old(self).input_sq(),
                    old(self).at(),
                ).0,
                self.warns() + spec_lex(self.input_sq(), self.at()).1 == old(self).warns()
                    + spec_lex(old(self).input_sq(), old(self).at()).1,
            ensures
                self.wf(),
                self.input_sq() == old(self).input_sq(),
                self.at() >= self.input_sq().len(),
                toks_view(tokens@) + spec_lex(self.input_sq(), self.at()).0 == spec_lex(
                    old(self).input_sq(),
                    old(self).at(),
                ).0,
                self.warns() + spec_lex(self.input_sq(), self.at()).1 == old(self).warns()
                    + spec_lex(old(self).input_sq(), old(self).at()).1,
            decreases self.input_sq().len() - self.at(),
        {
            let ghost pre = *self;
            let ghost inp = pre.input_sq();
            let p = self.peek_char();
            match p {
                None => {
                    break ;
                },
                Some(ch) => {
                    if ch_is_space(ch) {
                        let _ = self.next_char();
                        proof {
                            assert(spec_lex(inp, pre.at()) == spec_lex(inp, self.at()));
                        }
                    } else if ch_is_ident_start(ch) {
                        let t = self.lex_identifier();
                        let ghost tv = t@;
                        tokens.push(t);
                        proof {
                            lemma_scan_ident_rng(inp, pre.at() + 1);
                            assert(scan_ident_end(inp, pre.at()) == scan_ident_end(
                                inp,
                                pre.at() + 1,
                            ));
                            assert(spec_lex(inp, pre.at()).0 == seq![tv] + spec_lex(
                                inp,
                                self.at(),
                            ).0);
                            lemma_tok_push(tokens@, tv, spec_lex(inp, self.at()).0);
                        }
                    } else if ch_is_dig(ch) {
                        let t = self.lex_number();
                        let ghost tv = t@;
                        tokens.push(t);
                        proof {
                            lemma_scan_num_rng(inp, pre.at() + 1);
                            assert(scan_num_end(inp, pre.at()) == scan_num_end(inp, pre.at() + 1));
                            let e = scan_num_end(inp, pre.at());
                            let text = inp.subrange(pre.at(), e);
                            match parse_bits(text) {
                                Some(b) => {
                                    assert(spec_lex(inp, pre.at()).0 == seq![tv] + spec_lex(
                                        inp,
                                        self.at(),
                                    ).0);
                                    assert(spec_lex(inp, pre.at()).1 == spec_lex(
                                        inp,
                                        self.at(),
                                    ).1);
                                },
                                None => {
                                    assert(spec_lex(inp, pre.at()).0 == seq![tv] + spec_lex(
                                        inp,
                                        self.at(),
                                    ).0);
                                    assert(spec_lex(inp, pre.at()).1 == seq![
                                        LexWarnV::InvalidNumber(text)
                                    ] + spec_lex(inp, self.at()).1);
                                    assert((pre.warns() + seq![LexWarnV::InvalidNumber(text)])
                                        + spec_lex(inp, self.at()).1 =~= pre.warns() + (seq![
                                        LexWarnV::InvalidNumber(text)
                                    ] + spec_lex(inp, self.at()).1));
                                    assert(self.warns() + spec_lex(inp, self.at()).1 == pre.warns()
                                        + spec_lex(inp, pre.at()).1);
                                },
                            }
                            lemma_tok_push(tokens@, tv, spec_lex(inp, self.at()).0);
                        }
                    } else if ch == '"' || ch == '\'' {
                        let _ = self.next_char();
                        let t = self.lex_string(ch);
                        let ghost tv = t@;
                        tokens.push(t);
                        proof {
                            let q = scan_string(inp, pre.at() + 1, ch);
                            if pre.at() + 1 < inp.len() {
                                lemma_scan_string_rng(inp, pre.at() + 1, ch);
                            } else {
                                assert(q.1 == pre.at() + 1);
                            }
                            assert(pre.at() < q.1 <= inp.len());
                            assert(spec_lex(inp, pre.at()).0 == seq![tv] + spec_lex(
                                inp,
                                self.at(),
                            ).0);
                            lemma_tok_push(tokens@, tv, spec_lex(inp, self.at()).0);
                        }
                    } else if ch == '/' {
                        let _ = self.next_char();
                        let p2 = self.peek_char();
                        let mut slash = true;
                        match p2 {
                            Some(c2) => {
                                if c2 == '/' {
                                    self.skip_line_comment();
                                    proof {
                                        lemma_skip_comment_rng(inp, pre.at() + 1);
                                        assert(skip_comment_end(inp, pre.at() + 1) > pre.at());
                                        assert(spec_lex(inp, pre.at()) == spec_lex(
                                            inp,
                                            self.at(),
                                        ));
                                    }
                                    slash = false;
                                }
                            },
                            None => {},
                        }
                        if slash {
                            tokens.push(Token::Slash);
                            proof {
                                assert(spec_lex(inp, pre.at()).0 == seq![TokenV::Slash]
                                    + spec_lex(inp, self.at()).0);
                                lemma_tok_push(tokens@, TokenV::Slash, spec_lex(inp, self.at()).0);
                            }
                        }
                    } else {
                        let symbol = if ch == '+' {
                            Some(Token::Plus)
                        } else if ch == '-' {
                            Some(Token::Minus)
                        } else if ch == '*' {
                            Some(Token::Star)
                        } else if ch == '=' {
                            Some(Token::Equal)
                        } else if ch == '(' {
                            Some(Token::LParen)
                        } else if ch == ')' {
                            Some(Token::RParen)
                        } else if ch == ',' {
                            Some(Token::Comma)
                        } else if ch == ';' {
                            Some(Token::Semicolon)
                        } else {
                            None
                        };
                        match symbol {
                            Some(t) => {
                                let ghost tv = t@;
                                let _ = self.next_char();
                                tokens.push(t);
                                proof {
                                    assert(spec_lex(inp, pre.at()).0 == seq![tv] + spec_lex(
                                        inp,
                                        self.at(),
                                    ).0);
                                    lemma_tok_push(tokens@, tv, spec_lex(inp, self.at()).0);
                                }
                            },
                            None => {
                                let w = LexWarn::UnknownChar(ch);
                                let ghost wv = w@;
                                self.warnings.push(w);
                                proof {
                                    lemma_warns_push(pre.warnings@, w);
                                    assert(self.warns() =~= pre.warns() + seq![wv]);
                                }
                                let _ = self.next_char();
                                proof {
                                    lemma_warn_step(
                                        self.warns(),
                                        pre.warns(),
                                        spec_lex(inp, self.at()).1,
                                        spec_lex(inp, pre.at()).1,
                                        wv,
                                    );
                                }
                            },
                        }
                    }
                },
            }
        }
        tokens.push(Token::Eof);
        proof {
            let inp = old(self).input_sq();
            assert(spec_lex(inp, self.at()).0 == seq![TokenV::Eof]);
            assert(spec_lex(inp, self.at()).1 == Seq::<LexWarnV>::empty());
            lemma_tok_push(tokens@, TokenV::Eof, Seq::<TokenV>::empty());
            assert(toks_view(tokens@.drop_last()) + seq![TokenV::Eof] =~= toks_view(
                tokens@.drop_last(),
            ) + spec_lex(inp, self.at()).0);
            assert(toks_view(tokens@) + Seq::<TokenV>::empty() =~= toks_view(tokens@));
            assert(self.warns() + Seq::<LexWarnV>::empty() =~= self.warns());
        }
        tokens
    }
}

/// Pushing a token onto the accumulator and popping its image off the
/// front of the remainder leaves the concatenation unchanged.
proof fn lemma_tok_push(tokens: Seq<Token>, tv: TokenV, rest: Seq<TokenV>)
    requires
        tokens.len() > 0,
        tokens.last()@ == tv,
    ensures
        toks_view(tokens) + rest =~= toks_view(tokens.drop_last()) + (seq![tv] + rest),
{
    assert(toks_view(tokens) =~= toks_view(tokens.drop_last()).push(tv));
    assert(toks_view(tokens.drop_last()).push(tv) + rest =~= toks_view(tokens.drop_last()) + (
    seq![tv] + rest));
}

} // verus!
