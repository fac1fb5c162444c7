//! Turns source text into tokens that carry their place in the source.
use vstd::prelude::*;
use vstd::utf8::{encode_utf8, encode_scalar};
use crate::chars::{
    whitespace, alphabetic, alphanumeric, is_space, is_letter, is_letter_or_digit, string_of,
    text_is,
};
use crate::num::{Num, literal_micros, literal_value, is_digit};

verus! {

/// Where a token stands: byte offsets of its start and end, and the line and
/// column (both counted from 1) of its start.
#[derive(Clone, Copy, Debug, PartialEq, Eq)]
pub struct Span {
    pub start: usize,
    pub end: usize,
    pub line: usize,
    pub column: usize,
}

/// A lexeme of the source, classified, with where it stands.
#[derive(Clone, Debug, PartialEq)]
pub struct Token {
    pub kind: TokenKind,
    pub span: Span,
}

/// The kinds of token: keywords, identifiers, numbers, symbols, comments and
/// the end of input.
#[derive(Clone, Debug, PartialEq)]
pub enum TokenKind {
    Players,
    State,
    Baller,
    Position,
    Action,
    Move,
    Screen,
    Pass,
    Before,
    After,
    Middle,
    Identifier(String),
    Number(Num),
    Equals,
    LBrace,
    RBrace,
    LParenthesis,
    RParenthesis,
    Comma,
    Arrow,
    Colon,
    Comment(String),
    EOF,
}

impl TokenKind {
    /// A copy of the kind.
    pub fn duplicate(&self) -> (r: TokenKind)
        ensures
            r == *self,
    {
        match self {
            TokenKind::Players => TokenKind::Players,
            TokenKind::State => TokenKind::State,
            TokenKind::Baller => TokenKind::Baller,
            TokenKind::Position => TokenKind::Position,
            TokenKind::Action => TokenKind::Action,
            TokenKind::Move => TokenKind::Move,
            TokenKind::Screen => TokenKind::Screen,
            TokenKind::Pass => TokenKind::Pass,
            TokenKind::Before => TokenKind::Before,
            TokenKind::After => TokenKind::After,
            TokenKind::Middle => TokenKind::Middle,
            TokenKind::Identifier(t) => TokenKind::Identifier(t.clone()),
            TokenKind::Number(n) => TokenKind::Number(*n),
            TokenKind::Equals => TokenKind::Equals,
            TokenKind::LBrace => TokenKind::LBrace,
            TokenKind::RBrace => TokenKind::RBrace,
            TokenKind::LParenthesis => TokenKind::LParenthesis,
            TokenKind::RParenthesis => TokenKind::RParenthesis,
            TokenKind::Comma => TokenKind::Comma,
            TokenKind::Arrow => TokenKind::Arrow,
            TokenKind::Colon => TokenKind::Colon,
            TokenKind::Comment(t) => TokenKind::Comment(t.clone()),
            TokenKind::EOF => TokenKind::EOF,
        }
    }
}

impl Token {
    /// A copy of the token.
    pub fn duplicate(&self) -> (r: Token)
        ensures
            r == *self,
    {
        Token { kind: self.kind.duplicate(), span: self.span }
    }
}

/// Bytes of the UTF-8 encoding of a character.
pub open spec fn utf8_width(c: char) -> nat {
    if (c as u32) < 0x80 {
        1
    } else if (c as u32) < 0x800 {
        2
    } else if (c as u32) < 0x10000 {
        3
    } else {
        4
    }
}

/// Byte offset of the character at index `i`.
pub open spec fn byte_offset(s: Seq<char>, i: int) -> nat
    decreases i,
{
    if i <= 0 {
        0
    } else {
        byte_offset(s, i - 1) + utf8_width(s[i - 1])
    }
}

/// Line and column, both from 1, of the character at index `i`.
pub open spec fn line_col(s: Seq<char>, i: int) -> (nat, nat)
    decreases i,
{
    if i <= 0 {
        (1, 1)
    } else {
        let (l, c) = line_col(s, i - 1);
        if s[i - 1] == '\n' {
            (l + 1, 1)
        } else {
            (l, c + 1)
        }
    }
}

/// The span of the text `s[i..e]`.
pub open spec fn span_of(s: Seq<char>, i: int, e: int) -> Span {
    Span {
        start: byte_offset(s, i) as usize,
        end: byte_offset(s, e) as usize,
        line: line_col(s, i).0 as usize,
        column: line_col(s, i).1 as usize,
    }
}

/// The first index at or after `i` that holds no whitespace.
pub open spec fn skip_blank(s: Seq<char>, i: int) -> int
    decreases s.len() - i,
{
    if 0 <= i < s.len() && whitespace(s[i]) {
        skip_blank(s, i + 1)
    } else {
        i
    }
}

pub open spec fn in_number(c: char) -> bool {
    is_digit(c) || c == '.' || c == '-'
}

pub open spec fn in_identifier(c: char) -> bool {
    alphanumeric(c) || c == '_'
}

/// The end of the run of number characters from `i`.
pub open spec fn number_end(s: Seq<char>, i: int) -> int
    decreases s.len() - i,
{
    if 0 <= i < s.len() && in_number(s[i]) {
        number_end(s, i + 1)
    } else {
        i
    }
}

/// The end of the run of identifier characters from `i`.
pub open spec fn identifier_end(s: Seq<char>, i: int) -> int
    decreases s.len() - i,
{
    if 0 <= i < s.len() && in_identifier(s[i]) {
        identifier_end(s, i + 1)
    } else {
        i
    }
}

/// The end of the line from `i`, before its newline.
pub open spec fn line_end(s: Seq<char>, i: int) -> int
    decreases s.len() - i,
{
    if 0 <= i < s.len() && s[i] != '\n' {
        line_end(s, i + 1)
    } else {
        i
    }
}

pub open spec fn is_symbol(c: char) -> bool {
    c == '=' || c == '{' || c == '}' || c == '(' || c == ')' || c == ',' || c == ':'
}

pub open spec fn char_at_is(s: Seq<char>, i: int, c: char) -> bool {
    0 <= i < s.len() && s[i] == c
}

/// `-` starts an arrow when `>` follows it.
pub open spec fn starts_arrow(s: Seq<char>, i: int) -> bool {
    char_at_is(s, i + 1, '>')
}

/// `-` starts a number when a digit follows it.
pub open spec fn starts_negative(s: Seq<char>, i: int) -> bool {
    0 <= i + 1 < s.len() && is_digit(s[i + 1])
}

/// `/` starts a comment when another `/` follows it.
pub open spec fn starts_comment(s: Seq<char>, i: int) -> bool {
    char_at_is(s, i + 1, '/')
}

/// Where the token that starts at `i` ends.
pub open spec fn token_end(s: Seq<char>, i: int) -> int {
    let c = s[i];
    if is_symbol(c) {
        i + 1
    } else if c == '-' {
        if starts_arrow(s, i) {
            i + 2
        } else if starts_negative(s, i) {
            number_end(s, i)
        } else {
            i + 1
        }
    } else if c == '/' {
        if starts_comment(s, i) {
            line_end(s, i + 2)
        } else {
            i + 1
        }
    } else if is_digit(c) {
        number_end(s, i)
    } else if alphabetic(c) {
        identifier_end(s, i + 1)
    } else {
        i + 1
    }
}

/// The keyword spelled by `w`, if any.
pub open spec fn keyword(w: Seq<char>) -> Option<TokenKind> {
    if w == "players"@ {
        Some(TokenKind::Players)
    } else if w == "state"@ {
        Some(TokenKind::State)
    } else if w == "baller"@ {
        Some(TokenKind::Baller)
    } else if w == "position"@ {
        Some(TokenKind::Position)
    } else if w == "action"@ {
        Some(TokenKind::Action)
    } else if w == "move"@ {
        Some(TokenKind::Move)
    } else if w == "screen"@ {
        Some(TokenKind::Screen)
    } else if w == "pass"@ {
        Some(TokenKind::Pass)
    } else if w == "before"@ {
        Some(TokenKind::Before)
    } else if w == "after"@ {
        Some(TokenKind::After)
    } else if w == "middle"@ {
        Some(TokenKind::Middle)
    } else {
        None
    }
}

/// The text with leading whitespace removed.
pub open spec fn trim_start(t: Seq<char>) -> Seq<char>
    decreases t.len(),
{
    if t.len() > 0 && whitespace(t[0]) {
        trim_start(t.drop_first())
    } else {
        t
    }
}

/// The text with trailing whitespace removed.
pub open spec fn trim_end(t: Seq<char>) -> Seq<char>
    decreases t.len(),
{
    if t.len() > 0 && whitespace(t.last()) {
        trim_end(t.drop_last())
    } else {
        t
    }
}

pub open spec fn is_identifier(k: TokenKind, w: Seq<char>) -> bool {
    match k {
        TokenKind::Identifier(t) => t@ == w,
        _ => false,
    }
}

pub open spec fn is_number(k: TokenKind, v: int) -> bool {
    match k {
        TokenKind::Number(n) => n@ == v,
        _ => false,
    }
}

pub open spec fn is_comment(k: TokenKind, w: Seq<char>) -> bool {
    match k {
        TokenKind::Comment(t) => t@ == w,
        _ => false,
    }
}

/// Whether `k` is the kind of the token that starts at `i`.
pub open spec fn kind_at(k: TokenKind, s: Seq<char>, i: int) -> bool {
    let c = s[i];
    let e = token_end(s, i);
    let w = s.subrange(i, e);
    if c == '=' {
        k == TokenKind::Equals
    } else if c == '{' {
        k == TokenKind::LBrace
    } else if c == '}' {
        k == TokenKind::RBrace
    } else if c == '(' {
        k == TokenKind::LParenthesis
    } else if c == ')' {
        k == TokenKind::RParenthesis
    } else if c == ',' {
        k == TokenKind::Comma
    } else if c == ':' {
        k == TokenKind::Colon
    } else if c == '-' {
        if starts_arrow(s, i) {
            k == TokenKind::Arrow
        } else if starts_negative(s, i) {
            is_number(k, literal_micros(w))
        } else {
            is_identifier(k, seq![c])
        }
    } else if c == '/' {
        if starts_comment(s, i) {
            is_comment(k, trim_end(trim_start(s.subrange(i + 2, e))))
        } else {
            is_identifier(k, seq![c])
        }
    } else if is_digit(c) {
        is_number(k, literal_micros(w))
    } else if alphabetic(c) {
        match keyword(w) {
            Some(kw) => k == kw,
            None => is_identifier(k, w),
        }
    } else {
        is_identifier(k, seq![c])
    }
}

/// Whether `t` is the token that starts at index `i` of `s`.
pub open spec fn token_at(t: Token, s: Seq<char>, i: int) -> bool {
    &&& 0 <= i < s.len()
    &&& !whitespace(s[i])
    &&& kind_at(t.kind, s, i)
    &&& t.span == span_of(s, i, token_end(s, i))
}

/// Whether `t` is the end-of-input token of `s`.
pub open spec fn eof_at(t: Token, s: Seq<char>) -> bool {
    t.kind == TokenKind::EOF && t.span == span_of(s, s.len() as int, s.len() as int)
}

/// Indices where the tokens from index `i` on start, in order.
pub open spec fn token_starts(s: Seq<char>, i: int) -> Seq<int>
    decreases s.len() - i,
{
    let j = skip_blank(s, i);
    if 0 <= i && j < s.len() && j >= i {
        let e = token_end(s, j);
        if j < e <= s.len() {
            seq![j] + token_starts(s, e)
        } else {
            Seq::empty()
        }
    } else {
        Seq::empty()
    }
}

/// The text `s[i..]` is the tokens that start at `starts`, each running to its
/// end, with nothing but whitespace before, between and after them.
pub open spec fn covered(s: Seq<char>, i: int, starts: Seq<int>) -> bool
    decreases starts.len(),
{
    if starts.len() == 0 {
        forall|p: int| i <= p < s.len() ==> whitespace(#[trigger] s[p])
    } else {
        &&& i <= starts[0] < token_end(s, starts[0]) <= s.len()
        &&& forall|p: int| i <= p < starts[0] ==> whitespace(#[trigger] s[p])
        &&& covered(s, token_end(s, starts[0]), starts.drop_first())
    }
}

proof fn lemma_skip_blank(s: Seq<char>, i: int)
    requires
        0 <= i <= s.len(),
    ensures
        i <= skip_blank(s, i) <= s.len(),
        skip_blank(s, i) < s.len() ==> !whitespace(s[skip_blank(s, i)]),
        forall|p: int| i <= p < skip_blank(s, i) ==> whitespace(#[trigger] s[p]),
    decreases s.len() - i,
{
    if i < s.len() && whitespace(s[i]) {
        lemma_skip_blank(s, i + 1);
    }
}

proof fn lemma_number_end(s: Seq<char>, i: int)
    requires
        0 <= i <= s.len(),
    ensures
        i <= number_end(s, i) <= s.len(),
        i < s.len() && in_number(s[i]) ==> number_end(s, i) > i,
    decreases s.len() - i,
{
    if i < s.len() && in_number(s[i]) {
        lemma_number_end(s, i + 1);
    }
}

proof fn lemma_identifier_end(s: Seq<char>, i: int)
    requires
        0 <= i <= s.len(),
    ensures
        i <= identifier_end(s, i) <= s.len(),
    decreases s.len() - i,
{
    if i < s.len() && in_identifier(s[i]) {
        lemma_identifier_end(s, i + 1);
    }
}

proof fn lemma_line_end(s: Seq<char>, i: int)
    requires
        0 <= i <= s.len(),
    ensures
        i <= line_end(s, i) <= s.len(),
    decreases s.len() - i,
{
    if i < s.len() && s[i] != '\n' {
        lemma_line_end(s, i + 1);
    }
}

/// A token is never empty, and never runs past the end of the text.
pub proof fn lemma_token_end(s: Seq<char>, i: int)
    requires
        0 <= i < s.len(),
    ensures
        i < token_end(s, i) <= s.len(),
{
    lemma_number_end(s, i);
    lemma_identifier_end(s, i + 1);
    if starts_comment(s, i) {
        lemma_line_end(s, i + 2);
    }
}

/// Tokenizing loses nothing but whitespace: the text from `i` on is exactly the
/// tokens' own text, in order, with only whitespace around them.
pub proof fn lemma_tokens_cover(s: Seq<char>, i: int)
    requires
        0 <= i <= s.len(),
    ensures
        covered(s, i, token_starts(s, i)),
    decreases s.len() - i,
{
    lemma_skip_blank(s, i);
    let j = skip_blank(s, i);
    if j < s.len() {
        lemma_token_end(s, j);
        let e = token_end(s, j);
        lemma_tokens_cover(s, e);
        let st = token_starts(s, i);
        assert(st.drop_first() =~= token_starts(s, e));
    }
}


proof fn lemma_position_bounds(s: Seq<char>, i: int)
    requires
        0 <= i <= s.len(),
    ensures
        i <= byte_offset(s, i) <= 4 * i,
        1 <= line_col(s, i).0 <= i + 1,
        1 <= line_col(s, i).1 <= i + 1,
    decreases i,
{
    if i > 0 {
        lemma_position_bounds(s, i - 1);
    }
}

/// Bytes of the UTF-8 encoding of `c`.
pub fn char_width(c: char) -> (r: usize)
    ensures
        r as nat == utf8_width(c),
{
    let v = c as u32;
    if v < 0x80 {
        1
    } else if v < 0x800 {
        2
    } else if v < 0x10000 {
        3
    } else {
        4
    }
}

/// Reads tokens from a source text, one at a time.
pub struct Lexer {
    chars: Vec<char>,
    index: usize,
    pos: usize,
    line: usize,
    column: usize,
}

impl Lexer {
    /// The source text.
    pub closed spec fn source(&self) -> Seq<char> {
        self.chars@
    }

    /// Index of the next character to read.
    pub closed spec fn at(&self) -> int {
        self.index as int
    }

    pub closed spec fn wf(&self) -> bool {
        &&& self.index <= self.chars@.len()
        &&& self.chars@.len() < usize::MAX / 4
        &&& self.pos == byte_offset(self.chars@, self.index as int)
        &&& self.line == line_col(self.chars@, self.index as int).0
        &&& self.column == line_col(self.chars@, self.index as int).1
    }

    pub fn new(input: &str) -> (r: Lexer)
        requires
            input@.len() < usize::MAX / 4,
        ensures
            r.wf(),
            r.source() == input@,
            r.at() == 0,
            r.at() <= r.source().len(),
    {
        Lexer { chars: crate::chars::chars_of(input), index: 0, pos: 0, line: 1, column: 1 }
    }

    fn peek(&self) -> (r: Option<char>)
        requires
            self.wf(),
        ensures
            r == if self.at() < self.source().len() {
                Some(self.source()[self.at()])
            } else {
                None::<char>
            },
    {
        if self.index < self.chars.len() {
            Some(self.chars[self.index])
        } else {
            None
        }
    }

    /// Whether the text from the next character on starts with `w`.
    fn starts_with(&self, w: &str) -> (r: bool)
        requires
            self.wf(),
        ensures
            r == (self.at() + w@.len() <= self.source().len() && self.source().subrange(
                self.at(),
                self.at() + w@.len(),
            ) == w@),
    {
        let v = crate::chars::chars_of(w);
        if v.len() > self.chars.len() - self.index {
            return false;
        }
        text_is(&self.chars, self.index, self.index + v.len(), w)
    }

    fn advance(&mut self)
        requires
            old(self).wf(),
            old(self).at() < old(self).source().len(),
        ensures
            final(self).wf(),
            final(self).source() == old(self).source(),
            final(self).at() == old(self).at() + 1,
    {
        let c = self.chars[self.index];
        proof {
            lemma_position_bounds(self.chars@, self.index as int + 1);
        }
        self.pos = self.pos + char_width(c);
        if c == '\n' {
            self.line = self.line + 1;
            self.column = 1;
        } else {
            self.column = self.column + 1;
        }
        self.index = self.index + 1;
    }

    fn skip_whitespace(&mut self)
        requires
            old(self).wf(),
        ensures
            final(self).wf(),
            final(self).source() == old(self).source(),
            final(self).at() == skip_blank(old(self).source(), old(self).at()),
    {
        while self.index < self.chars.len() && is_space(self.chars[self.index])
            invariant
                self.wf(),
                self.source() == old(self).source(),
                skip_blank(self.source(), self.at()) == skip_blank(
                    old(self).source(),
                    old(self).at(),
                ),
            decreases self.chars@.len() - self.index,
        {
            self.advance();
        }
    }

    /// Reads an identifier whose first character, a letter, is next.
    fn read_identifier(&mut self) -> (r: String)
        requires
            old(self).wf(),
            old(self).at() < old(self).source().len(),
        ensures
            final(self).wf(),
            final(self).source() == old(self).source(),
            final(self).at() == identifier_end(old(self).source(), old(self).at() + 1),
            old(self).at() < final(self).at(),
            r@ == old(self).source().subrange(old(self).at(), final(self).at()),
    {
        let start = self.index;
        self.advance();
        while self.index < self.chars.len() && (is_letter_or_digit(self.chars[self.index])
            || self.chars[self.index] == '_')
            invariant
                self.wf(),
                self.source() == old(self).source(),
                start < self.index,
                identifier_end(self.source(), self.at()) == identifier_end(
                    old(self).source(),
                    old(self).at() + 1,
                ),
            decreases self.chars@.len() - self.index,
        {
            self.advance();
        }
        string_of(&self.chars, start, self.index)
    }

    fn read_number(&mut self) -> (r: Num)
        requires
            old(self).wf(),
        ensures
            final(self).wf(),
            final(self).source() == old(self).source(),
            final(self).at() == number_end(old(self).source(), old(self).at()),
            r@ == literal_micros(old(self).source().subrange(old(self).at(), final(self).at())),
    {
        let start = self.index;
        while self.index < self.chars.len() && (('0' <= self.chars[self.index]
            && self.chars[self.index] <= '9') || self.chars[self.index] == '.'
            || self.chars[self.index] == '-')
            invariant
                self.wf(),
                self.source() == old(self).source(),
                start <= self.index,
                number_end(self.source(), self.at()) == number_end(
                    old(self).source(),
                    old(self).at(),
                ),
            decreases self.chars@.len() - self.index,
        {
            self.advance();
        }
        literal_value(&self.chars, start, self.index)
    }

    /// Reads a comment whose `//` is next; the text is trimmed of whitespace.
    fn read_comment(&mut self) -> (r: String)
        requires
            old(self).wf(),
            old(self).at() + 2 <= old(self).source().len(),
        ensures
            final(self).wf(),
            final(self).source() == old(self).source(),
            final(self).at() == line_end(old(self).source(), old(self).at() + 2),
            r@ == trim_end(
                trim_start(old(self).source().subrange(old(self).at() + 2, final(self).at())),
            ),
    {
        self.advance();
        self.advance();
        let start = self.index;
        while self.index < self.chars.len() && self.chars[self.index] != '\n'
            invariant
                self.wf(),
                self.source() == old(self).source(),
                start <= self.index,
                start == old(self).at() + 2,
                line_end(self.source(), self.at()) == line_end(
                    old(self).source(),
                    old(self).at() + 2,
                ),
            decreases self.chars@.len() - self.index,
        {
            self.advance();
        }
        trimmed(&self.chars, start, self.index)
    }

    /// Reads the next token, after any whitespace; at the end of the text, the
    /// end-of-input token.
    pub fn next_token(&mut self) -> (r: Token)
        requires
            old(self).wf(),
        ensures
            final(self).wf(),
            final(self).source() == old(self).source(),
            final(self).at() <= final(self).source().len(),
            ({
                let s = old(self).source();
                let j = skip_blank(s, old(self).at());
                if j < s.len() {
                    token_at(r, s, j) && final(self).at() == token_end(s, j)
                } else {
                    eof_at(r, s) && final(self).at() == s.len()
                }
            }),
    {
        self.skip_whitespace();
        proof {
            lemma_skip_blank(self.chars@, old(self).index as int);
        }
        let start_pos = self.pos;
        let start_line = self.line;
        let start_column = self.column;
        let ghost s = self.chars@;
        let ghost j = self.index as int;
        let c = match self.peek() {
            Some(c) => c,
            None => {
                return Token {
                    kind: TokenKind::EOF,
                    span: Span {
                        start: start_pos,
                        end: start_pos,
                        line: start_line,
                        column: start_column,
                    },
                };
            },
        };
        let kind = if c == '=' {
            self.advance();
            TokenKind::Equals
        } else if c == '{' {
            self.advance();
            TokenKind::LBrace
        } else if c == '}' {
            self.advance();
            TokenKind::RBrace
        } else if c == '(' {
            self.advance();
            TokenKind::LParenthesis
        } else if c == ')' {
            self.advance();
            TokenKind::RParenthesis
        } else if c == ',' {
            self.advance();
            TokenKind::Comma
        } else if c == ':' {
            self.advance();
            TokenKind::Colon
        } else if c == '-' {
            let arrow = self.starts_with("->");
            proof {
                reveal_strlit("->");
                if arrow {
                    assert(s.subrange(j, j + 2)[1] == s[j + 1]);
                }
                if starts_arrow(s, j) {
                    assert(s.subrange(j, j + 2) =~= "->"@);
                }
            }
            if arrow {
                self.advance();
                self.advance();
                TokenKind::Arrow
            } else if self.index + 1 < self.chars.len() && '0' <= self.chars[self.index + 1]
                && self.chars[self.index + 1] <= '9' {
                proof {
                    assert(in_number(s[j]));
                    assert(number_end(s, j) == number_end(s, j + 1));
                }
                TokenKind::Number(self.read_number())
            } else {
                self.advance();
                TokenKind::Identifier(string_of(&self.chars, self.index - 1, self.index))
            }
        } else if c == '/' {
            let comment = self.starts_with("//");
            proof {
                reveal_strlit("//");
                if comment {
                    assert(s.subrange(j, j + 2)[1] == s[j + 1]);
                }
                if starts_comment(s, j) {
                    assert(s.subrange(j, j + 2) =~= "//"@);
                }
            }
            if comment {
                TokenKind::Comment(self.read_comment())
            } else {
                self.advance();
                TokenKind::Identifier(string_of(&self.chars, self.index - 1, self.index))
            }
        } else if '0' <= c && c <= '9' {
            TokenKind::Number(self.read_number())
        } else if is_letter(c) {
            let start = self.index;
            let ident = self.read_identifier();
            keyword_or_identifier(&self.chars, start, self.index, ident)
        } else {
            self.advance();
            TokenKind::Identifier(string_of(&self.chars, self.index - 1, self.index))
        };
        proof {
            assert(s.subrange(j, j + 1) =~= seq![c]);
        }
        Token {
            kind,
            span: Span { start: start_pos, end: self.pos, line: start_line, column: start_column },
        }
    }

    /// Reads every token left, ending with the end-of-input token.
    pub fn tokenize(&mut self) -> (r: Vec<Token>)
        requires
            old(self).wf(),
        ensures
            final(self).wf(),
            final(self).source() == old(self).source(),
            final(self).at() <= final(self).source().len(),
            ({
                let s = old(self).source();
                let st = token_starts(s, old(self).at());
                &&& r@.len() == st.len() + 1
                &&& forall|k: int| 0 <= k < st.len() ==> token_at(#[trigger] r@[k], s, st[k])
                &&& eof_at(r@.last(), s)
            }),
    {
        let mut tokens: Vec<Token> = Vec::new();
        let ghost s = self.chars@;
        let ghost done: Seq<int> = Seq::empty();
        loop
            invariant
                self.wf(),
                self.source() == s,
                s == old(self).source(),
                token_starts(s, old(self).at()) == done + token_starts(s, self.at()),
                tokens@.len() == done.len(),
                forall|k: int| 0 <= k < done.len() ==> token_at(#[trigger] tokens@[k], s, done[k]),
            decreases s.len() - self.at(),
        {
            let ghost i = self.index as int;
            proof {
                lemma_skip_blank(s, i);
            }
            let token = self.next_token();
            let is_end = match token.kind {
                TokenKind::EOF => true,
                _ => false,
            };
            let ghost j = skip_blank(s, i);
            if is_end {
                proof {
                    if j < s.len() {
                        lemma_token_end(s, j);
                    }
                    assert(token_starts(s, i) =~= Seq::<int>::empty());
                    assert(done + token_starts(s, i) =~= done);
                }
                tokens.push(token);
                return tokens;
            }
            proof {
                lemma_token_end(s, j);
                let e = token_end(s, j);
                assert(token_starts(s, i) == seq![j] + token_starts(s, e));
                assert(done + token_starts(s, i) =~= done.push(j) + token_starts(s, e));
                done = done.push(j);
            }
            tokens.push(token);
        }
    }
}

/// The keyword that `chars[lo..hi]` spells, or else an identifier holding `ident`.
fn keyword_or_identifier(chars: &Vec<char>, lo: usize, hi: usize, ident: String) -> (r: TokenKind)
    requires
        lo <= hi <= chars@.len(),
        ident@ == chars@.subrange(lo as int, hi as int),
    ensures
        match keyword(chars@.subrange(lo as int, hi as int)) {
            Some(kw) => r == kw,
            None => is_identifier(r, chars@.subrange(lo as int, hi as int)),
        },
{
    if text_is(chars, lo, hi, "players") {
        TokenKind::Players
    } else if text_is(chars, lo, hi, "state") {
        TokenKind::State
    } else if text_is(chars, lo, hi, "baller") {
        TokenKind::Baller
    } else if text_is(chars, lo, hi, "position") {
        TokenKind::Position
    } else if text_is(chars, lo, hi, "action") {
        TokenKind::Action
    } else if text_is(chars, lo, hi, "move") {
        TokenKind::Move
    } else if text_is(chars, lo, hi, "screen") {
        TokenKind::Screen
    } else if text_is(chars, lo, hi, "pass") {
        TokenKind::Pass
    } else if text_is(chars, lo, hi, "before") {
        TokenKind::Before
    } else if text_is(chars, lo, hi, "after") {
        TokenKind::After
    } else if text_is(chars, lo, hi, "middle") {
        TokenKind::Middle
    } else {
        TokenKind::Identifier(ident)
    }
}

proof fn lemma_trim_start(s: Seq<char>, lo: int, hi: int)
    requires
        0 <= lo <= hi <= s.len(),
    ensures
        trim_start(s.subrange(lo, hi)) == s.subrange(
            if skip_blank(s, lo) < hi {
                skip_blank(s, lo)
            } else {
                hi
            },
            hi,
        ),
    decreases hi - lo,
{
    let t = s.subrange(lo, hi);
    if lo < hi && whitespace(s[lo]) {
        assert(t.drop_first() =~= s.subrange(lo + 1, hi));
        lemma_trim_start(s, lo + 1, hi);
    } else if lo < hi {
        assert(t[0] == s[lo]);
    } else {
        lemma_skip_blank(s, lo);
    }
}

proof fn lemma_trim_end(s: Seq<char>, lo: int, hi: int)
    requires
        0 <= lo <= hi <= s.len(),
    ensures
        exists|k: int|
            lo <= k <= hi && trim_end(s.subrange(lo, hi)) == s.subrange(lo, k) && (k == lo
                || !whitespace(s[k - 1])) && forall|p: int| k <= p < hi ==> whitespace(#[trigger] s[p]),
    decreases hi - lo,
{
    let t = s.subrange(lo, hi);
    if lo < hi && whitespace(s[hi - 1]) {
        assert(t.drop_last() =~= s.subrange(lo, hi - 1));
        lemma_trim_end(s, lo, hi - 1);
    } else {
        assert(trim_end(t) == t);
    }
}

/// `chars[lo..hi]` without leading and trailing whitespace.
fn trimmed(chars: &Vec<char>, lo: usize, hi: usize) -> (r: String)
    requires
        lo <= hi <= chars@.len(),
    ensures
        r@ == trim_end(trim_start(chars@.subrange(lo as int, hi as int))),
{
    let ghost s = chars@;
    let mut a: usize = lo;
    while a < hi && is_space(chars[a])
        invariant
            lo <= a <= hi <= s.len(),
            s == chars@,
            skip_blank(s, a as int) == skip_blank(s, lo as int),
        decreases hi - a,
    {
        a = a + 1;
    }
    proof {
        lemma_trim_start(s, lo as int, hi as int);
        lemma_skip_blank(s, a as int);
        if a < hi {
            assert(skip_blank(s, a as int) == a);
        }
    }
    assert(trim_start(s.subrange(lo as int, hi as int)) == s.subrange(a as int, hi as int));
    let mut b: usize = hi;
    while b > a && is_space(chars[b - 1])
        invariant
            lo <= a <= b <= hi <= s.len(),
            s == chars@,
            trim_end(s.subrange(a as int, b as int)) == trim_end(s.subrange(a as int, hi as int)),
        decreases b - a,
    {
        assert(s.subrange(a as int, b as int).drop_last() =~= s.subrange(a as int, b - 1));
        b = b - 1;
    }
    proof {
        let t = s.subrange(a as int, b as int);
        if b > a {
            assert(t.last() == s[b - 1]);
        }
        assert(trim_end(t) == t);
    }
    string_of(chars, a, b)
}


/// Whether two kinds are the same, carrying the same text or number.
pub open spec fn same_kind(a: TokenKind, b: TokenKind) -> bool {
    match a {
        TokenKind::Identifier(x) => b matches TokenKind::Identifier(y) && x@ == y@,
        TokenKind::Comment(x) => b matches TokenKind::Comment(y) && x@ == y@,
        _ => a == b,
    }
}

/// Whether two token sequences agree in every kind, text, number and span.
pub open spec fn alike(t1: Seq<Token>, t2: Seq<Token>) -> bool {
    &&& t1.len() == t2.len()
    &&& forall|i: int|
        0 <= i < t1.len() ==> same_kind(#[trigger] t1[i].kind, t2[i].kind) && t1[i].span
            == t2[i].span
}

/// Whether `toks` are the tokens of the text `s`, as `tokenize` reads them from
/// its start.
pub open spec fn tokens_of(s: Seq<char>, toks: Seq<Token>) -> bool {
    let st = token_starts(s, 0);
    &&& toks.len() == st.len() + 1
    &&& forall|k: int| 0 <= k < st.len() ==> token_at(#[trigger] toks[k], s, st[k])
    &&& eof_at(toks.last(), s)
}

proof fn lemma_kind_unique(a: TokenKind, b: TokenKind, s: Seq<char>, i: int)
    requires
        kind_at(a, s, i),
        kind_at(b, s, i),
    ensures
        same_kind(a, b),
{
    if let TokenKind::Number(x) = a {
        if let TokenKind::Number(y) = b {
            Num::lemma_view_injective(x, y);
        }
    }
}

/// The text determines its tokens, up to the identity of the strings they carry.
pub proof fn lemma_tokens_determined(s: Seq<char>, t1: Seq<Token>, t2: Seq<Token>)
    requires
        tokens_of(s, t1),
        tokens_of(s, t2),
    ensures
        alike(t1, t2),
{
    let st = token_starts(s, 0);
    assert forall|i: int| 0 <= i < t1.len() implies same_kind(#[trigger] t1[i].kind, t2[i].kind)
        && t1[i].span == t2[i].span by {
        if i < st.len() {
            assert(token_at(t1[i], s, st[i]));
            assert(token_at(t2[i], s, st[i]));
            lemma_kind_unique(t1[i].kind, t2[i].kind, s, st[i]);
        } else {
            assert(t1[i] == t1.last());
            assert(t2[i] == t2.last());
        }
    }
}


proof fn lemma_encode_append(a: Seq<char>, b: Seq<char>)
    ensures
        encode_utf8(a + b) == encode_utf8(a) + encode_utf8(b),
    decreases a.len(),
{
    if a.len() == 0 {
        assert(a + b =~= b);
        assert(encode_utf8(a) + encode_utf8(b) =~= encode_utf8(b));
    } else {
        assert((a + b).drop_first() =~= a.drop_first() + b);
        assert((a + b)[0] == a[0]);
        lemma_encode_append(a.drop_first(), b);
        assert(encode_utf8(a + b) =~= encode_utf8(a) + encode_utf8(b));
    }
}

proof fn lemma_encode_one(c: char)
    ensures
        encode_utf8(seq![c]).len() == utf8_width(c),
{
    vstd::utf8::char_is_scalar(c);
    let one = seq![c];
    assert(one.drop_first() =~= Seq::<char>::empty());
    assert(one[0] == c);
    assert(encode_utf8(one) == encode_scalar(c as u32) + encode_utf8(one.drop_first()));
    assert(encode_utf8(one) =~= encode_scalar(c as u32));
}

/// The byte offset of a character is the length of the UTF-8 encoding of the
/// text before it.
pub proof fn lemma_byte_offset(s: Seq<char>, i: int)
    requires
        0 <= i <= s.len(),
    ensures
        byte_offset(s, i) == encode_utf8(s.take(i)).len(),
    decreases i,
{
    if i == 0 {
        assert(s.take(0) =~= Seq::<char>::empty());
    } else {
        lemma_byte_offset(s, i - 1);
        assert(s.take(i) =~= s.take(i - 1) + seq![s[i - 1]]);
        lemma_encode_append(s.take(i - 1), seq![s[i - 1]]);
        lemma_encode_one(s[i - 1]);
    }
}

/// The bytes of the encoding of `s` between the byte offsets of `i` and `j`
/// are the encoding of the characters from `i` to `j`.
pub proof fn lemma_bytes_of_range(s: Seq<char>, i: int, j: int)
    requires
        0 <= i <= j <= s.len(),
    ensures
        byte_offset(s, i) <= byte_offset(s, j) <= encode_utf8(s).len(),
        encode_utf8(s).subrange(byte_offset(s, i) as int, byte_offset(s, j) as int) == encode_utf8(
            s.subrange(i, j),
        ),
{
    lemma_byte_offset(s, i);
    lemma_byte_offset(s, j);
    let a = s.take(i);
    let m = s.subrange(i, j);
    let z = s.subrange(j, s.len() as int);
    assert(s.take(j) =~= a + m);
    assert(s =~= (a + m) + z);
    lemma_encode_append(a, m);
    lemma_encode_append(a + m, z);
    let ea = encode_utf8(a);
    let em = encode_utf8(m);
    let ez = encode_utf8(z);
    assert(encode_utf8(s).subrange(ea.len() as int, (ea.len() + em.len()) as int) =~= em);
}

/// Byte offsets grow with the index, by at least one byte per character.
pub proof fn lemma_byte_offset_grows(s: Seq<char>, i: int, j: int)
    requires
        0 <= i <= j <= s.len(),
    ensures
        byte_offset(s, j) >= byte_offset(s, i) + (j - i),
    decreases j - i,
{
    if i < j {
        lemma_byte_offset_grows(s, i, j - 1);
    }
}

/// The tokens of a text, in byte offsets: each token's span is non-empty and
/// ends at or before the next one starts; the bytes under a span are the
/// encoding of the token's own text; and every character outside the spans is
/// whitespace (`covered`, in character indices).
pub proof fn lemma_spans_in_bytes(s: Seq<char>, toks: Seq<Token>)
    requires
        tokens_of(s, toks),
        s.len() < usize::MAX / 4,
    ensures
        covered(s, 0, token_starts(s, 0)),
        forall|k: int|
            0 <= k < toks.len() - 1 ==> {
                let st = token_starts(s, 0);
                &&& (#[trigger] toks[k]).span.start < toks[k].span.end
                &&& toks[k].span.end <= toks[k + 1].span.start
                &&& encode_utf8(s).subrange(toks[k].span.start as int, toks[k].span.end as int)
                    == encode_utf8(s.subrange(st[k], token_end(s, st[k])))
            },
{
    let st = token_starts(s, 0);
    lemma_tokens_cover(s, 0);
    lemma_starts_ordered(s, 0);
    lemma_byte_offset(s, s.len() as int);
    assert(s.take(s.len() as int) =~= s);
    assert forall|k: int| 0 <= k < toks.len() - 1 implies {
        &&& (#[trigger] toks[k]).span.start < toks[k].span.end
        &&& toks[k].span.end <= toks[k + 1].span.start
        &&& encode_utf8(s).subrange(toks[k].span.start as int, toks[k].span.end as int)
            == encode_utf8(s.subrange(st[k], token_end(s, st[k])))
    } by {
        lemma_span_in_bytes(s, toks, k);
    }
}

proof fn lemma_span_in_bytes(s: Seq<char>, toks: Seq<Token>, k: int)
    requires
        tokens_of(s, toks),
        s.len() < usize::MAX / 4,
        0 <= k < toks.len() - 1,
        forall|m: int|
            0 <= m < token_starts(s, 0).len() ==> 0 <= #[trigger] token_starts(s, 0)[m] < token_end(
                s,
                token_starts(s, 0)[m],
            ) <= s.len(),
        forall|m: int|
            0 <= m < token_starts(s, 0).len() - 1 ==> token_end(s, #[trigger] token_starts(s, 0)[m])
                <= token_starts(s, 0)[m + 1],
        encode_utf8(s).len() == byte_offset(s, s.len() as int),
    ensures
        toks[k].span.start < toks[k].span.end,
        toks[k].span.end <= toks[k + 1].span.start,
        encode_utf8(s).subrange(toks[k].span.start as int, toks[k].span.end as int) == encode_utf8(
            s.subrange(token_starts(s, 0)[k], token_end(s, token_starts(s, 0)[k])),
        ),
{
    let st = token_starts(s, 0);
    let i = st[k];
    let e = token_end(s, i);
    assert(token_at(toks[k], s, i));
    lemma_bytes_of_range(s, i, e);
    lemma_byte_offset_grows(s, i, e);
    lemma_bytes_of_range(s, 0, s.len() as int);
    if k + 1 < st.len() {
        assert(token_at(toks[k + 1], s, st[k + 1]));
        lemma_byte_offset_grows(s, e, st[k + 1]);
        lemma_bytes_of_range(s, st[k + 1], s.len() as int);
        lemma_position_bounds(s, st[k + 1]);
    } else {
        assert(toks[k + 1] == toks.last());
        lemma_byte_offset_grows(s, e, s.len() as int);
        lemma_position_bounds(s, s.len() as int);
    }
    lemma_bytes_of_range(s, e, s.len() as int);
    lemma_position_bounds(s, i);
    lemma_position_bounds(s, e);
}

/// Token starts are in order, each token ending at or before the next starts.
proof fn lemma_starts_ordered(s: Seq<char>, i: int)
    requires
        0 <= i <= s.len(),
    ensures
        forall|k: int|
            0 <= k < token_starts(s, i).len() ==> i <= #[trigger] token_starts(s, i)[k] < token_end(
                s,
                token_starts(s, i)[k],
            ) <= s.len(),
        forall|k: int|
            0 <= k < token_starts(s, i).len() - 1 ==> token_end(s, #[trigger] token_starts(s, i)[k])
                <= token_starts(s, i)[k + 1],
    decreases s.len() - i,
{
    lemma_skip_blank(s, i);
    let j = skip_blank(s, i);
    if j < s.len() {
        lemma_token_end(s, j);
        let e = token_end(s, j);
        lemma_starts_ordered(s, e);
        let st = token_starts(s, i);
        let rest = token_starts(s, e);
        assert(st == seq![j] + rest);
        assert forall|k: int| 0 <= k < st.len() implies i <= #[trigger] st[k] < token_end(s, st[k])
            <= s.len() by {
            if k > 0 {
                assert(st[k] == rest[k - 1]);
            }
        }
        assert forall|k: int| 0 <= k < st.len() - 1 implies token_end(s, #[trigger] st[k])
            <= st[k + 1] by {
            if k > 0 {
                assert(st[k] == rest[k - 1]);
                assert(st[k + 1] == rest[k]);
            } else {
                assert(st[1] == rest[0]);
            }
        }
    }
}

} // verus!
