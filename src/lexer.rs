use vstd::prelude::*;
use vstd::string::*;
use vstd::std_specs::iter::IteratorSpec;
use crate::compiler::named;
use crate::location::Location;
use crate::token::{Token, TokenKind};

verus! {

broadcast use vstd::string::group_string_axioms;

pub open spec fn is_space(c: char) -> bool {
    c == ' ' || c == '\r' || c == '\t' || c == '\n'
}

pub open spec fn is_digit(c: char) -> bool {
    '0' <= c && c <= '9'
}

/// Characters that end a word besides whitespace.
pub open spec fn is_reserved(c: char) -> bool {
    c == '(' || c == ')' || c == '[' || c == ']' || c == '{' || c == '}' || c == '.'
}

pub open spec fn ends_word(c: char) -> bool {
    c == ' ' || c == '\t' || c == '\n' || c == '\r' || c == '\x0C' || is_reserved(c)
}

/// The first index at or after `i` that is not whitespace.
pub open spec fn skip_spaces(cs: Seq<char>, i: int) -> int
    decreases cs.len() - i,
{
    if 0 <= i < cs.len() && is_space(cs[i]) {
        skip_spaces(cs, i + 1)
    } else {
        i
    }
}

/// The first index at or after `i` that is not a digit.
pub open spec fn digits_end(cs: Seq<char>, i: int) -> int
    decreases cs.len() - i,
{
    if 0 <= i < cs.len() && is_digit(cs[i]) {
        digits_end(cs, i + 1)
    } else {
        i
    }
}

/// The first index at or after `i` that ends a word.
pub open spec fn word_end(cs: Seq<char>, i: int) -> int
    decreases cs.len() - i,
{
    if 0 <= i < cs.len() && !ends_word(cs[i]) {
        word_end(cs, i + 1)
    } else {
        i
    }
}

/// The first index at or after `i` that holds a double quote.
pub open spec fn quote_end(cs: Seq<char>, i: int) -> int
    decreases cs.len() - i,
{
    if 0 <= i < cs.len() && cs[i] != '"' {
        quote_end(cs, i + 1)
    } else {
        i
    }
}

/// The end of a number whose first character is before `i`: digits, then
/// optionally a dot and more digits.
pub open spec fn number_end(cs: Seq<char>, i: int) -> int {
    let d = digits_end(cs, i);
    if 0 <= d < cs.len() && cs[d] == '.' {
        digits_end(cs, d + 1)
    } else {
        d
    }
}

/// The value of a string of decimal digits.
pub open spec fn digits_value(s: Seq<char>) -> nat
    decreases s.len(),
{
    if s.len() == 0 {
        0
    } else {
        digits_value(s.drop_last()) * 10 + (s.last() as nat - '0' as nat) as nat
    }
}

/// The integer that an optionally negative decimal literal denotes, if it
/// fits in 64 bits.
pub open spec fn decimal(s: Seq<char>) -> Option<i64> {
    if s.len() > 0 && s[0] == '-' {
        let v = digits_value(s.drop_first());
        if v <= 0x8000_0000_0000_0000 {
            Some((-(v as int)) as i64)
        } else {
            None
        }
    } else {
        let v = digits_value(s);
        if v <= 0x7FFF_FFFF_FFFF_FFFF {
            Some(v as i64)
        } else {
            None
        }
    }
}

/// The keyword that a word spells, if any.
pub open spec fn keyword(s: Seq<char>) -> Option<TokenKind> {
    if s == "if"@ {
        Some(TokenKind::If)
    } else if s == "else"@ {
        Some(TokenKind::Else)
    } else if s == "elif"@ {
        Some(TokenKind::Elif)
    } else if s == "end"@ {
        Some(TokenKind::End)
    } else if s == "then"@ {
        Some(TokenKind::Then)
    } else if s == "while"@ {
        Some(TokenKind::While)
    } else if s == "do"@ {
        Some(TokenKind::Do)
    } else if s == "in"@ {
        Some(TokenKind::In)
    } else if s == "let"@ {
        Some(TokenKind::Let)
    } else if s == "fun"@ {
        Some(TokenKind::Fun)
    } else if s == "and"@ {
        Some(TokenKind::And)
    } else if s == "or"@ {
        Some(TokenKind::Or)
    } else if s == "not"@ {
        Some(TokenKind::Not)
    } else if s == "true"@ {
        Some(TokenKind::True)
    } else if s == "false"@ {
        Some(TokenKind::False)
    } else if s == "call"@ {
        Some(TokenKind::Call)
    } else {
        None
    }
}

/// How the token that starts at some index is read.
pub enum Lexed {
    Kind(TokenKind),
    Number,
    Word,
    Text,
    Unclosed,
    Eof,
}

/// A one- or two-character token: the first kind, or the second when the
/// next character is `second`.
pub open spec fn pair(cs: Seq<char>, n: int, second: char, one: TokenKind, two: TokenKind) -> (Lexed, int) {
    if n < cs.len() && cs[n] == second {
        (Lexed::Kind(two), n + 1)
    } else {
        (Lexed::Kind(one), n)
    }
}

/// The token that starts at index `p` (past any whitespace) and the index
/// where it ends.
pub open spec fn scan(cs: Seq<char>, p: int) -> (Lexed, int) {
    if p >= cs.len() {
        (Lexed::Eof, p)
    } else {
        let c = cs[p];
        let n = p + 1;
        if c == '(' {
            (Lexed::Kind(TokenKind::OpenParen), n)
        } else if c == ')' {
            (Lexed::Kind(TokenKind::CloseParen), n)
        } else if c == '[' {
            (Lexed::Kind(TokenKind::OpenBracket), n)
        } else if c == ']' {
            (Lexed::Kind(TokenKind::CloseBracket), n)
        } else if c == '{' {
            (Lexed::Kind(TokenKind::OpenCurly), n)
        } else if c == '}' {
            (Lexed::Kind(TokenKind::CloseCurly), n)
        } else if c == ',' {
            (Lexed::Kind(TokenKind::Comma), n)
        } else if c == ';' {
            (Lexed::Kind(TokenKind::Semicolon), n)
        } else if c == '+' {
            (Lexed::Kind(TokenKind::Plus), n)
        } else if c == '-' {
            if n < cs.len() && cs[n] == '>' {
                (Lexed::Kind(TokenKind::Arrow), n + 1)
            } else if n < cs.len() && is_digit(cs[n]) {
                (Lexed::Number, number_end(cs, n))
            } else {
                (Lexed::Kind(TokenKind::Minus), n)
            }
        } else if c == '*' {
            (Lexed::Kind(TokenKind::Star), n)
        } else if c == '/' {
            (Lexed::Kind(TokenKind::Slash), n)
        } else if c == '%' {
            (Lexed::Kind(TokenKind::Percent), n)
        } else if c == '^' {
            (Lexed::Kind(TokenKind::Caret), n)
        } else if c == '.' {
            pair(cs, n, '.', TokenKind::Dot, TokenKind::DotDot)
        } else if c == ':' {
            pair(cs, n, ':', TokenKind::Colon, TokenKind::ColonColon)
        } else if c == '!' {
            pair(cs, n, '=', TokenKind::Bang, TokenKind::BangEqual)
        } else if c == '=' {
            pair(cs, n, '=', TokenKind::Equal, TokenKind::EqualEqual)
        } else if c == '>' {
            pair(cs, n, '=', TokenKind::Greater, TokenKind::GreaterEqual)
        } else if c == '<' {
            pair(cs, n, '=', TokenKind::Less, TokenKind::LessEqual)
        } else if c == '"' {
            let q = quote_end(cs, n);
            if q < cs.len() {
                (Lexed::Text, q + 1)
            } else {
                (Lexed::Unclosed, q)
            }
        } else if is_digit(c) {
            (Lexed::Number, number_end(cs, n))
        } else {
            (Lexed::Word, word_end(cs, n))
        }
    }
}

/// `kind` is the token read as `lexed` from `lexeme`.
pub open spec fn lexed_as(kind: TokenKind, lexed: Lexed, lexeme: Seq<char>) -> bool {
    match lexed {
        Lexed::Kind(k) => kind == k,
        Lexed::Number => if lexeme.contains('.') {
            kind is FloatText && kind->FloatText_0@ == lexeme
        } else {
            match decimal(lexeme) {
                Some(v) => kind == TokenKind::Integer(v),
                None => kind == TokenKind::Error,
            }
        },
        Lexed::Word => match keyword(lexeme) {
            Some(k) => kind == k,
            None => kind is Identifier && kind->Identifier_0@ == lexeme,
        },
        Lexed::Text => kind is String && kind->String_0@ == lexeme.subrange(1, lexeme.len() - 1),
        Lexed::Unclosed => kind == TokenKind::Error,
        Lexed::Eof => kind == TokenKind::EOF,
    }
}

/// The line reached from `line` by reading `s`: one more for each newline.
pub open spec fn line_after(line: int, s: Seq<char>) -> int
    decreases s.len(),
{
    if s.len() == 0 {
        line
    } else {
        line_after(line, s.drop_last()) + if s.last() == '\n' { 1int } else { 0int }
    }
}

/// The column reached from `column` by reading `s`: one more for each
/// character, back to 1 after a newline.
pub open spec fn column_after(column: int, s: Seq<char>) -> int
    decreases s.len(),
{
    if s.len() == 0 {
        column
    } else if s.last() == '\n' {
        1
    } else {
        column_after(column, s.drop_last()) + 1
    }
}

/// The start and end of each token read from index `pos` on, up to and
/// including the end-of-file token, which is empty.
pub open spec fn spans(cs: Seq<char>, pos: int) -> Seq<(int, int)>
    decreases cs.len() - pos,
{
    let p = skip_spaces(cs, pos);
    if pos < 0 || p >= cs.len() {
        seq![(p, p)]
    } else {
        let e = scan(cs, p).1;
        if e <= pos || e > cs.len() {
            Seq::empty()
        } else {
            seq![(p, e)] + spans(cs, e)
        }
    }
}

/// Splits source text into tokens.
#[derive(Debug)]
pub struct Lexer {
    pub start: usize,
    pub current: usize,
    pub line: usize,
    pub column: usize,
    pub source: String,
    pub chars: Vec<char>,
}

/// The characters of `s`, in order.
fn chars_of(s: &str) -> (r: Vec<char>)
    ensures
        r@ == s@,
{
    let n = s.unicode_len();
    let mut it = s.chars();
    let mut out: Vec<char> = Vec::new();
    proof {
        assert(it.remaining() == s@);
    }
    let mut i: usize = 0;
    while i < n
        invariant
            it.obeys_prophetic_iter_laws(),
            out@ + it.remaining() == s@,
            out@.len() == i,
            n == s@.len(),
        decreases n - i,
    {
        let ghost before = it;
        if let Some(c) = it.next() {
            proof {
                assert(out@.push(c) + it.remaining() =~= out@ + before.remaining());
            }
            out.push(c);
        }
        i = i + 1;
    }
    proof {
        assert(out@ =~= s@);
    }
    out
}

proof fn lemma_digits_value_grows(s: Seq<char>, k: int)
    requires
        0 <= k <= s.len(),
    ensures
        digits_value(s.subrange(0, k)) <= digits_value(s),
    decreases s.len(),
{
    if k < s.len() {
        let t = s.drop_last();
        assert(t.subrange(0, k) =~= s.subrange(0, k));
        lemma_digits_value_grows(t, k);
    } else {
        assert(s.subrange(0, k) =~= s);
    }
}

/// The value of the optionally negative decimal literal `cs[from..to]`.
fn parse_decimal(cs: &Vec<char>, from: usize, to: usize) -> (r: Option<i64>)
    requires
        from < to <= cs@.len(),
        forall|k: int| from < k < to ==> is_digit(#[trigger] cs@[k]),
        is_digit(cs@[from as int]) || cs@[from as int] == '-',
    ensures
        r == decimal(cs@.subrange(from as int, to as int)),
{
    let ghost lexeme = cs@.subrange(from as int, to as int);
    let negative = cs[from] == '-';
    let first: usize = if negative { from + 1 } else { from };
    let ghost digits = cs@.subrange(first as int, to as int);
    proof {
        if negative {
            assert(lexeme.drop_first() =~= digits);
        } else {
            assert(lexeme =~= digits);
        }
    }
    let mut value: u64 = 0;
    let mut j: usize = first;
    proof {
        assert(digits.subrange(0, 0) =~= Seq::<char>::empty());
    }
    while j < to
        invariant
            first <= j <= to,
            to <= cs@.len(),
            digits == cs@.subrange(first as int, to as int),
            forall|k: int| from < k < to ==> is_digit(#[trigger] cs@[k]),
            is_digit(cs@[from as int]) || cs@[from as int] == '-',
            negative == (cs@[from as int] == '-'),
            first == (if negative { from + 1 } else { from as int }),
            value as nat == digits_value(digits.subrange(0, j - first)),
            negative ==> cs@.subrange(from as int, to as int).drop_first() == digits,
            !negative ==> cs@.subrange(from as int, to as int) == digits,
        decreases to - j,
    {
        let c = cs[j];
        proof {
            assert(is_digit(c));
            assert(digits.subrange(0, j + 1 - first).drop_last() =~= digits.subrange(0, j - first));
            assert(digits.subrange(0, j + 1 - first).last() == c);
        }
        let digit: u64 = (c as u32 - '0' as u32) as u64;
        proof {
            assert(digit as nat == (c as nat - '0' as nat) as nat);
            assert(digits_value(digits.subrange(0, j + 1 - first)) == value as nat * 10 + digit as nat);
        }
        match value.checked_mul(10) {
            Some(v) => match v.checked_add(digit) {
                Some(w) => {
                    value = w;
                },
                None => {
                    proof {
                        lemma_digits_value_grows(digits, j + 1 - first);
                    }
                    return None;
                },
            },
            None => {
                proof {
                    lemma_digits_value_grows(digits, j + 1 - first);
                }
                return None;
            },
        }
        j = j + 1;
    }
    proof {
        assert(digits.subrange(0, to - first) =~= digits);
    }
    if negative {
        if value <= 0x8000_0000_0000_0000 {
            if value == 0x8000_0000_0000_0000 {
                Some(i64::MIN)
            } else {
                Some(-(value as i64))
            }
        } else {
            None
        }
    } else {
        if value <= 0x7FFF_FFFF_FFFF_FFFF {
            Some(value as i64)
        } else {
            None
        }
    }
}

fn keyword_kind(word: &String) -> (r: Option<TokenKind>)
    ensures
        r == keyword(word@),
{
    if named(word, "if") {
        Some(TokenKind::If)
    } else if named(word, "else") {
        Some(TokenKind::Else)
    } else if named(word, "elif") {
        Some(TokenKind::Elif)
    } else if named(word, "end") {
        Some(TokenKind::End)
    } else if named(word, "then") {
        Some(TokenKind::Then)
    } else if named(word, "while") {
        Some(TokenKind::While)
    } else if named(word, "do") {
        Some(TokenKind::Do)
    } else if named(word, "in") {
        Some(TokenKind::In)
    } else if named(word, "let") {
        Some(TokenKind::Let)
    } else if named(word, "fun") {
        Some(TokenKind::Fun)
    } else if named(word, "and") {
        Some(TokenKind::And)
    } else if named(word, "or") {
        Some(TokenKind::Or)
    } else if named(word, "not") {
        Some(TokenKind::Not)
    } else if named(word, "true") {
        Some(TokenKind::True)
    } else if named(word, "false") {
        Some(TokenKind::False)
    } else if named(word, "call") {
        Some(TokenKind::Call)
    } else {
        None
    }
}

impl Lexer {
    pub open spec fn wf(&self) -> bool {
        &&& self.chars@ == self.source@
        &&& self.start <= self.current <= self.chars@.len()
        &&& self.chars@.len() < usize::MAX
        &&& 1 <= self.line <= self.current + 1
        &&& 1 <= self.column <= self.current + 1
    }

    pub fn new(source: &str) -> (r: Lexer)
        requires
            source@.len() < usize::MAX,
        ensures
            r.wf(),
            r.source@ == source@,
            r.current == 0,
    {
        Lexer {
            start: 0,
            current: 0,
            line: 1,
            column: 1,
            source: String::from_str(source),
            chars: chars_of(source),
        }
    }

    fn is_at_end(&self) -> (r: bool)
        requires
            self.wf(),
        ensures
            r == (self.current >= self.chars@.len()),
    {
        self.current >= self.chars.len()
    }

    fn current_location(&self) -> (r: Location)
        requires
            self.start <= self.current,
            self.current - self.start < self.column,
        ensures
            r == (Location { line: self.line, column: (self.column - (self.current - self.start)) as usize }),
    {
        Location { line: self.line, column: self.column - (self.current - self.start) }
    }

    fn peek(&self, offset: usize) -> (r: Option<char>)
        requires
            self.wf(),
            offset <= 1,
        ensures
            r == (if self.current + offset < self.chars@.len() {
                Some(self.chars@[self.current + offset])
            } else {
                None::<char>
            }),
    {
        let index = self.current + offset;
        if index >= self.chars.len() {
            None
        } else {
            Some(self.chars[index])
        }
    }

    fn advance(&mut self) -> (r: char)
        requires
            old(self).wf(),
            old(self).current < old(self).chars@.len(),
        ensures
            final(self).wf(),
            r == old(self).chars@[old(self).current as int],
            final(self).current == old(self).current + 1,
            final(self).column == old(self).column + 1,
            final(self).line == old(self).line,
            final(self).column == old(self).column + (final(self).current - old(self).current),
            final(self).start == old(self).start,
            final(self).chars == old(self).chars,
            final(self).source == old(self).source,
    {
        self.current = self.current + 1;
        self.column = self.column + 1;
        self.chars[self.current - 1]
    }

    fn skip_whitespace(&mut self)
        requires
            old(self).wf(),
        ensures
            final(self).wf(),
            final(self).current == skip_spaces(old(self).chars@, old(self).current as int),
            final(self).line == line_after(
                old(self).line as int,
                old(self).chars@.subrange(old(self).current as int, final(self).current as int),
            ),
            final(self).column == column_after(
                old(self).column as int,
                old(self).chars@.subrange(old(self).current as int, final(self).current as int),
            ),
            final(self).start == old(self).start,
            final(self).chars == old(self).chars,
            final(self).source == old(self).source,
    {
        let ghost cs = self.chars@;
        let ghost from = self.current as int;
        proof {
            assert(cs.subrange(from, from) =~= Seq::<char>::empty());
        }
        loop
            invariant
                self.wf(),
                cs == self.chars@,
                from == old(self).current,
                from <= self.current,
                self.start == old(self).start,
                self.chars == old(self).chars,
                self.source == old(self).source,
                skip_spaces(cs, old(self).current as int) == skip_spaces(cs, self.current as int),
                self.line == line_after(old(self).line as int, cs.subrange(from, self.current as int)),
                self.column == column_after(old(self).column as int, cs.subrange(from, self.current as int)),
            decreases cs.len() - self.current,
        {
            let ghost here = self.current as int;
            proof {
                if here < cs.len() {
                    assert(cs.subrange(from, here + 1).drop_last() =~= cs.subrange(from, here));
                    assert(cs.subrange(from, here + 1).last() == cs[here]);
                }
            }
            match self.peek(0) {
                Some(' ') | Some('\r') | Some('\t') => {
                    self.advance();
                },
                Some('\n') => {
                    self.advance();
                    self.line = self.line + 1;
                    self.column = 1;
                },
                _ => {
                    return;
                },
            }
        }
    }

    /// A token of `kind` located where the current lexeme starts.
    fn new_token(&self, kind: TokenKind) -> (r: Token)
        requires
            self.start <= self.current,
            self.current - self.start < self.column,
        ensures
            r.kind == kind,
            r.location == (Location {
                line: self.line,
                column: (self.column - (self.current - self.start)) as usize,
            }),
    {
        Token::new(kind, self.current_location())
    }

    /// Advances over digits.
    fn skip_digits(&mut self)
        requires
            old(self).wf(),
            old(self).current - old(self).start < old(self).column,
        ensures
            final(self).wf(),
            final(self).current == digits_end(old(self).chars@, old(self).current as int),
            final(self).current >= old(self).current,
            final(self).current - final(self).start < final(self).column,
            forall|k: int| old(self).current <= k < final(self).current ==> is_digit(#[trigger] old(self).chars@[k]),
            final(self).start == old(self).start,
            final(self).line == old(self).line,
            final(self).column == old(self).column + (final(self).current - old(self).current),
            final(self).chars == old(self).chars,
            final(self).source == old(self).source,
    {
        let ghost cs = self.chars@;
        loop
            invariant
                self.wf(),
                cs == self.chars@,
                self.start == old(self).start,
                self.line == old(self).line,
                self.column == old(self).column + (self.current - old(self).current),
                self.chars == old(self).chars,
                self.source == old(self).source,
                old(self).current <= self.current,
                self.current - self.start < self.column,
                forall|k: int| old(self).current <= k < self.current ==> is_digit(#[trigger] cs[k]),
                digits_end(cs, old(self).current as int) == digits_end(cs, self.current as int),
            decreases cs.len() - self.current,
        {
            match self.peek(0) {
                Some(c) => {
                    if !('0' <= c && c <= '9') {
                        return;
                    }
                    self.advance();
                },
                None => {
                    return;
                },
            }
        }
    }

    /// Reads a number whose first character has been consumed.
    fn handle_numbers(&mut self) -> (r: Token)
        requires
            old(self).wf(),
            old(self).start < old(self).current,
            old(self).current - old(self).start < old(self).column,
            is_digit(old(self).chars@[old(self).start as int]) || (old(self).chars@[old(self).start as int] == '-'
                && old(self).current < old(self).chars@.len() && is_digit(old(self).chars@[old(self).current as int])),
            old(self).current == old(self).start + 1,
        ensures
            final(self).wf(),
            final(self).current == number_end(old(self).chars@, old(self).current as int),
            lexed_as(r.kind, Lexed::Number, old(self).chars@.subrange(old(self).start as int, final(self).current as int)),
            r.location == (Location {
                line: final(self).line,
                column: (final(self).column - (final(self).current - final(self).start)) as usize,
            }),
            final(self).start == old(self).start,
            final(self).line == old(self).line,
            final(self).column == old(self).column + (final(self).current - old(self).current),
            final(self).chars == old(self).chars,
            final(self).source == old(self).source,
    {
        let ghost cs = self.chars@;
        let ghost first = self.current;
        self.skip_digits();
        let d = self.current;
        let mut dotted = false;
        if let Some('.') = self.peek(0) {
            proof {
                assert(cs[d as int] == '.');
            }
            self.advance();
            dotted = true;
            self.skip_digits();
        }
        let ghost lexeme = cs.subrange(self.start as int, self.current as int);
        let kind = if dotted {
            proof {
                assert(lexeme[d - self.start] == '.');
            }
            TokenKind::FloatText(String::from_str(self.source.as_str().substring_char(self.start, self.current)))
        } else {
            proof {
                assert forall|k: int| 0 <= k < lexeme.len() implies lexeme[k] != '.' by {
                    if k > 0 {
                        assert(is_digit(cs[self.start + k]));
                    }
                }
            }
            proof {
                assert(self.start < self.current);
                assert(self.current <= self.chars@.len());
                assert(forall|k: int| self.start < k < self.current ==> is_digit(#[trigger] self.chars@[k]));
            }
            match parse_decimal(&self.chars, self.start, self.current) {
                Some(v) => TokenKind::Integer(v),
                None => TokenKind::Error,
            }
        };
        self.new_token(kind)
    }

    /// Reads a word whose first character has been consumed: a keyword or
    /// an identifier.
    fn handle_identifiers(&mut self) -> (r: Token)
        requires
            old(self).wf(),
            old(self).start < old(self).current,
            old(self).current - old(self).start < old(self).column,
        ensures
            final(self).wf(),
            final(self).current == word_end(old(self).chars@, old(self).current as int),
            lexed_as(r.kind, Lexed::Word, old(self).chars@.subrange(old(self).start as int, final(self).current as int)),
            r.location == (Location {
                line: final(self).line,
                column: (final(self).column - (final(self).current - final(self).start)) as usize,
            }),
            final(self).start == old(self).start,
            final(self).line == old(self).line,
            final(self).column == old(self).column + (final(self).current - old(self).current),
            final(self).chars == old(self).chars,
            final(self).source == old(self).source,
    {
        let ghost cs = self.chars@;
        loop
            invariant
                self.wf(),
                cs == self.chars@,
                self.start == old(self).start,
                self.line == old(self).line,
                self.column == old(self).column + (self.current - old(self).current),
                self.chars == old(self).chars,
                self.source == old(self).source,
                old(self).current <= self.current,
                self.current - self.start < self.column,
                word_end(cs, old(self).current as int) == word_end(cs, self.current as int),
            ensures
                self.wf(),
                cs == self.chars@,
                self.start == old(self).start,
                self.line == old(self).line,
                self.column == old(self).column + (self.current - old(self).current),
                self.chars == old(self).chars,
                self.source == old(self).source,
                self.current - self.start < self.column,
                word_end(cs, old(self).current as int) == self.current,
            decreases cs.len() - self.current,
        {
            match self.peek(0) {
                Some(c) => {
                    if c == ' ' || c == '\t' || c == '\n' || c == '\r' || c == '\x0C' || c == '('
                        || c == ')' || c == '[' || c == ']' || c == '{' || c == '}' || c == '.' {
                        break;
                    }
                    self.advance();
                },
                None => {
                    break;
                },
            }
        }
        let word = String::from_str(self.source.as_str().substring_char(self.start, self.current));
        let kind = match keyword_kind(&word) {
            Some(k) => k,
            None => TokenKind::Identifier(word),
        };
        self.new_token(kind)
    }

    /// Reads a string literal whose opening quote has been consumed.
    fn handle_strings(&mut self) -> (r: Token)
        requires
            old(self).wf(),
            old(self).start < old(self).current,
            old(self).current == old(self).start + 1,
            old(self).current - old(self).start < old(self).column,
        ensures
            final(self).wf(),
            ({
                let q = quote_end(old(self).chars@, old(self).current as int);
                let lexed = if q < old(self).chars@.len() { Lexed::Text } else { Lexed::Unclosed };
                &&& final(self).current == if q < old(self).chars@.len() { q + 1 } else { q }
                &&& lexed_as(r.kind, lexed, old(self).chars@.subrange(old(self).start as int, final(self).current as int))
            }),
            r.location == (Location {
                line: final(self).line,
                column: (final(self).column - (final(self).current - final(self).start)) as usize,
            }),
            final(self).start == old(self).start,
            final(self).line == old(self).line,
            final(self).column == old(self).column + (final(self).current - old(self).current),
            final(self).chars == old(self).chars,
            final(self).source == old(self).source,
    {
        let ghost cs = self.chars@;
        loop
            invariant
                self.wf(),
                cs == self.chars@,
                self.start == old(self).start,
                self.line == old(self).line,
                self.column == old(self).column + (self.current - old(self).current),
                self.chars == old(self).chars,
                self.source == old(self).source,
                old(self).current <= self.current,
                self.current - self.start < self.column,
                quote_end(cs, old(self).current as int) == quote_end(cs, self.current as int),
            ensures
                self.wf(),
                cs == self.chars@,
                self.start == old(self).start,
                self.line == old(self).line,
                self.column == old(self).column + (self.current - old(self).current),
                self.chars == old(self).chars,
                self.source == old(self).source,
                self.current - self.start < self.column,
                old(self).current <= self.current,
                quote_end(cs, old(self).current as int) == self.current,
            decreases cs.len() - self.current,
        {
            match self.peek(0) {
                Some(c) => {
                    if c == '"' {
                        break;
                    }
                    self.advance();
                },
                None => {
                    break;
                },
            }
        }
        if self.is_at_end() {
            return self.new_token(TokenKind::Error);
        }
        self.advance();
        let ghost lexeme = cs.subrange(self.start as int, self.current as int);
        let text = String::from_str(self.source.as_str().substring_char(self.start + 1, self.current - 1));
        proof {
            assert(text@ =~= lexeme.subrange(1, lexeme.len() - 1));
        }
        self.new_token(TokenKind::String(text))
    }

    /// The token of one or two characters whose first character has been
    /// consumed: `two` when the next character is `second`, else `one`.
    fn pair(&mut self, second: char, one: TokenKind, two: TokenKind) -> (r: Token)
        requires
            old(self).wf(),
            old(self).start < old(self).current,
            old(self).current - old(self).start < old(self).column,
        ensures
            final(self).wf(),
            ({
                let (lexed, end) = pair(old(self).chars@, old(self).current as int, second, one, two);
                &&& final(self).current == end
                &&& lexed_as(r.kind, lexed, old(self).chars@.subrange(old(self).start as int, end))
            }),
            r.location == (Location {
                line: final(self).line,
                column: (final(self).column - (final(self).current - final(self).start)) as usize,
            }),
            final(self).start == old(self).start,
            final(self).line == old(self).line,
            final(self).column == old(self).column + (final(self).current - old(self).current),
            final(self).chars == old(self).chars,
            final(self).source == old(self).source,
    {
        if self.peek(0) == Some(second) {
            self.advance();
            self.new_token(two)
        } else {
            self.new_token(one)
        }
    }

    /// Reads the next token, past any whitespace; at the end of the source
    /// it is `EOF`.
    pub fn next(&mut self) -> (r: Token)
        requires
            old(self).wf(),
        ensures
            final(self).wf(),
            ({
                let p = skip_spaces(old(self).chars@, old(self).current as int);
                let (lexed, end) = scan(old(self).chars@, p);
                &&& final(self).start == p
                &&& final(self).current == end
                &&& lexed_as(r.kind, lexed, old(self).chars@.subrange(p, end))
            }),
            r.location == (Location {
                line: final(self).line,
                column: (final(self).column - (final(self).current - final(self).start)) as usize,
            }),
            ({
                let p = skip_spaces(old(self).chars@, old(self).current as int);
                let skipped = old(self).chars@.subrange(old(self).current as int, p);
                &&& r.location.line == line_after(old(self).line as int, skipped)
                &&& r.location.column == column_after(old(self).column as int, skipped)
                &&& final(self).line == r.location.line
                &&& final(self).column == r.location.column + (final(self).current - p)
            }),
            final(self).chars == old(self).chars,
            final(self).source == old(self).source,
    {
        self.skip_whitespace();
        self.start = self.current;
        if self.is_at_end() {
            return self.new_token(TokenKind::EOF);
        }
        let c = self.advance();
        if c == '(' {
            self.new_token(TokenKind::OpenParen)
        } else if c == ')' {
            self.new_token(TokenKind::CloseParen)
        } else if c == '[' {
            self.new_token(TokenKind::OpenBracket)
        } else if c == ']' {
            self.new_token(TokenKind::CloseBracket)
        } else if c == '{' {
            self.new_token(TokenKind::OpenCurly)
        } else if c == '}' {
            self.new_token(TokenKind::CloseCurly)
        } else if c == ',' {
            self.new_token(TokenKind::Comma)
        } else if c == ';' {
            self.new_token(TokenKind::Semicolon)
        } else if c == '+' {
            self.new_token(TokenKind::Plus)
        } else if c == '-' {
            match self.peek(0) {
                Some('>') => {
                    self.advance();
                    self.new_token(TokenKind::Arrow)
                },
                Some(d) => {
                    if '0' <= d && d <= '9' {
                        self.handle_numbers()
                    } else {
                        self.new_token(TokenKind::Minus)
                    }
                },
                None => self.new_token(TokenKind::Minus),
            }
        } else if c == '*' {
            self.new_token(TokenKind::Star)
        } else if c == '/' {
            self.new_token(TokenKind::Slash)
        } else if c == '%' {
            self.new_token(TokenKind::Percent)
        } else if c == '^' {
            self.new_token(TokenKind::Caret)
        } else if c == '.' {
            self.pair('.', TokenKind::Dot, TokenKind::DotDot)
        } else if c == ':' {
            self.pair(':', TokenKind::Colon, TokenKind::ColonColon)
        } else if c == '!' {
            self.pair('=', TokenKind::Bang, TokenKind::BangEqual)
        } else if c == '=' {
            self.pair('=', TokenKind::Equal, TokenKind::EqualEqual)
        } else if c == '>' {
            self.pair('=', TokenKind::Greater, TokenKind::GreaterEqual)
        } else if c == '<' {
            self.pair('=', TokenKind::Less, TokenKind::LessEqual)
        } else if c == '"' {
            self.handle_strings()
        } else if '0' <= c && c <= '9' {
            self.handle_numbers()
        } else {
            self.handle_identifiers()
        }
    }

    /// Reads every token up to and including `EOF`.
    pub fn lex(&mut self) -> (r: Vec<Token>)
        requires
            old(self).wf(),
        ensures
            final(self).wf(),
            r@.len() == spans(old(self).chars@, old(self).current as int).len(),
            forall|i: int|
                0 <= i < r@.len() ==> {
                    let (p, e) = #[trigger] spans(old(self).chars@, old(self).current as int)[i];
                    lexed_as(r@[i].kind, scan(old(self).chars@, p).0, old(self).chars@.subrange(p, e))
                },
            r@.last().kind == TokenKind::EOF,
            final(self).current == final(self).chars@.len(),
    {
        let ghost cs = self.chars@;
        let ghost start = self.current as int;
        let ghost done: Seq<(int, int)> = Seq::empty();
        let mut tokens: Vec<Token> = Vec::new();
        proof {
            assert(spans(cs, start) =~= done + spans(cs, start));
        }
        loop
            invariant
                self.wf(),
                cs == self.chars@,
                cs == old(self).chars@,
                start == old(self).current as int,
                spans(cs, start) == done + spans(cs, self.current as int),
                tokens@.len() == done.len(),
                forall|i: int|
                    0 <= i < tokens@.len() ==> {
                        let (p, e) = #[trigger] done[i];
                        lexed_as(tokens@[i].kind, scan(cs, p).0, cs.subrange(p, e))
                    },
            decreases self.chars@.len() - self.current,
        {
            let ghost before = self.current as int;
            proof {
                Self::lemma_skip_spaces_bounds(cs, before);
            }
            let token = self.next();
            let ghost p = skip_spaces(cs, before);
            let ghost e = scan(cs, p).1;
            if let TokenKind::EOF = token.kind {
                proof {
                    assert(p >= cs.len());
                    assert(spans(cs, before) == seq![(p, p)]);
                    done = done.push((p, p));
                    assert(spans(cs, start) =~= done);
                }
                tokens.push(token);
                return tokens;
            }
            proof {
                assert(spans(cs, before) == seq![(p, e)] + spans(cs, e));
                assert(done + spans(cs, before) =~= done.push((p, e)) + spans(cs, e));
                done = done.push((p, e));
            }
            tokens.push(token);
        }
    }

    proof fn lemma_skip_spaces_bounds(cs: Seq<char>, i: int)
        requires
            0 <= i <= cs.len(),
        ensures
            i <= skip_spaces(cs, i) <= cs.len(),
            skip_spaces(cs, i) < cs.len() ==> scan(cs, skip_spaces(cs, i)).1 > skip_spaces(cs, i),
            scan(cs, skip_spaces(cs, i)).1 <= cs.len(),
        decreases cs.len() - i,
    {
        if i < cs.len() && is_space(cs[i]) {
            Self::lemma_skip_spaces_bounds(cs, i + 1);
        }
        let p = skip_spaces(cs, i);
        if p < cs.len() {
            Self::lemma_ends_past(cs, p + 1);
        }
    }

    proof fn lemma_ends_past(cs: Seq<char>, i: int)
        requires
            0 <= i <= cs.len(),
        ensures
            i <= digits_end(cs, i) <= cs.len(),
            i <= word_end(cs, i) <= cs.len(),
            i <= quote_end(cs, i) <= cs.len(),
            i <= number_end(cs, i) <= cs.len(),
        decreases cs.len() - i,
    {
        if i < cs.len() {
            Self::lemma_ends_past(cs, i + 1);
        }
        let d = digits_end(cs, i);
        if 0 <= d < cs.len() && cs[d] == '.' {
            Self::lemma_ends_past(cs, d + 1);
        }
    }
}

} // verus!
