//! A character lexer for the reaction notation.
use crate::tok::{Indexes, Location, Token, Type};
use vstd::prelude::*;

verus! {

/// Whether `c` has the Unicode `White_Space` property.
pub uninterp spec fn white_space(c: char) -> bool;

/// Relies on `char::is_whitespace`: the Unicode `White_Space` property, which
/// space, tab, newline and carriage return have.
#[verifier::external_body]
fn is_whitespace(c: char) -> (r: bool)
    ensures
        r == white_space(c),
        c == ' ' || c == '\t' || c == '\n' || c == '\r' ==> r,
{
    c.is_whitespace()
}

/// Relies on `Iterator::collect` over `str::chars`: the characters of `s`.
#[verifier::external_body]
fn chars_of(s: &String) -> (r: Vec<char>)
    ensures
        r@ == s@,
{
    s.chars().collect()
}

/// Relies on `String::push`: appends `c`.
#[verifier::external_body]
fn push_char(s: &mut String, c: char)
    ensures
        final(s)@ == old(s)@.push(c),
{
    s.push(c)
}

/// Relies on `format!`: the message for a character that starts no token,
/// the character written as itself.
#[verifier::external_body]
fn unknown_character(c: char) -> (r: String)
    ensures
        r@ == "unknown character: "@.push(c),
{
    format!("unknown character: {c}")
}

/// Relies on `format!`: the message for a `-` not followed by `>`, the
/// character written as itself.
#[verifier::external_body]
fn expected_arrow(c: char) -> (r: String)
    ensures
        r@ == "expected `>` after `-`, got "@.push(c),
{
    format!("expected `>` after `-`, got {}", c)
}

/// The number of newlines among the first `n` characters of `s`.
pub open spec fn newlines(s: Seq<char>, n: int) -> int
    decreases n,
{
    if n <= 0 || n > s.len() {
        0
    } else {
        newlines(s, n - 1) + if s[n - 1] == '\n' {
            1int
        } else {
            0int
        }
    }
}

pub proof fn lemma_newlines_bound(s: Seq<char>, n: int)
    requires
        0 <= n <= s.len(),
    ensures
        0 <= newlines(s, n) <= n,
    decreases n,
{
    if n > 0 {
        lemma_newlines_bound(s, n - 1);
    }
}

/// The position of the first character at or after `i` that is not
/// whitespace, or the length of `s` when there is none.
pub open spec fn skip_space(s: Seq<char>, i: int) -> int
    decreases s.len() - i,
{
    if i >= s.len() {
        s.len() as int
    } else if white_space(s[i]) {
        skip_space(s, i + 1)
    } else {
        i
    }
}

pub proof fn lemma_skip_space(s: Seq<char>, i: int, j: int)
    requires
        0 <= i <= j <= s.len(),
        forall|m: int| i <= m < j ==> white_space(#[trigger] s[m]),
    ensures
        skip_space(s, i) == skip_space(s, j),
    decreases j - i,
{
    if i < j {
        lemma_skip_space(s, i + 1, j);
    }
}

/// Whether two character sequences are equal.
fn same_chars(a: &Vec<char>, b: &Vec<char>) -> (r: bool)
    ensures
        r == (a@ == b@),
{
    if a.len() != b.len() {
        return false;
    }
    let mut i: usize = 0;
    while i < a.len()
        invariant
            a@.len() == b@.len(),
            0 <= i <= a@.len(),
            forall|j: int| 0 <= j < i ==> a@[j] == b@[j],
        decreases a@.len() - i,
    {
        if a[i] != b[i] {
            return false;
        }
        i = i + 1;
    }
    proof {
        assert(a@ =~= b@);
    }
    true
}

/// Whether `c` is a token on its own.
pub open spec fn single_symbol(c: char) -> bool {
    c == '+' || c == '_' || c == '(' || c == ')' || c == '[' || c == ']' || c == '{' || c == '}'
        || c == '<' || c == '>' || c == ':' || c == ','
}

/// Whether a token can start with `c`.
pub open spec fn starts_token(c: char) -> bool {
    c == '+' || c == '_' || c == '(' || c == ')' || c == '[' || c == ']' || c == '{' || c == '}'
        || c == '<' || c == '>' || c == ':' || c == ',' || c == '-' || c == ';' || ('A' <= c
        && c <= 'Z') || c == '"' || c == '^'
}

/// A lexer over a sequence of characters: `idx` characters have been read,
/// `ch` is the last one read, and `line` and `col` give its position.
#[derive(Debug)]
pub struct Lexer {
    pub code: Vec<char>,
    pub idx: usize,
    pub line: usize,
    pub col: usize,
    pub ch: char,
}

impl Lexer {
    /// Where the next token starts: the first character from the read
    /// position on that is not whitespace.
    pub open spec fn token_start(&self) -> int {
        skip_space(self.code@, self.idx as int)
    }

    /// The characters being read.
    pub open spec fn code(&self) -> Seq<char> {
        self.code@
    }

    /// The read position is inside the text and every counter stays below the
    /// text's length plus one.
    pub open spec fn wf(&self) -> bool {
        &&& self.idx <= self.code@.len()
        &&& self.code@.len() < usize::MAX
        &&& self.line == 1 + newlines(self.code@, self.idx as int)
        &&& self.col <= self.idx
    }

    pub fn new(code: String) -> (r: Lexer)
        requires
            code@.len() < usize::MAX,
        ensures
            r.wf(),
            r.code() == code@,
            r.idx == 0,
            r.line == 1,
            r.col == 0,
            r.ch == '\0',
    {
        Lexer { idx: 0, line: 1, col: 0, code: chars_of(&code), ch: '\0' }
    }

    /// Reads the next character; a newline moves to the start of the next
    /// line. Fails, changing nothing, at the end of the text.
    pub fn read_char(&mut self) -> (r: Result<char, String>)
        requires
            old(self).wf(),
        ensures
            final(self).wf(),
            final(self).code() == old(self).code(),
            old(self).idx < old(self).code().len() ==> {
                let c = old(self).code()[old(self).idx as int];
                &&& r == Ok::<char, String>(c)
                &&& final(self).ch == c
                &&& final(self).idx == old(self).idx + 1
                &&& final(self).line == old(self).line + (if c == '\n' { 1int } else { 0int })
                &&& c == '\n' ==> final(self).col == 0
                &&& c != '\n' ==> final(self).col == old(self).col + 1
            },
            old(self).idx >= old(self).code().len() ==> r is Err && *final(self) == *old(self),
    {
        if self.idx < self.code.len() {
            proof {
                lemma_newlines_bound(self.code@, self.idx as int);
            }
            self.ch = self.code[self.idx];
            if self.ch == '\n' {
                self.line = self.line + 1;
                self.col = 0;
            } else {
                self.col = self.col + 1;
            }
            self.idx = self.idx + 1;
            Ok(self.ch)
        } else {
            Err("could not get another char".to_string())
        }
    }

    /// Steps back over the last character read, which becomes the current
    /// one. Fails, changing nothing, at the start of the text.
    pub fn put_back(&mut self) -> (r: Result<char, String>)
        requires
            old(self).wf(),
        ensures
            final(self).wf(),
            final(self).code() == old(self).code(),
            old(self).idx > 0 ==> {
                let c = old(self).code()[old(self).idx - 1];
                &&& r == Ok::<char, String>(c)
                &&& final(self).ch == c
                &&& final(self).idx == old(self).idx - 1
                &&& old(self).col > 0 ==> final(self).col == old(self).col - 1
                &&& old(self).col == 0 ==> final(self).col == 0
                &&& final(self).line == old(self).line - (if c == '\n' { 1int } else { 0int })
            },
            old(self).idx == 0 ==> r is Err && *final(self) == *old(self),
    {
        if self.idx == 0 {
            return Err("could not put back char".to_string());
        }
        self.idx = self.idx - 1;
        if self.col > 0 {
            self.col = self.col - 1;
        }
        self.ch = self.code[self.idx];
        proof {
            lemma_newlines_bound(self.code@, self.idx as int);
        }
        if self.ch == '\n' {
            self.line = self.line - 1;
        }
        Ok(self.ch)
    }

    /// Reads tokens until the text is used up, skipping those that fail. The
    /// tokens come in the order they stand in the text: each starts after the
    /// one before, and all within the text read.
    pub fn all_tokens(&mut self) -> (r: Vec<Token>)
        requires
            old(self).wf(),
        ensures
            final(self).wf(),
            final(self).code() == old(self).code(),
            final(self).idx >= final(self).code().len(),
            forall|i: int| 0 <= i < r@.len() ==> old(self).idx < (#[trigger] r@[i]).loc.start.0 <= final(self).idx,
            forall|i: int, j: int| 0 <= i < j < r@.len() ==> r@[i].loc.start.0 < r@[j].loc.start.0,
    {
        let mut tokens: Vec<Token> = Vec::new();
        while self.idx < self.code.len()
            invariant
                self.wf(),
                self.code() == old(self).code(),
                self.idx >= old(self).idx,
                forall|i: int| 0 <= i < tokens@.len() ==> old(self).idx < (#[trigger] tokens@[i]).loc.start.0 <= self.idx,
                forall|i: int, j: int| 0 <= i < j < tokens@.len() ==> tokens@[i].loc.start.0 < tokens@[j].loc.start.0,
            decreases self.code@.len() - self.idx,
        {
            let ghost before = self.idx;
            match self.next_token() {
                Ok(t) => {
                    proof {
                        assert(before < t.loc.start.0);
                    }
                    tokens.push(t);
                },
                Err(_) => {},
            }
        }
        tokens
    }

    /// A one-character token at the current position.
    fn single(&self, token: Type) -> (r: Token)
        requires
            self.wf(),
        ensures
            r.token == token,
            r.loc.start.0 == self.idx && r.loc.start.1 == self.line && r.loc.start.2 == self.col,
            r.loc.end.0 == self.idx + 1 && r.loc.end.1 == self.line && r.loc.end.2 == self.col,
    {
        Token {
            token,
            loc: Location {
                start: Indexes(self.idx, self.line, self.col),
                end: Indexes(self.idx + 1, self.line, self.col),
            },
        }
    }

    /// A token from a saved start to the current position.
    fn spanning(&self, token: Type, idx: usize, line: usize, col: usize) -> (r: Token)
        requires
            self.wf(),
        ensures
            r.token == token,
            r.loc.start.0 == idx,
    {
        Token {
            token,
            loc: Location {
                start: Indexes(idx, line, col),
                end: Indexes(self.idx + 1, self.line, self.col),
            },
        }
    }

    /// Reads one token, after any whitespace. Whenever text is left, at least
    /// one character is consumed, whether or not a token comes out. A token
    /// starts at the first character that is not whitespace; a one-character
    /// symbol there is its token, and a character that starts no token is an
    /// error.
    pub fn next_token(&mut self) -> (r: Result<Token, String>)
        requires
            old(self).wf(),
        ensures
            final(self).wf(),
            final(self).code() == old(self).code(),
            old(self).idx < old(self).code().len() ==> final(self).idx > old(self).idx,
            final(self).idx >= old(self).idx,
            old(self).token_start() == old(self).code().len() ==> r is Err,
            r matches Ok(t) ==> old(self).idx < t.loc.start.0 <= final(self).idx,
            old(self).token_start() < old(self).code().len() ==> final(self).idx >= old(self).token_start() + 1,
            old(self).token_start() < old(self).code().len() && old(self).code()[old(self).token_start()] == '+' ==> (r matches Ok(t) && t.token is Plus && final(self).idx == old(self).token_start() + 1),
            old(self).token_start() < old(self).code().len() && old(self).code()[old(self).token_start()] == '_' ==> (r matches Ok(t) && t.token is Underscore && final(self).idx == old(self).token_start() + 1),
            old(self).token_start() < old(self).code().len() && old(self).code()[old(self).token_start()] == '(' ==> (r matches Ok(t) && t.token is LParen && final(self).idx == old(self).token_start() + 1),
            old(self).token_start() < old(self).code().len() && old(self).code()[old(self).token_start()] == ')' ==> (r matches Ok(t) && t.token is RParen && final(self).idx == old(self).token_start() + 1),
            old(self).token_start() < old(self).code().len() && old(self).code()[old(self).token_start()] == '[' ==> (r matches Ok(t) && t.token is LBracket && final(self).idx == old(self).token_start() + 1),
            old(self).token_start() < old(self).code().len() && old(self).code()[old(self).token_start()] == ']' ==> (r matches Ok(t) && t.token is RBracket && final(self).idx == old(self).token_start() + 1),
            old(self).token_start() < old(self).code().len() && old(self).code()[old(self).token_start()] == '{' ==> (r matches Ok(t) && t.token is LBrace && final(self).idx == old(self).token_start() + 1),
            old(self).token_start() < old(self).code().len() && old(self).code()[old(self).token_start()] == '}' ==> (r matches Ok(t) && t.token is RBrace && final(self).idx == old(self).token_start() + 1),
            old(self).token_start() < old(self).code().len() && old(self).code()[old(self).token_start()] == '<' ==> (r matches Ok(t) && t.token is LAngle && final(self).idx == old(self).token_start() + 1),
            old(self).token_start() < old(self).code().len() && old(self).code()[old(self).token_start()] == '>' ==> (r matches Ok(t) && t.token is RAngle && final(self).idx == old(self).token_start() + 1),
            old(self).token_start() < old(self).code().len() && old(self).code()[old(self).token_start()] == ':' ==> (r matches Ok(t) && t.token is Colon && final(self).idx == old(self).token_start() + 1),
            old(self).token_start() < old(self).code().len() && old(self).code()[old(self).token_start()] == ',' ==> (r matches Ok(t) && t.token is Comma && final(self).idx == old(self).token_start() + 1),
            old(self).token_start() + 1 < old(self).code().len() && old(self).code()[old(self).token_start()] == '-' ==> (old(self).code()[old(self).token_start() + 1] == '>' <==> (r matches Ok(t) && t.token is Arrow)),
            old(self).token_start() < old(self).code().len() && !starts_token(old(self).code()[old(self).token_start()]) ==> (r matches Err(m) && m@ == "unknown character: "@.push(old(self).code()[old(self).token_start()])) && final(self).idx == old(self).token_start() + 1,
            old(self).token_start() + 1 < old(self).code().len() && old(self).code()[old(self).token_start()] == '-' && old(self).code()[old(self).token_start() + 1] != '>' ==> (r matches Err(m) && m@ == "expected `>` after `-`, got "@.push(old(self).code()[old(self).token_start() + 1])),
            old(self).token_start() < old(self).code().len() && single_symbol(old(self).code()[old(self).token_start()]) ==> (r matches Ok(t) && t.loc.start.0 == old(self).token_start() + 1 && t.loc.end.0 == old(self).token_start() + 2 && t.loc.start.1 == 1 + newlines(old(self).code(), old(self).token_start() + 1) && t.loc.end.1 == t.loc.start.1),
    {
        let ghost code = self.code@;
        let ghost i0 = self.idx as int;
        match self.read_char() {
            Ok(_) => {},
            Err(e) => {
                proof {
                    assert(skip_space(code, i0) == code.len());
                }
                return Err(e);
            },
        }
        while is_whitespace(self.ch)
            invariant
                self.wf(),
                self.code() == old(self).code(),
                self.idx > old(self).idx,
                code == self.code@,
                i0 == old(self).idx,
                self.idx <= code.len(),
                self.ch == code[self.idx - 1],
                forall|m: int| i0 <= m < self.idx - 1 ==> white_space(#[trigger] code[m]),
            decreases self.code@.len() - self.idx,
        {
            proof {
                assert(white_space(code[self.idx - 1]));
                assert forall|m: int| i0 <= m < self.idx implies white_space(#[trigger] code[m]) by {
                    if m == self.idx - 1 {
                        assert(code[m] == self.ch);
                    }
                }
            }
            match self.read_char() {
                Ok(_) => {},
                Err(e) => {
                    proof {
                        lemma_skip_space(code, i0, self.idx as int);
                        assert(skip_space(code, code.len() as int) == code.len());
                    }
                    return Err(e);
                },
            }
        }
        proof {
            lemma_skip_space(code, i0, self.idx - 1);
            assert(!white_space(code[self.idx - 1]));
            assert(skip_space(code, self.idx - 1) == self.idx - 1);
        }
        let c = self.ch;
        if c == '+' {
            Ok(self.single(Type::Plus))
        } else if c == '_' {
            Ok(self.single(Type::Underscore))
        } else if c == '(' {
            Ok(self.single(Type::LParen))
        } else if c == ')' {
            Ok(self.single(Type::RParen))
        } else if c == '[' {
            Ok(self.single(Type::LBracket))
        } else if c == ']' {
            Ok(self.single(Type::RBracket))
        } else if c == '{' {
            Ok(self.single(Type::LBrace))
        } else if c == '}' {
            Ok(self.single(Type::RBrace))
        } else if c == '<' {
            Ok(self.single(Type::LAngle))
        } else if c == '>' {
            Ok(self.single(Type::RAngle))
        } else if c == ':' {
            Ok(self.single(Type::Colon))
        } else if c == ',' {
            Ok(self.single(Type::Comma))
        } else if c == '-' {
            let (idx, line, col) = (self.idx, self.line, self.col);
            match self.read_char() {
                Ok(_) => {},
                Err(e) => return Err(e),
            }
            if self.ch != '>' {
                Err(expected_arrow(self.ch))
            } else {
                Ok(Token {
                    token: Type::Arrow,
                    loc: Location {
                        start: Indexes(idx, line, col),
                        end: Indexes(idx + 1, line, col),
                    },
                })
            }
        } else if c == ';' {
            self.comment()
        } else if 'A' <= c && c <= 'Z' {
            self.element()
        } else if c == '"' {
            self.string_literal()
        } else if c == '^' {
            self.number()
        } else {
            Err(unknown_character(c))
        }
    }

    /// A number after a caret: an optional minus sign, then digits.
    fn number(&mut self) -> (r: Result<Token, String>)
        requires
            old(self).wf(),
            old(self).idx > 0,
        ensures
            final(self).wf(),
            final(self).code() == old(self).code(),
            final(self).idx >= old(self).idx,
            r matches Ok(t) ==> t.loc.start.0 == old(self).idx,
    {
        let mut chars = String::new();
        let (idx, line, col) = (self.idx, self.line, self.col);
        match self.read_char() {
            Ok(_) => {},
            Err(e) => return Err(e),
        }
        if self.ch == '-' {
            push_char(&mut chars, self.ch);
        }
        while '0' <= self.ch && self.ch <= '9'
            invariant
                idx == old(self).idx,
                self.wf(),
                self.code() == old(self).code(),
                self.idx > old(self).idx,
            decreases self.code@.len() - self.idx,
        {
            match self.read_char() {
                Ok(_) => {},
                Err(e) => return Err(e),
            }
            if '0' <= self.ch && self.ch <= '9' {
                push_char(&mut chars, self.ch);
            } else {
                match self.put_back() {
                    Ok(_) => {},
                    Err(e) => return Err(e),
                }
                break;
            }
        }
        Ok(self.spanning(Type::Number(chars), idx, line, col))
    }

    /// A string literal after its opening quote, up to the closing quote; a
    /// backslash before a quote keeps the quote in the string.
    fn string_literal(&mut self) -> (r: Result<Token, String>)
        requires
            old(self).wf(),
        ensures
            final(self).wf(),
            final(self).code() == old(self).code(),
            final(self).idx >= old(self).idx,
            r matches Ok(t) ==> t.loc.start.0 == old(self).idx,
    {
        let mut chars = String::new();
        let (idx, line, col) = (self.idx, self.line, self.col);
        match self.read_char() {
            Ok(_) => {},
            Err(e) => return Err(e),
        }
        while self.ch != '"'
            invariant
                idx == old(self).idx,
                self.wf(),
                self.code() == old(self).code(),
                self.idx > old(self).idx,
            decreases self.code@.len() - self.idx,
        {
            push_char(&mut chars, self.ch);
            if self.ch == '\\' {
                match self.read_char() {
                    Ok(_) => {},
                    Err(e) => return Err(e),
                }
                if self.ch == '"' {
                    push_char(&mut chars, self.ch);
                } else {
                    match self.put_back() {
                        Ok(_) => {},
                        Err(e) => return Err(e),
                    }
                }
            }
            match self.read_char() {
                Ok(_) => {},
                Err(e) => return Err(e),
            }
        }
        Ok(self.spanning(Type::String(chars), idx, line, col))
    }

    /// An element symbol: a capital letter and the lower-case letters after
    /// it; the words `light` and `heat` are tokens of their own.
    fn element(&mut self) -> (r: Result<Token, String>)
        requires
            old(self).wf(),
        ensures
            final(self).wf(),
            final(self).code() == old(self).code(),
            final(self).idx >= old(self).idx,
            r matches Ok(t) ==> t.loc.start.0 == old(self).idx,
    {
        let mut lexeme: Vec<char> = Vec::new();
        let light: Vec<char> = vec!['l', 'i', 'g', 'h', 't'];
        let heat: Vec<char> = vec!['h', 'e', 'a', 't'];
        let mut text = String::new();
        let (idx, line, col) = (self.idx, self.line, self.col);
        lexeme.push(self.ch);
        push_char(&mut text, self.ch);
        match self.read_char() {
            Ok(_) => {},
            Err(e) => return Err(e),
        }
        while 'a' <= self.ch && self.ch <= 'z'
            invariant
                idx == old(self).idx,
                self.wf(),
                self.code() == old(self).code(),
                self.idx > old(self).idx,
            decreases self.code@.len() - self.idx,
        {
            if same_chars(&lexeme, &light) {
                return Ok(self.spanning(Type::Light, idx, line, col));
            } else if same_chars(&lexeme, &heat) {
                return Ok(self.spanning(Type::Heat, idx, line, col));
            } else {
                lexeme.push(self.ch);
                push_char(&mut text, self.ch);
                match self.read_char() {
                    Ok(_) => {},
                    Err(e) => return Err(e),
                }
            }
        }
        match self.put_back() {
            Ok(_) => {},
            Err(e) => return Err(e),
        }
        Ok(self.spanning(Type::Element(text), idx, line, col))
    }

    /// A comment: from the semicolon up to the end of the line.
    fn comment(&mut self) -> (r: Result<Token, String>)
        requires
            old(self).wf(),
        ensures
            final(self).wf(),
            final(self).code() == old(self).code(),
            final(self).idx >= old(self).idx,
            r matches Ok(t) ==> t.loc.start.0 == old(self).idx,
    {
        let mut comment = String::new();
        let (idx, line, col) = (self.idx, self.line, self.col);
        while self.ch != '\n'
            invariant
                idx == old(self).idx,
                self.wf(),
                self.code() == old(self).code(),
                self.idx >= old(self).idx,
            decreases self.code@.len() - self.idx,
        {
            push_char(&mut comment, self.ch);
            match self.read_char() {
                Ok(_) => {},
                Err(e) => return Err(e),
            }
        }
        Ok(self.spanning(Type::Comment(comment), idx, line, col))
    }
}

} // verus!
