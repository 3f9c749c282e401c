use vstd::prelude::*;

verus! {

/// Spec-level image of a token: payloads appear as character sequences.
#[verifier::ext_equal]
pub enum TokView {
    Asterisk,
    CloseBraces,
    CloseParen,
    Comma,
    Dot,
    Colon,
    Equals,
    OpenBraces,
    OpenParen,
    Newline,
    Whitespace,
    ForwardSlash,
    Eof,
    Str(Seq<char>),
    CatchAll(Seq<char>),
    Ident(Seq<char>),
}

/// One token of the scripting language, as handed out by the lexer.
#[derive(Debug)]
pub enum TokenType {
    Asterisk,
    CloseBraces,
    CloseParen,
    Comma,
    Dot,
    Colon,
    Equals,
    OpenBraces,
    OpenParen,
    Newline,
    Whitespace,
    ForwardSlash,
    EOF,
    String(String),
    CatchAll(String),
    Identifier(String),
}

impl View for TokenType {
    type V = TokView;

    open spec fn view(&self) -> TokView {
        match self {
            TokenType::Asterisk => TokView::Asterisk,
            TokenType::CloseBraces => TokView::CloseBraces,
            TokenType::CloseParen => TokView::CloseParen,
            TokenType::Comma => TokView::Comma,
            TokenType::Dot => TokView::Dot,
            TokenType::Colon => TokView::Colon,
            TokenType::Equals => TokView::Equals,
            TokenType::OpenBraces => TokView::OpenBraces,
            TokenType::OpenParen => TokView::OpenParen,
            TokenType::Newline => TokView::Newline,
            TokenType::Whitespace => TokView::Whitespace,
            TokenType::ForwardSlash => TokView::ForwardSlash,
            TokenType::EOF => TokView::Eof,
            TokenType::String(s) => TokView::Str(s@),
            TokenType::CatchAll(s) => TokView::CatchAll(s@),
            TokenType::Identifier(s) => TokView::Ident(s@),
        }
    }
}

/// A structural copy of a token, equal to the original.
pub fn clone_token(t: &TokenType) -> (r: TokenType)
    ensures
        r == *t,
{
    match t {
        TokenType::Asterisk => TokenType::Asterisk,
        TokenType::CloseBraces => TokenType::CloseBraces,
        TokenType::CloseParen => TokenType::CloseParen,
        TokenType::Comma => TokenType::Comma,
        TokenType::Dot => TokenType::Dot,
        TokenType::Colon => TokenType::Colon,
        TokenType::Equals => TokenType::Equals,
        TokenType::OpenBraces => TokenType::OpenBraces,
        TokenType::OpenParen => TokenType::OpenParen,
        TokenType::Newline => TokenType::Newline,
        TokenType::Whitespace => TokenType::Whitespace,
        TokenType::ForwardSlash => TokenType::ForwardSlash,
        TokenType::EOF => TokenType::EOF,
        TokenType::String(s) => TokenType::String(s.clone()),
        TokenType::CatchAll(s) => TokenType::CatchAll(s.clone()),
        TokenType::Identifier(s) => TokenType::Identifier(s.clone()),
    }
}

/// A token's spec-level image has the same variant as the token.
pub proof fn lemma_token_view_variant(t: TokenType)
    ensures
        (t@ is Asterisk) == (t is Asterisk),
        (t@ is CloseBraces) == (t is CloseBraces),
        (t@ is CloseParen) == (t is CloseParen),
        (t@ is Comma) == (t is Comma),
        (t@ is Dot) == (t is Dot),
        (t@ is Colon) == (t is Colon),
        (t@ is Equals) == (t is Equals),
        (t@ is OpenBraces) == (t is OpenBraces),
        (t@ is OpenParen) == (t is OpenParen),
        (t@ is Newline) == (t is Newline),
        (t@ is Whitespace) == (t is Whitespace),
        (t@ is ForwardSlash) == (t is ForwardSlash),
        (t@ is Eof) == (t is EOF),
        (t@ is Str) == (t is String),
        (t@ is CatchAll) == (t is CatchAll),
        (t@ is Ident) == (t is Identifier),
{
    match t {
        TokenType::Asterisk => {},
        TokenType::CloseBraces => {},
        TokenType::CloseParen => {},
        TokenType::Comma => {},
        TokenType::Dot => {},
        TokenType::Colon => {},
        TokenType::Equals => {},
        TokenType::OpenBraces => {},
        TokenType::OpenParen => {},
        TokenType::Newline => {},
        TokenType::Whitespace => {},
        TokenType::ForwardSlash => {},
        TokenType::EOF => {},
        TokenType::String(_) => {},
        TokenType::CatchAll(_) => {},
        TokenType::Identifier(_) => {},
    }
}

// ---- character classes ----

pub open spec fn is_ws_char(c: char) -> bool {
    c == ' ' || c == '\t' || c == '\r'
}

pub open spec fn is_alpha_char(c: char) -> bool {
    (97 <= c as u32 && c as u32 <= 122) || (65 <= c as u32 && c as u32 <= 90)
}

pub open spec fn is_digit_char(c: char) -> bool {
    48 <= c as u32 && c as u32 <= 57
}

pub open spec fn is_ident_char(c: char) -> bool {
    is_alpha_char(c) || is_digit_char(c) || c as u32 == 95 || c as u32 == 36
}

fn check_ws(c: char) -> (b: bool)
    ensures
        b == is_ws_char(c),
{
    c == ' ' || c == '\t' || c == '\r'
}

fn check_alpha(c: char) -> (b: bool)
    ensures
        b == is_alpha_char(c),
{
    let u = c as u32;
    (97 <= u && u <= 122) || (65 <= u && u <= 90)
}

fn check_ident(c: char) -> (b: bool)
    ensures
        b == is_ident_char(c),
{
    let u = c as u32;
    check_alpha(c) || (48 <= u && u <= 57) || u == 95 || u == 36
}

// ---- spec-level tokenizer ----

/// Length of the run of characters satisfying `pred`, starting at `pos`.
pub open spec fn run_len(s: Seq<char>, pos: int, pred: spec_fn(char) -> bool) -> int
    decreases s.len() - pos,
{
    if pos < 0 || pos >= s.len() || !pred(s[pos]) {
        0
    } else {
        1 + run_len(s, pos + 1, pred)
    }
}

pub open spec fn not_quote_pred(quote: char) -> spec_fn(char) -> bool {
    |x: char| x != quote
}

pub open spec fn ident_pred() -> spec_fn(char) -> bool {
    |x: char| is_ident_char(x)
}

pub proof fn lemma_run_len_bounds(s: Seq<char>, pos: int, pred: spec_fn(char) -> bool)
    ensures
        0 <= run_len(s, pos, pred),
        0 <= pos <= s.len() ==> pos + run_len(s, pos, pred) <= s.len(),
    decreases s.len() - pos,
{
    if 0 <= pos && pos < s.len() && pred(s[pos]) {
        lemma_run_len_bounds(s, pos + 1, pred);
    }
}

pub proof fn lemma_run_len_eq(s: Seq<char>, pos: int, j: int, pred: spec_fn(char) -> bool)
    requires
        0 <= pos <= j <= s.len(),
        forall|k: int| pos <= k < j ==> pred(s[k]),
        j == s.len() || !pred(s[j]),
    ensures
        run_len(s, pos, pred) == j - pos,
    decreases j - pos,
{
    if pos < j {
        lemma_run_len_eq(s, pos + 1, j, pred);
    }
}

/// The token found at `pos`, and how many characters it occupies.
pub open spec fn spec_peek(s: Seq<char>, pos: int) -> (TokView, int) {
    if pos < 0 || pos >= s.len() {
        (TokView::Eof, 0)
    } else {
        let c = s[pos];
        if c == '*' {
            (TokView::Asterisk, 1)
        } else if c == '/' {
            (TokView::ForwardSlash, 1)
        } else if c == ',' {
            (TokView::Comma, 1)
        } else if c == '.' {
            (TokView::Dot, 1)
        } else if c == ':' {
            (TokView::Colon, 1)
        } else if c == '(' {
            (TokView::OpenParen, 1)
        } else if c == ')' {
            (TokView::CloseParen, 1)
        } else if c == '{' {
            (TokView::OpenBraces, 1)
        } else if c == '}' {
            (TokView::CloseBraces, 1)
        } else if c == '=' {
            (TokView::Equals, 1)
        } else if c == '\n' {
            (TokView::Newline, 1)
        } else if c == '"' || c == '\'' {
            let n = run_len(s, pos + 1, not_quote_pred(c));
            (TokView::Str(s.subrange(pos + 1, pos + 1 + n)), n + 2)
        } else if is_ws_char(c) {
            (TokView::Whitespace, 1)
        } else if is_alpha_char(c) {
            let n = run_len(s, pos, ident_pred());
            (TokView::Ident(s.subrange(pos, pos + n)), n)
        } else {
            (TokView::CatchAll(s.subrange(pos, pos + 1)), 1)
        }
    }
}

/// Position and token after skipping whitespace, starting at `pos`.
pub open spec fn spec_skip_ws(s: Seq<char>, pos: int) -> (TokView, int)
    decreases s.len() - pos,
{
    if 0 <= pos && pos < s.len() && is_ws_char(s[pos]) {
        spec_skip_ws(s, pos + 1)
    } else {
        let (t, n) = spec_peek(s, pos);
        (t, pos + n)
    }
}

/// What one call of `next_token` does: the token returned, the position after
/// it, and the line counter after it.
pub open spec fn spec_next(s: Seq<char>, pos: int, line: int, prev_nl: bool) -> (TokView, int, int) {
    let l = if prev_nl {
        line + 1
    } else {
        line
    };
    let r = spec_skip_ws(s, pos);
    (r.0, r.1, l)
}

pub proof fn lemma_skip_ws_props(s: Seq<char>, pos: int)
    requires
        0 <= pos <= s.len() + 1,
    ensures
        ({
            let (t, p) = spec_skip_ws(s, pos);
            &&& pos <= p <= s.len() + 1
            &&& !(t is Whitespace)
            &&& (!(t is Eof) ==> pos + 1 <= p)
            &&& (t is Newline ==> p <= s.len())
            &&& (t is Eof ==> p <= s.len() + 1)
        }),
    decreases s.len() - pos,
{
    if 0 <= pos && pos < s.len() && is_ws_char(s[pos]) {
        lemma_skip_ws_props(s, pos + 1);
    } else {
        if 0 <= pos && pos < s.len() {
            let c = s[pos];
            if c == '"' || c == '\'' {
                lemma_run_len_bounds(s, pos + 1, not_quote_pred(c));
            }
            if is_alpha_char(c) {
                assert(ident_pred()(s[pos]));
                lemma_run_len_bounds(s, pos, ident_pred());
                lemma_run_len_bounds(s, pos + 1, ident_pred());
            }
        }
    }
}

// ---- the executable lexer ----

/// Where the lexer stands in its input: character position, current line, and
/// the token handed out last (whitespace at the start).
pub struct Cursor {
    pos: usize,
    pub line_num: usize,
    prev: TokenType,
}

impl Cursor {
    /// The character position of the cursor.
    pub closed spec fn spec_pos(&self) -> int {
        self.pos as int
    }

    /// The line counter of the cursor.
    pub closed spec fn spec_line(&self) -> int {
        self.line_num as int
    }

    /// The token handed out last.
    pub closed spec fn spec_prev(&self) -> TokView {
        self.prev@
    }
}

impl Default for Cursor {
    fn default() -> (c: Cursor)
        ensures
            c.spec_pos() == 0,
            c.spec_line() == 0,
            c.spec_prev() is Whitespace,
    {
        Cursor { pos: 0, line_num: 0, prev: TokenType::Whitespace }
    }
}

/// On-demand tokenizer over one source text.
pub struct Lexer {
    src_chars: Vec<char>,
    src_str: String,
    pub cursor: Cursor,
}

impl Lexer {
    /// The source text under the lexer.
    pub closed spec fn spec_src(&self) -> Seq<char> {
        self.src_chars@
    }

    /// The current character position.
    pub closed spec fn spec_pos(&self) -> int {
        self.cursor.pos as int
    }

    /// The current line counter.
    pub closed spec fn spec_line(&self) -> int {
        self.cursor.line_num as int
    }

    /// Whether the token handed out last was a newline.
    pub closed spec fn spec_prev_nl(&self) -> bool {
        self.cursor.prev@ is Newline
    }

    /// The source-side part of well-formedness: the two copies of the text
    /// agree and the position stays within one past the end.
    pub closed spec fn wf_src(&self) -> bool {
        &&& self.src_chars@ == self.src_str@
        &&& self.src_chars@.len() + 2 <= usize::MAX
        &&& self.cursor.pos <= self.src_chars@.len() + 1
    }

    pub closed spec fn wf(&self) -> bool {
        &&& self.wf_src()
        &&& self.cursor.line_num <= self.cursor.pos
        &&& (self.cursor.prev@ is Newline ==> self.cursor.line_num < self.cursor.pos)
    }

    /// Both lexers hold the same source text.
    pub closed spec fn same_text(&self, other: &Lexer) -> bool {
        self.src_chars == other.src_chars && self.src_str == other.src_str
    }

    /// The lexer's position and the length of its source stay in step.
    pub proof fn lemma_bounds(&self)
        requires
            self.wf(),
        ensures
            0 <= self.spec_pos() <= self.spec_src().len() + 1,
            self.spec_src().len() + 2 <= usize::MAX,
    {
    }

    /// The line counter, as the parser reads it between tokens.
    pub fn current_line(&self) -> (r: usize)
        ensures
            r as int == self.spec_line(),
    {
        self.cursor.line_num
    }

    pub fn new(src: &str) -> (l: Lexer)
        requires
            src@.len() + 2 <= usize::MAX,
        ensures
            l.wf(),
            l.spec_src() == src@,
            l.spec_pos() == 0,
            l.spec_line() == 0,
            !l.spec_prev_nl(),
    {
        let src_chars = chars_vec(src);
        let src_str = src.to_owned();
        Lexer { src_chars, src_str, cursor: Cursor::default() }
    }

    /// Classify the token starting at the cursor, without moving it.
    fn peek_tok(&self) -> (r: (TokenType, usize))
        requires
            self.wf_src(),
        ensures
            ({
                let (tv, n) = spec_peek(self.spec_src(), self.spec_pos());
                &&& r.0@ == tv
                &&& r.1 as int == n
                &&& self.spec_pos() + n <= self.spec_src().len() + 1
                &&& (!(tv is Eof) ==> n >= 1)
                &&& (tv is Newline ==> self.spec_pos() + n <= self.spec_src().len())
            }),
    {
        let ghost s = self.src_chars@;
        let pos = self.cursor.pos;
        let len = self.src_chars.len();
        if pos >= len {
            return (TokenType::EOF, 0);
        }
        let c = self.src_chars[pos];
        if c == '*' {
            (TokenType::Asterisk, 1)
        } else if c == '/' {
            (TokenType::ForwardSlash, 1)
        } else if c == ',' {
            (TokenType::Comma, 1)
        } else if c == '.' {
            (TokenType::Dot, 1)
        } else if c == ':' {
            (TokenType::Colon, 1)
        } else if c == '(' {
            (TokenType::OpenParen, 1)
        } else if c == ')' {
            (TokenType::CloseParen, 1)
        } else if c == '{' {
            (TokenType::OpenBraces, 1)
        } else if c == '}' {
            (TokenType::CloseBraces, 1)
        } else if c == '=' {
            (TokenType::Equals, 1)
        } else if c == '\n' {
            (TokenType::Newline, 1)
        } else if c == '"' || c == '\'' {
            let mut j: usize = pos + 1;
            while j < len && self.src_chars[j] != c
                invariant
                    pos + 1 <= j <= len,
                    len == s.len(),
                    self.src_chars@ == s,
                    forall|k: int| pos + 1 <= k < j ==> not_quote_pred(c)(s[k]),
                decreases len - j,
            {
                j += 1;
            }
            proof {
                lemma_run_len_eq(s, pos + 1 as int, j as int, not_quote_pred(c));
            }
            let text = self.src_str.as_str().substring_char(pos + 1, j).to_owned();
            (TokenType::String(text), j - pos + 1)
        } else if check_ws(c) {
            (TokenType::Whitespace, 1)
        } else if check_alpha(c) {
            let mut j: usize = pos + 1;
            while j < len && check_ident(self.src_chars[j])
                invariant
                    pos + 1 <= j <= len,
                    len == s.len(),
                    self.src_chars@ == s,
                    forall|k: int| pos + 1 <= k < j ==> ident_pred()(s[k]),
                decreases len - j,
            {
                j += 1;
            }
            proof {
                assert(ident_pred()(s[pos as int]));
                lemma_run_len_eq(s, pos as int, j as int, ident_pred());
            }
            let text = self.src_str.as_str().substring_char(pos, j).to_owned();
            (TokenType::Identifier(text), j - pos)
        } else {
            let text = self.src_str.as_str().substring_char(pos, pos + 1).to_owned();
            (TokenType::CatchAll(text), 1)
        }
    }

    /// Hand out the next non-whitespace token and advance the cursor,
    /// counting one line when the previous token was a newline.
    #[verifier::loop_isolation(false)]
    pub fn next_token(&mut self) -> (t: TokenType)
        requires
            old(self).wf(),
        ensures
            final(self).wf(),
            final(self).same_text(old(self)),
            final(self).spec_src() == old(self).spec_src(),
            ({
                let (tv, p2, l2) = spec_next(
                    old(self).spec_src(),
                    old(self).spec_pos(),
                    old(self).spec_line(),
                    old(self).spec_prev_nl(),
                );
                &&& t@ == tv
                &&& final(self).spec_pos() == p2
                &&& final(self).spec_line() == l2
            }),
            final(self).spec_prev_nl() == (t@ is Newline),
    {
        let ghost s = self.src_chars@;
        let ghost pos0 = self.cursor.pos as int;
        if matches!(self.cursor.prev, TokenType::Newline) {
            self.cursor.line_num += 1;
        }
        let ghost line1 = self.cursor.line_num as int;
        while self.cursor.pos < self.src_chars.len() && check_ws(self.src_chars[self.cursor.pos])
            invariant
                self.same_text(old(self)),
                self.src_chars@ == s,
                self.cursor.line_num as int == line1,
                self.cursor.prev == old(self).cursor.prev,
                pos0 <= self.cursor.pos as int <= s.len() + 1,
                self.cursor.pos as int > s.len() ==> self.cursor.pos as int == pos0,
                spec_skip_ws(s, pos0) == spec_skip_ws(s, self.cursor.pos as int),
            decreases s.len() + 1 - self.cursor.pos,
        {
            self.cursor.pos += 1;
        }
        proof {
            lemma_skip_ws_props(s, pos0);
        }
        let (tok, n) = self.peek_tok();
        self.cursor.pos += n;
        self.cursor.prev = clone_token(&tok);
        tok
    }

    /// Return the `distance`-th upcoming token without moving the cursor;
    /// stops early at the end of the input.
    #[verifier::loop_isolation(false)]
    pub fn lookahead(&mut self, distance: usize) -> (t: TokenType)
        requires
            old(self).wf(),
            1 <= distance,
        ensures
            final(self).wf(),
            final(self).spec_src() == old(self).spec_src(),
            final(self).spec_pos() == old(self).spec_pos(),
            final(self).spec_line() == old(self).spec_line(),
            final(self).spec_prev_nl() == old(self).spec_prev_nl(),
            t@ == spec_lookahead(
                old(self).spec_src(),
                old(self).spec_pos(),
                old(self).spec_line(),
                old(self).spec_prev_nl(),
                distance as int,
            ),
    {
        let ghost s = self.src_chars@;
        let pos0 = self.cursor.pos;
        let line0 = self.cursor.line_num;
        let prev0 = clone_token(&self.cursor.prev);
        let mut i: usize = distance;
        loop
            invariant
                1 <= i,
                self.wf(),
                self.same_text(old(self)),
                self.src_chars@ == s,
                spec_lookahead(
                    old(self).spec_src(),
                    old(self).spec_pos(),
                    old(self).spec_line(),
                    old(self).spec_prev_nl(),
                    distance as int,
                ) == spec_lookahead(s, self.spec_pos(), self.spec_line(), self.spec_prev_nl(), i as int),
            decreases i,
        {
            let tok = self.next_token();
            if i <= 1 || matches!(tok, TokenType::EOF) {
                self.cursor.pos = pos0;
                self.cursor.line_num = line0;
                self.cursor.prev = prev0;
                return tok;
            }
            i -= 1;
        }
    }
}

/// The `distance`-th token ahead of the given lexer state.
pub open spec fn spec_lookahead(s: Seq<char>, pos: int, line: int, prev_nl: bool, k: int) -> TokView
    decreases k,
{
    let (t, p, l) = spec_next(s, pos, line, prev_nl);
    if k <= 1 || t is Eof {
        t
    } else {
        spec_lookahead(s, p, l, t is Newline, k - 1)
    }
}

/// The characters of a string slice, as a vector.
pub fn chars_vec(s: &str) -> (v: Vec<char>)
    ensures
        v@ == s@,
{
    broadcast use vstd::string::next_postcondition;
    broadcast use vstd::string::axiom_spec_iter;

    let mut it = s.chars();
    let mut v: Vec<char> = Vec::new();
    loop
        invariant
            vstd::std_specs::iter::IteratorSpec::obeys_prophetic_iter_laws(&it),
            v@ + vstd::std_specs::iter::IteratorSpec::remaining(&it) == s@,
        ensures
            vstd::std_specs::iter::IteratorSpec::remaining(&it).len() == 0,
        decreases s@.len() - v@.len(),
    {
        match it.next() {
            Some(c) => {
                v.push(c);
            },
            None => {
                break;
            },
        }
    }
    proof {
        assert(v@ + vstd::std_specs::iter::IteratorSpec::remaining(&it) == s@);
        assert(v@ =~= s@);
    }
    v
}

} // verus!
