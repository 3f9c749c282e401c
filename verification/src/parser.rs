use vstd::prelude::*;

use crate::ast::{
    ASTNode, BlockStatement, CallExpression, FunctionStatement, Identifier, MemberExpression,
    NodeView, ObjectPattern, OpView, Program, PropView, Property, VariableExpression,
    lemma_view_node_variant, start_of, view_node, views_of, prop_views_of,
};
use crate::lexer::{
    Lexer, TokView, TokenType, clone_token, lemma_token_view_variant, spec_next,
    lemma_skip_ws_props,
};
use crate::utils::str_eq;

verus! {

// ---- the token stream ----

/// Spec-level image of one token together with the line counter after it.
#[verifier::ext_equal]
pub struct TLView {
    pub tok: TokView,
    pub line: int,
}

/// One token together with the line counter observed after it was read.
pub struct TokLine {
    pub tok: TokenType,
    pub line: usize,
}

impl View for TokLine {
    type V = TLView;

    open spec fn view(&self) -> TLView {
        TLView { tok: self.tok@, line: self.line as int }
    }
}

/// The spec-level images of a token vector.
pub open spec fn tl_views(v: Seq<TokLine>) -> Seq<TLView> {
    Seq::new(v.len(), |i: int| v[i]@)
}

/// A bound on the position after one token, used as the recursion measure of
/// `spec_tokens`; it equals the honest position whenever the lexer moved.
pub open spec fn tok_step(s: Seq<char>, pos: int, p: int) -> int {
    if p <= pos {
        pos + 1
    } else if p > s.len() + 1 {
        s.len() as int + 1
    } else {
        p
    }
}

/// The whole token stream of a source text, from the given lexer state,
/// ending with the end-of-input token.
pub open spec fn spec_tokens(s: Seq<char>, pos: int, line: int, prev_nl: bool) -> Seq<TLView>
    decreases s.len() + 2 - pos,
{
    let (tv, p2, l2) = spec_next(s, pos, line, prev_nl);
    if tv is Eof || pos < 0 || pos > s.len() + 1 {
        seq![TLView { tok: tv, line: l2 }]
    } else {
        seq![TLView { tok: tv, line: l2 }] + spec_tokens(s, tok_step(s, pos, p2), l2, tv is Newline)
    }
}

// ---- parse errors ----

/// Spec-level image of a parse error.
#[verifier::ext_equal]
pub enum PEView {
    Eof,
    Tok(TokView),
}

/// A hard grammar violation inside a committed production.
#[derive(Debug)]
pub enum ParseError {
    UnexpectedEof,
    UnexpectedToken(TokenType),
}

impl View for ParseError {
    type V = PEView;

    open spec fn view(&self) -> PEView {
        match self {
            ParseError::UnexpectedEof => PEView::Eof,
            ParseError::UnexpectedToken(t) => PEView::Tok(t@),
        }
    }
}

// ---- the spec-level parser ----

/// The token at position `i`; out of range counts as end of input.
pub open spec fn cur(t: Seq<TLView>, i: int) -> TokView {
    if 0 <= i < t.len() {
        t[i].tok
    } else {
        TokView::Eof
    }
}

/// The line counter at position `i`.
pub open spec fn lin(t: Seq<TLView>, i: int) -> int {
    if 0 <= i < t.len() {
        t[i].line
    } else {
        0
    }
}

/// One position forward; the end of input is sticky.
pub open spec fn adv(t: Seq<TLView>, i: int) -> int {
    if cur(t, i) is Eof {
        i
    } else {
        i + 1
    }
}

/// `j` forced to lie strictly beyond `i` and within the stream: the recursion
/// measure of the productions. It equals `j` whenever a production moved.
pub open spec fn step(t: Seq<TLView>, i: int, j: int) -> int {
    if j <= i {
        i + 1
    } else if j > t.len() {
        t.len() as int
    } else {
        j
    }
}

/// Demand one exact token: end of input and any other token are hard errors.
pub open spec fn sp_eat(t: Seq<TLView>, i: int, expected: TokView) -> Result<int, PEView> {
    if cur(t, i) is Eof {
        Err(PEView::Eof)
    } else if cur(t, i) != expected {
        Err(PEView::Tok(cur(t, i)))
    } else {
        Ok(adv(t, i))
    }
}

/// Scan forward to the next `{`, stopping at the end of input.
pub open spec fn sp_skip_to_brace(t: Seq<TLView>, i: int) -> int
    decreases t.len() - i,
{
    if cur(t, i) is OpenBraces || cur(t, i) is Eof {
        i
    } else {
        sp_skip_to_brace(t, adv(t, i))
    }
}

/// Scan forward to the next `)`, stopping at the end of input.
pub open spec fn sp_skip_to_closeparen(t: Seq<TLView>, i: int) -> int
    decreases t.len() - i,
{
    if cur(t, i) is CloseParen || cur(t, i) is Eof {
        i
    } else {
        sp_skip_to_closeparen(t, adv(t, i))
    }
}

/// Consume a `//` comment: scan to the newline, which stays current.
pub open spec fn sp_line_comment(t: Seq<TLView>, i: int) -> int
    decreases t.len() - i,
{
    if cur(t, i) is Newline || cur(t, i) is Eof {
        i
    } else {
        sp_line_comment(t, adv(t, i))
    }
}

/// Consume a `/*` comment: scan past `*` up to a closing `/`, which stays
/// current; an unterminated comment ends at the end of input.
pub open spec fn sp_block_comment(t: Seq<TLView>, i: int) -> int
    decreases t.len() - i,
{
    if cur(t, i) is Eof {
        i
    } else if cur(t, i) is Asterisk {
        let k = adv(t, i);
        if cur(t, k) is ForwardSlash || cur(t, k) is Eof {
            k
        } else {
            sp_block_comment(t, k)
        }
    } else {
        sp_block_comment(t, adv(t, i))
    }
}

/// Dispatch on the token after a `/`: block comment, line comment, or nothing.
pub open spec fn sp_parse_backslash(t: Seq<TLView>, i: int) -> int {
    let j = adv(t, i);
    if cur(t, j) is Asterisk {
        sp_block_comment(t, j)
    } else if cur(t, j) is ForwardSlash {
        sp_line_comment(t, j)
    } else {
        j
    }
}

/// The property list of an object pattern, between its braces.
pub open spec fn sp_props(t: Seq<TLView>, i: int, acc: Seq<PropView>) -> (Seq<PropView>, int)
    decreases t.len() - i,
{
    let j = if cur(t, i) is Newline {
        adv(t, i)
    } else {
        i
    };
    if cur(t, j) is CloseBraces {
        (acc, adv(t, j))
    } else {
        match cur(t, j) {
            TokView::Ident(key) => {
                let j1 = adv(t, j);
                let (value, j2) = if cur(t, j1) is Colon {
                    let j1b = adv(t, j1);
                    match cur(t, j1b) {
                        TokView::Ident(v) => (v, adv(t, j1b)),
                        _ => (key, j1b),
                    }
                } else {
                    (key, j1)
                };
                let j3 = if cur(t, j2) is Comma {
                    adv(t, j2)
                } else {
                    j2
                };
                sp_props(t, j3, acc.push(PropView { key, value }))
            },
            _ => (acc, j),
        }
    }
}

/// An object pattern: `{` then properties up to the closing `}`.
pub open spec fn sp_object_pattern(t: Seq<TLView>, i: int) -> Result<(OpView, int), PEView> {
    let start = lin(t, i);
    match sp_eat(t, i, TokView::OpenBraces) {
        Ok(i1) => {
            let (props, i2) = sp_props(t, i1, seq![]);
            Ok((OpView { properties: props, start, end: lin(t, i2) }, i2))
        },
        Err(e) => Err(e),
    }
}

/// A call: `(`, an optional first string argument, a scan to `)`.
pub open spec fn sp_call_expression(t: Seq<TLView>, i: int, base: NodeView) -> Result<
    (NodeView, int),
    PEView,
> {
    match sp_eat(t, i, TokView::OpenParen) {
        Ok(i1) => {
            let param = match cur(t, i1) {
                TokView::Str(s) => Some(s),
                _ => None,
            };
            let j = sp_skip_to_closeparen(t, i1);
            match sp_eat(t, j, TokView::CloseParen) {
                Ok(i2) => Ok(
                    (
                        NodeView::CallExpression {
                            base: Box::new(base),
                            param,
                            start: start_of(base),
                            end: lin(t, i2),
                        },
                        i2,
                    ),
                ),
                Err(e) => Err(e),
            }
        },
        Err(e) => Err(e),
    }
}

/// A left-associative chain of `.name` links and interleaved calls.
pub open spec fn sp_member_expression(t: Seq<TLView>, i: int, base: NodeView) -> Result<
    (NodeView, int),
    PEView,
>
    decreases t.len() - i,
{
    match cur(t, i) {
        TokView::Dot => {
            let i1 = adv(t, i);
            match cur(t, i1) {
                TokView::Ident(prop) => sp_member_expression(
                    t,
                    adv(t, i1),
                    NodeView::MemberExpression {
                        base: Box::new(base),
                        property: prop,
                        start: 0,
                        end: 0,
                    },
                ),
                _ => Ok((base, i1)),
            }
        },
        TokView::OpenParen => match sp_call_expression(t, i, base) {
            Ok((ce, i2)) => sp_member_expression(t, step(t, i, i2), ce),
            Err(e) => Err(e),
        },
        _ => Ok((base, i)),
    }
}

/// An expression that begins with an identifier: the bare name, a call on it,
/// or a member chain.
pub open spec fn sp_parse_identifier(t: Seq<TLView>, i: int) -> Result<(NodeView, int), PEView> {
    match cur(t, i) {
        TokView::Ident(name) => {
            let node = NodeView::Identifier { name, start: lin(t, i), end: lin(t, i) };
            let i1 = adv(t, i);
            match cur(t, i1) {
                TokView::OpenParen => sp_call_expression(t, i1, node),
                TokView::Dot => sp_member_expression(t, i1, node),
                _ => Ok((node, i1)),
            }
        },
        _ => Err(PEView::Tok(cur(t, i))),
    }
}

/// An export statement: the exact prefix `module . exports =` and then an
/// object pattern; any mismatch yields nothing.
pub open spec fn sp_export_statement(t: Seq<TLView>, i: int) -> Result<
    (Option<NodeView>, int),
    PEView,
> {
    if cur(t, i) == TokView::Ident("module"@) {
        let i1 = adv(t, i);
        if cur(t, i1) is Dot {
            let i2 = adv(t, i1);
            if cur(t, i2) == TokView::Ident("exports"@) {
                let i3 = adv(t, i2);
                if cur(t, i3) is Equals {
                    let i4 = adv(t, i3);
                    if cur(t, i4) is OpenBraces {
                        match sp_object_pattern(t, i4) {
                            Ok((op, i5)) => Ok((Some(NodeView::ExportStatement(op)), i5)),
                            Err(e) => Err(e),
                        }
                    } else {
                        Ok((None, i4))
                    }
                } else {
                    Ok((None, i3))
                }
            } else {
                Ok((None, i2))
            }
        } else {
            Ok((None, i1))
        }
    } else {
        Ok((None, i))
    }
}

/// An arrow function bound to `name`: scan to the `{` and parse the body.
pub open spec fn sp_arrow_function(t: Seq<TLView>, i: int, name: Seq<char>) -> Result<
    (NodeView, int),
    PEView,
>
    decreases t.len() - i, 0int,
{
    if i < 0 || i >= t.len() {
        Err(PEView::Eof)
    } else {
        let start = lin(t, i);
        let j = sp_skip_to_brace(t, i);
        match sp_block_statement(t, step(t, i, j)) {
            Ok((body, i2)) => Ok(
                (
                    NodeView::FunctionStatement {
                        name,
                        body: Box::new(body),
                        start,
                        end: lin(t, i2),
                    },
                    i2,
                ),
            ),
            Err(e) => Err(e),
        }
    }
}

/// The right side of a variable statement, after its left side: `=`, then an
/// arrow function, a binding to an identifier chain, or nothing.
pub open spec fn sp_var_rhs(t: Seq<TLView>, i: int, lhs: NodeView, start: int) -> Result<
    (Option<NodeView>, int),
    PEView,
>
    decreases t.len() - i, 1int,
{
    match sp_eat(t, i, TokView::Equals) {
        Ok(i3) => match cur(t, i3) {
            TokView::OpenParen => match lhs {
                NodeView::Identifier { name, .. } => match sp_arrow_function(t, i3, name) {
                    Ok((f, i4)) => Ok((Some(f), i4)),
                    Err(e) => Err(e),
                },
                _ => Ok((None, i3)),
            },
            TokView::OpenBraces => Ok((None, i3)),
            TokView::Ident(_) => match sp_parse_identifier(t, i3) {
                Ok((rhs, i4)) => Ok(
                    (
                        Some(
                            NodeView::VariableExpression {
                                lhs: Box::new(lhs),
                                rhs: Box::new(rhs),
                                start,
                                end: lin(t, i4),
                            },
                        ),
                        i4,
                    ),
                ),
                Err(e) => Err(e),
            },
            _ => Ok((None, i3)),
        },
        Err(e) => Err(e),
    }
}

/// A `const`/`var`/`let` statement: a name or pattern, then its right side.
pub open spec fn sp_variable_statement(t: Seq<TLView>, i: int) -> Result<
    (Option<NodeView>, int),
    PEView,
>
    decreases t.len() - i, 2int,
{
    let start = lin(t, i);
    let i1 = adv(t, i);
    match cur(t, i1) {
        TokView::Ident(_) => match sp_parse_identifier(t, i1) {
            Ok((lhs, i2)) => sp_var_rhs(t, step(t, i, i2), lhs, start),
            Err(e) => Err(e),
        },
        TokView::OpenBraces => match sp_object_pattern(t, i1) {
            Ok((op, i2)) => sp_var_rhs(t, step(t, i, i2), NodeView::ObjectPattern(op), start),
            Err(e) => Err(e),
        },
        _ => Ok((None, i1)),
    }
}

/// A `function name { ... }` statement; without a name it yields nothing.
pub open spec fn sp_function_expression(t: Seq<TLView>, i: int) -> Result<
    (Option<NodeView>, int),
    PEView,
>
    decreases t.len() - i, 2int,
{
    let start = lin(t, i);
    let i1 = adv(t, i);
    match cur(t, i1) {
        TokView::Ident(name) => {
            let i2 = adv(t, i1);
            let j = sp_skip_to_brace(t, i2);
            match sp_block_statement(t, step(t, i, j)) {
                Ok((body, i3)) => Ok(
                    (
                        Some(
                            NodeView::FunctionStatement {
                                name,
                                body: Box::new(body),
                                start,
                                end: lin(t, i3),
                            },
                        ),
                        i3,
                    ),
                ),
                Err(e) => Err(e),
            }
        },
        _ => Ok((None, i1)),
    }
}

/// A `{ ... }` statement: its body between the braces.
pub open spec fn sp_block_statement(t: Seq<TLView>, i: int) -> Result<(NodeView, int), PEView>
    decreases t.len() - i, 1int,
{
    let start = lin(t, i);
    match sp_eat(t, i, TokView::OpenBraces) {
        Ok(i1) => match sp_block_body(t, i1) {
            Ok((body, i2)) => match sp_eat(t, i2, TokView::CloseBraces) {
                Ok(i3) => Ok((NodeView::BlockStatement { body, start, end: lin(t, i3) }, i3)),
                Err(e) => Err(e),
            },
            Err(e) => Err(e),
        },
        Err(e) => Err(e),
    }
}

/// One statement, chosen by the current token; unknown constructs are
/// consumed and dropped.
pub open spec fn sp_statement(t: Seq<TLView>, i: int) -> Result<(Option<NodeView>, int), PEView>
    decreases t.len() - i, 3int,
{
    match cur(t, i) {
        TokView::OpenBraces => match sp_block_statement(t, i) {
            Ok((b, i2)) => Ok((Some(b), i2)),
            Err(e) => Err(e),
        },
        TokView::Ident(name) => {
            if name == "function"@ {
                sp_function_expression(t, i)
            } else if name == "const"@ || name == "var"@ || name == "let"@ {
                sp_variable_statement(t, i)
            } else if name == "module"@ {
                sp_export_statement(t, i)
            } else if name == "if"@ {
                Ok((None, adv(t, i)))
            } else {
                match sp_parse_identifier(t, i) {
                    Ok((n, i2)) => Ok((Some(n), i2)),
                    Err(e) => Err(e),
                }
            }
        },
        TokView::ForwardSlash => Ok((None, sp_parse_backslash(t, i))),
        _ => Ok((None, adv(t, i))),
    }
}

/// The statements of a block, up to its closing `}` or the end of input.
pub open spec fn sp_block_body(t: Seq<TLView>, i: int) -> Result<(Seq<NodeView>, int), PEView>
    decreases t.len() - i, 4int,
{
    if cur(t, i) is CloseBraces || cur(t, i) is Eof {
        Ok((Seq::empty(), i))
    } else {
        match sp_statement(t, i) {
            Ok((opt, i2)) => match sp_block_body(t, step(t, i, i2)) {
                Ok((rest, i3)) => Ok(
                    (
                        match opt {
                            Some(n) => seq![n] + rest,
                            None => rest,
                        },
                        i3,
                    ),
                ),
                Err(e) => Err(e),
            },
            Err(e) => Err(e),
        }
    }
}

/// The top-level statements, up to the end of input.
pub open spec fn sp_statement_list(t: Seq<TLView>, i: int) -> Result<(Seq<NodeView>, int), PEView>
    decreases t.len() - i,
{
    if cur(t, i) is Eof {
        Ok((Seq::empty(), i))
    } else {
        match sp_statement(t, i) {
            Ok((opt, i2)) => match sp_statement_list(t, step(t, i, i2)) {
                Ok((rest, i3)) => Ok(
                    (
                        match opt {
                            Some(n) => seq![n] + rest,
                            None => rest,
                        },
                        i3,
                    ),
                ),
                Err(e) => Err(e),
            },
            Err(e) => Err(e),
        }
    }
}

/// A whole program: its statement list.
pub open spec fn sp_program(t: Seq<TLView>, i: int) -> Result<(NodeView, int), PEView> {
    let start = lin(t, i);
    match sp_statement_list(t, i) {
        Ok((body, i2)) => Ok((NodeView::Program { lines: body, start, end: lin(t, i2) }, i2)),
        Err(e) => Err(e),
    }
}

/// What parsing a source text yields: the program syntax tree, or the first
/// hard grammar error. The result is a function of the text alone, so two
/// parses of equal sources yield equal trees.
pub open spec fn spec_parse_src(s: Seq<char>) -> Result<(NodeView, int), PEView> {
    sp_program(spec_tokens(s, 0, 0, false), 0)
}


/// The spec-level image of an optional node.
pub open spec fn opt_node_view(o: Option<ASTNode>) -> Option<NodeView> {
    match o {
        Some(n) => Some(view_node(n)),
        None => None,
    }
}

// ---- the executable parser ----

/// Recursive-descent parser over the token stream of one source text.
pub struct Parser {
    toks: Vec<TokLine>,
    pos: usize,
    src: Ghost<Seq<char>>,
}

impl Parser {
    /// The token stream under the parser.
    pub closed spec fn spec_toks(&self) -> Seq<TLView> {
        tl_views(self.toks@)
    }

    /// The position of the current token.
    pub closed spec fn spec_pos(&self) -> int {
        self.pos as int
    }

    /// The source text the tokens came from.
    pub closed spec fn spec_src(&self) -> Seq<char> {
        self.src@
    }

    pub closed spec fn wf(&self) -> bool {
        &&& self.toks@.len() >= 1
        &&& self.pos < self.toks@.len()
        &&& tl_views(self.toks@)[self.toks@.len() - 1].tok is Eof
        &&& forall|j: int|
            0 <= j < self.toks@.len() - 1 ==> !(#[trigger] tl_views(self.toks@)[j].tok is Eof)
        &&& tl_views(self.toks@) == spec_tokens(self.src@, 0, 0, false)
    }

    /// The parser after a production: the same stream, moved only forward.
    pub closed spec fn advanced_from(&self, pre: &Parser) -> bool {
        &&& self.wf()
        &&& self.toks == pre.toks
        &&& self.src == pre.src
        &&& self.spec_pos() >= pre.spec_pos()
    }

    /// Tokenize the whole source up front; the parser then walks the tokens.
    pub fn new(src: &str) -> (p: Parser)
        requires
            src@.len() + 2 <= usize::MAX,
        ensures
            p.wf(),
            p.spec_src() == src@,
            p.spec_pos() == 0,
    {
        let ghost s = src@;
        let mut lexer = Lexer::new(src);
        let mut toks: Vec<TokLine> = Vec::new();
        loop
            invariant_except_break
                lexer.wf(),
                lexer.spec_src() == s,
                s.len() + 2 <= usize::MAX,
                tl_views(toks@) + spec_tokens(
                    s,
                    lexer.spec_pos(),
                    lexer.spec_line(),
                    lexer.spec_prev_nl(),
                ) == spec_tokens(s, 0, 0, false),
                forall|j: int| 0 <= j < toks@.len() ==> !(#[trigger] tl_views(toks@)[j].tok is Eof),
            ensures
                toks@.len() >= 1,
                tl_views(toks@)[toks@.len() - 1].tok is Eof,
                forall|j: int|
                    0 <= j < toks@.len() - 1 ==> !(#[trigger] tl_views(toks@)[j].tok is Eof),
                tl_views(toks@) == spec_tokens(s, 0, 0, false),
            decreases s.len() + 2 - lexer.spec_pos(),
        {
            proof {
                lexer.lemma_bounds();
                lemma_skip_ws_props(s, lexer.spec_pos());
            }
            let ghost pos0 = lexer.spec_pos();
            let ghost line0 = lexer.spec_line();
            let ghost nl0 = lexer.spec_prev_nl();
            let ghost old_views = tl_views(toks@);
            let t = lexer.next_token();
            let line = lexer.current_line();
            proof {
                lemma_token_view_variant(t);
            }
            let ghost tval = t@;
            let is_eof = matches!(t, TokenType::EOF);
            toks.push(TokLine { tok: t, line });
            proof {
                let (tv, p2, l2) = spec_next(s, pos0, line0, nl0);
                assert(tval == tv);
                assert(lexer.spec_pos() == p2);
                assert(lexer.spec_line() == l2);
                assert(tl_views(toks@) =~= old_views + seq![TLView { tok: tv, line: l2 }]);
                if tv is Eof {
                    assert(spec_tokens(s, pos0, line0, nl0) =~= seq![TLView { tok: tv, line: l2 }]);
                    assert(tl_views(toks@) =~= spec_tokens(s, 0, 0, false));
                } else {
                    assert(pos0 + 1 <= p2 <= s.len() + 1);
                    assert(tok_step(s, pos0, p2) == p2);
                    assert(spec_tokens(s, pos0, line0, nl0) =~= seq![TLView { tok: tv, line: l2 }]
                        + spec_tokens(s, p2, l2, tv is Newline));
                    assert(tl_views(toks@) + spec_tokens(
                        s,
                        lexer.spec_pos(),
                        lexer.spec_line(),
                        lexer.spec_prev_nl(),
                    ) =~= spec_tokens(s, 0, 0, false));
                }
            }
            if is_eof {
                break;
            }
        }
        Parser { toks, pos: 0, src: Ghost(s) }
    }

    /// A copy of the current token.
    fn cur_token(&self) -> (r: TokenType)
        requires
            self.wf(),
        ensures
            r@ == cur(self.spec_toks(), self.spec_pos()),
            (r is Asterisk) == (r@ is Asterisk),
            (r is CloseBraces) == (r@ is CloseBraces),
            (r is CloseParen) == (r@ is CloseParen),
            (r is Comma) == (r@ is Comma),
            (r is Dot) == (r@ is Dot),
            (r is Colon) == (r@ is Colon),
            (r is Equals) == (r@ is Equals),
            (r is OpenBraces) == (r@ is OpenBraces),
            (r is OpenParen) == (r@ is OpenParen),
            (r is Newline) == (r@ is Newline),
            (r is Whitespace) == (r@ is Whitespace),
            (r is ForwardSlash) == (r@ is ForwardSlash),
            (r is EOF) == (r@ is Eof),
            (r is String) == (r@ is Str),
            (r is CatchAll) == (r@ is CatchAll),
            (r is Identifier) == (r@ is Ident),
    {
        let r = clone_token(&self.toks[self.pos].tok);
        proof {
            lemma_token_view_variant(r);
        }
        r
    }

    /// The line counter at the current token.
    fn line_num(&self) -> (r: usize)
        requires
            self.wf(),
        ensures
            r as int == lin(self.spec_toks(), self.spec_pos()),
    {
        self.toks[self.pos].line
    }

    /// Move one token forward; the end of input is sticky.
    fn advance_token(&mut self)
        requires
            old(self).wf(),
        ensures
            final(self).advanced_from(old(self)),
            final(self).spec_pos() == adv(old(self).spec_toks(), old(self).spec_pos()),
    {
        proof {
            lemma_token_view_variant(self.toks[self.pos as int].tok);
        }
        let n = self.toks.len();
        proof {
            assert(self.pos < n);
        }
        if !matches!(self.toks[self.pos].tok, TokenType::EOF) {
            self.pos += 1;
        }
    }

    /// Demand one exact token, or report the grammar violation.
    fn eat(&mut self, expected: &TokenType) -> (r: Result<(), ParseError>)
        requires
            old(self).wf(),
        ensures
            final(self).advanced_from(old(self)),
            ({
                let sp = sp_eat(old(self).spec_toks(), old(self).spec_pos(), expected@);
                match r {
                    Ok(()) => sp == Ok::<int, PEView>(final(self).spec_pos())
                        && final(self).spec_pos() == old(self).spec_pos() + 1,
                    Err(e) => sp == Err::<int, PEView>(e@),
                }
            }),
    {
        let c = self.cur_token();
        if matches!(c, TokenType::EOF) {
            return Err(ParseError::UnexpectedEof);
        }
        if tok_matches(&c, expected) {
            self.advance_token();
            Ok(())
        } else {
            Err(ParseError::UnexpectedToken(c))
        }
    }
}

/// Whether two tokens are the same token, payload included.
fn tok_matches(a: &TokenType, b: &TokenType) -> (r: bool)
    ensures
        r == (a@ == b@),
{
    proof {
        lemma_token_view_variant(*a);
        lemma_token_view_variant(*b);
    }
    match (a, b) {
        (TokenType::Asterisk, TokenType::Asterisk) => true,
        (TokenType::CloseBraces, TokenType::CloseBraces) => true,
        (TokenType::CloseParen, TokenType::CloseParen) => true,
        (TokenType::Comma, TokenType::Comma) => true,
        (TokenType::Dot, TokenType::Dot) => true,
        (TokenType::Colon, TokenType::Colon) => true,
        (TokenType::Equals, TokenType::Equals) => true,
        (TokenType::OpenBraces, TokenType::OpenBraces) => true,
        (TokenType::OpenParen, TokenType::OpenParen) => true,
        (TokenType::Newline, TokenType::Newline) => true,
        (TokenType::Whitespace, TokenType::Whitespace) => true,
        (TokenType::ForwardSlash, TokenType::ForwardSlash) => true,
        (TokenType::EOF, TokenType::EOF) => true,
        (TokenType::String(x), TokenType::String(y)) => str_eq(x.as_str(), y.as_str()),
        (TokenType::CatchAll(x), TokenType::CatchAll(y)) => str_eq(x.as_str(), y.as_str()),
        (TokenType::Identifier(x), TokenType::Identifier(y)) => str_eq(x.as_str(), y.as_str()),
        _ => false,
    }
}

impl Parser {
    /// Scan forward to the next `{`, stopping at the end of input.
    fn skip_to_brace(&mut self)
        requires
            old(self).wf(),
        ensures
            final(self).advanced_from(old(self)),
            final(self).spec_pos() == sp_skip_to_brace(old(self).spec_toks(), old(self).spec_pos()),
            !(cur(old(self).spec_toks(), old(self).spec_pos()) is OpenBraces) && !(cur(
                old(self).spec_toks(),
                old(self).spec_pos(),
            ) is Eof) ==> final(self).spec_pos() > old(self).spec_pos(),
        decreases self.spec_toks().len() - self.spec_pos(),
    {
        let c = self.cur_token();
        if matches!(c, TokenType::OpenBraces) || matches!(c, TokenType::EOF) {
            return ;
        }
        self.advance_token();
        self.skip_to_brace();
    }

    /// Scan forward to the next `)`, stopping at the end of input.
    fn skip_to_closeparen(&mut self)
        requires
            old(self).wf(),
        ensures
            final(self).advanced_from(old(self)),
            final(self).spec_pos() == sp_skip_to_closeparen(
                old(self).spec_toks(),
                old(self).spec_pos(),
            ),
        decreases self.spec_toks().len() - self.spec_pos(),
    {
        let c = self.cur_token();
        if matches!(c, TokenType::CloseParen) || matches!(c, TokenType::EOF) {
            return ;
        }
        self.advance_token();
        self.skip_to_closeparen();
    }

    /// Consume a `//` comment up to its newline.
    fn line_comment(&mut self)
        requires
            old(self).wf(),
        ensures
            final(self).advanced_from(old(self)),
            final(self).spec_pos() == sp_line_comment(old(self).spec_toks(), old(self).spec_pos()),
        decreases self.spec_toks().len() - self.spec_pos(),
    {
        let c = self.cur_token();
        if matches!(c, TokenType::Newline) || matches!(c, TokenType::EOF) {
            return ;
        }
        self.advance_token();
        self.line_comment();
    }

    /// Consume a `/*` comment up to its closing `/`.
    fn block_comment(&mut self)
        requires
            old(self).wf(),
        ensures
            final(self).advanced_from(old(self)),
            final(self).spec_pos() == sp_block_comment(old(self).spec_toks(), old(self).spec_pos()),
        decreases self.spec_toks().len() - self.spec_pos(),
    {
        let c = self.cur_token();
        if matches!(c, TokenType::EOF) {
            return ;
        }
        if matches!(c, TokenType::Asterisk) {
            self.advance_token();
            let c2 = self.cur_token();
            if matches!(c2, TokenType::ForwardSlash) || matches!(c2, TokenType::EOF) {
                return ;
            }
            self.block_comment();
        } else {
            self.advance_token();
            self.block_comment();
        }
    }

    /// Handle what follows a `/`: a comment of either kind, or nothing.
    fn parse_backslash(&mut self)
        requires
            old(self).wf(),
            cur(old(self).spec_toks(), old(self).spec_pos()) is ForwardSlash,
        ensures
            final(self).advanced_from(old(self)),
            final(self).spec_pos() == sp_parse_backslash(
                old(self).spec_toks(),
                old(self).spec_pos(),
            ),
            final(self).spec_pos() > old(self).spec_pos(),
    {
        self.advance_token();
        let c = self.cur_token();
        if matches!(c, TokenType::Asterisk) {
            self.block_comment();
        } else if matches!(c, TokenType::ForwardSlash) {
            self.line_comment();
        }
    }

    /// Read the properties of an object pattern into `acc`.
    fn object_props(&mut self, acc: &mut Vec<Property>)
        requires
            old(self).wf(),
        ensures
            final(self).advanced_from(old(self)),
            ({
                let (ps, p2) = sp_props(
                    old(self).spec_toks(),
                    old(self).spec_pos(),
                    prop_views_of(old(acc)@),
                );
                prop_views_of(final(acc)@) == ps && final(self).spec_pos() == p2
            }),
        decreases self.spec_toks().len() - self.spec_pos(),
    {
        if matches!(self.cur_token(), TokenType::Newline) {
            self.advance_token();
        }
        let c = self.cur_token();
        if matches!(c, TokenType::CloseBraces) {
            self.advance_token();
            return ;
        }
        let key = match c {
            TokenType::Identifier(sname) => sname,
            _ => {
                return ;
            },
        };
        self.advance_token();
        let mut value = key.clone();
        if matches!(self.cur_token(), TokenType::Colon) {
            self.advance_token();
            let c2 = self.cur_token();
            match c2 {
                TokenType::Identifier(v) => {
                    value = v;
                    self.advance_token();
                },
                _ => {},
            }
        }
        let ghost keyv = key@;
        let ghost valv = value@;
        let ghost accv = prop_views_of(acc@);
        acc.push(Property { key, value });
        proof {
            assert(prop_views_of(acc@) =~= accv.push(PropView { key: keyv, value: valv }));
        }
        if matches!(self.cur_token(), TokenType::Comma) {
            self.advance_token();
        }
        self.object_props(acc);
    }

    /// An object pattern: `{` then properties up to the closing `}`.
    fn object_pattern_expression(&mut self) -> (r: Result<ObjectPattern, ParseError>)
        requires
            old(self).wf(),
        ensures
            final(self).advanced_from(old(self)),
            ({
                let sp = sp_object_pattern(old(self).spec_toks(), old(self).spec_pos());
                match r {
                    Ok(op) => sp == Ok::<(OpView, int), PEView>((op@, final(self).spec_pos()))
                        && final(self).spec_pos() > old(self).spec_pos(),
                    Err(e) => sp == Err::<(OpView, int), PEView>(e@),
                }
            }),
    {
        let start = self.line_num();
        match self.eat(&TokenType::OpenBraces) {
            Ok(()) => {},
            Err(e) => {
                return Err(e);
            },
        }
        let mut properties: Vec<Property> = Vec::new();
        proof {
            assert(prop_views_of(properties@) =~= Seq::<PropView>::empty());
        }
        self.object_props(&mut properties);
        let end = self.line_num();
        Ok(ObjectPattern { properties, start, end })
    }

    /// A call on an already parsed base.
    fn call_expression(&mut self, base: ASTNode) -> (r: Result<ASTNode, ParseError>)
        requires
            old(self).wf(),
        ensures
            final(self).advanced_from(old(self)),
            ({
                let sp = sp_call_expression(old(self).spec_toks(), old(self).spec_pos(), base@);
                match r {
                    Ok(n) => sp == Ok::<(NodeView, int), PEView>((n@, final(self).spec_pos()))
                        && final(self).spec_pos() > old(self).spec_pos(),
                    Err(e) => sp == Err::<(NodeView, int), PEView>(e@),
                }
            }),
    {
        let start = base.get_start();
        match self.eat(&TokenType::OpenParen) {
            Ok(()) => {},
            Err(e) => {
                return Err(e);
            },
        }
        let c = self.cur_token();
        let param = match c {
            TokenType::String(sarg) => Some(sarg),
            _ => None,
        };
        self.skip_to_closeparen();
        match self.eat(&TokenType::CloseParen) {
            Ok(()) => {},
            Err(e) => {
                return Err(e);
            },
        }
        let end = self.line_num();
        Ok(ASTNode::CallExpression(CallExpression { base: Box::new(base), param, start, end }))
    }

    /// A left-associative chain of `.name` links and interleaved calls.
    fn member_expression(&mut self, base: ASTNode) -> (r: Result<ASTNode, ParseError>)
        requires
            old(self).wf(),
        ensures
            final(self).advanced_from(old(self)),
            ({
                let sp = sp_member_expression(old(self).spec_toks(), old(self).spec_pos(), base@);
                match r {
                    Ok(n) => sp == Ok::<(NodeView, int), PEView>((n@, final(self).spec_pos())),
                    Err(e) => sp == Err::<(NodeView, int), PEView>(e@),
                }
            }),
        decreases self.spec_toks().len() - self.spec_pos(),
    {
        let c = self.cur_token();
        match c {
            TokenType::Dot => {
                self.advance_token();
                let c2 = self.cur_token();
                match c2 {
                    TokenType::Identifier(prop) => {
                        self.advance_token();
                        let me = ASTNode::MemberExpression(
                            MemberExpression {
                                base: Box::new(base),
                                property: prop,
                                start: 0,
                                end: 0,
                            },
                        );
                        self.member_expression(me)
                    },
                    _ => Ok(base),
                }
            },
            TokenType::OpenParen => match self.call_expression(base) {
                Ok(ce) => self.member_expression(ce),
                Err(e) => Err(e),
            },
            _ => Ok(base),
        }
    }

    /// An expression that begins with the current identifier token.
    fn parse_identifier(&mut self) -> (r: Result<ASTNode, ParseError>)
        requires
            old(self).wf(),
            cur(old(self).spec_toks(), old(self).spec_pos()) is Ident,
        ensures
            final(self).advanced_from(old(self)),
            ({
                let sp = sp_parse_identifier(old(self).spec_toks(), old(self).spec_pos());
                match r {
                    Ok(n) => sp == Ok::<(NodeView, int), PEView>((n@, final(self).spec_pos()))
                        && final(self).spec_pos() > old(self).spec_pos(),
                    Err(e) => sp == Err::<(NodeView, int), PEView>(e@),
                }
            }),
    {
        let c = self.cur_token();
        let name = match c {
            TokenType::Identifier(sname) => sname,
            _ => {
                return Err(ParseError::UnexpectedEof);
            },
        };
        let line = self.line_num();
        let node = ASTNode::Identifier(Identifier { name, start: line, end: line });
        self.advance_token();
        let c2 = self.cur_token();
        match c2 {
            TokenType::OpenParen => self.call_expression(node),
            TokenType::Dot => self.member_expression(node),
            _ => Ok(node),
        }
    }

    /// An arrow function bound to `name`; the current token is its `(`.
    fn arrow_function_statement(&mut self, name: String) -> (r: Result<ASTNode, ParseError>)
        requires
            old(self).wf(),
            cur(old(self).spec_toks(), old(self).spec_pos()) is OpenParen,
        ensures
            final(self).advanced_from(old(self)),
            ({
                let sp = sp_arrow_function(old(self).spec_toks(), old(self).spec_pos(), name@);
                match r {
                    Ok(n) => sp == Ok::<(NodeView, int), PEView>((n@, final(self).spec_pos()))
                        && final(self).spec_pos() > old(self).spec_pos(),
                    Err(e) => sp == Err::<(NodeView, int), PEView>(e@),
                }
            }),
        decreases self.spec_toks().len() - self.spec_pos(), 0int,
    {
        let start = self.line_num();
        self.skip_to_brace();
        let body = match self.block_statement() {
            Ok(b) => b,
            Err(e) => {
                return Err(e);
            },
        };
        let end = self.line_num();
        Ok(ASTNode::FunctionStatement(FunctionStatement { name, body: Box::new(body), start, end }))
    }

    /// The right side of a variable statement, after its left side.
    fn var_rhs(&mut self, lhs: ASTNode, start: usize) -> (r: Result<Option<ASTNode>, ParseError>)
        requires
            old(self).wf(),
        ensures
            final(self).advanced_from(old(self)),
            ({
                let sp = sp_var_rhs(
                    old(self).spec_toks(),
                    old(self).spec_pos(),
                    lhs@,
                    start as int,
                );
                match r {
                    Ok(o) => sp == Ok::<(Option<NodeView>, int), PEView>(
                        (opt_node_view(o), final(self).spec_pos()),
                    ),
                    Err(e) => sp == Err::<(Option<NodeView>, int), PEView>(e@),
                }
            }),
        decreases self.spec_toks().len() - self.spec_pos(), 1int,
    {
        match self.eat(&TokenType::Equals) {
            Ok(()) => {},
            Err(e) => {
                return Err(e);
            },
        }
        let c = self.cur_token();
        match c {
            TokenType::OpenParen => {
                proof {
                    lemma_view_node_variant(lhs);
                }
                match lhs {
                    ASTNode::Identifier(id) => match self.arrow_function_statement(id.name) {
                        Ok(f) => Ok(Some(f)),
                        Err(e) => Err(e),
                    },
                    _ => Ok(None),
                }
            },
            TokenType::OpenBraces => Ok(None),
            TokenType::Identifier(_) => {
                let rhs = match self.parse_identifier() {
                    Ok(n) => n,
                    Err(e) => {
                        return Err(e);
                    },
                };
                let end = self.line_num();
                Ok(
                    Some(
                        ASTNode::VariableExpression(
                            VariableExpression {
                                lhs: Box::new(lhs),
                                rhs: Box::new(rhs),
                                start,
                                end,
                            },
                        ),
                    ),
                )
            },
            _ => Ok(None),
        }
    }

    /// A `const`/`var`/`let` statement; the keyword is current.
    fn variable_statement(&mut self) -> (r: Result<Option<ASTNode>, ParseError>)
        requires
            old(self).wf(),
            !(cur(old(self).spec_toks(), old(self).spec_pos()) is Eof),
        ensures
            final(self).advanced_from(old(self)),
            final(self).spec_pos() > old(self).spec_pos(),
            ({
                let sp = sp_variable_statement(old(self).spec_toks(), old(self).spec_pos());
                match r {
                    Ok(o) => sp == Ok::<(Option<NodeView>, int), PEView>(
                        (opt_node_view(o), final(self).spec_pos()),
                    ),
                    Err(e) => sp == Err::<(Option<NodeView>, int), PEView>(e@),
                }
            }),
        decreases self.spec_toks().len() - self.spec_pos(), 2int,
    {
        let start = self.line_num();
        self.advance_token();
        let c = self.cur_token();
        match c {
            TokenType::Identifier(_) => {
                let lhs = match self.parse_identifier() {
                    Ok(n) => n,
                    Err(e) => {
                        return Err(e);
                    },
                };
                self.var_rhs(lhs, start)
            },
            TokenType::OpenBraces => {
                let op = match self.object_pattern_expression() {
                    Ok(op) => op,
                    Err(e) => {
                        return Err(e);
                    },
                };
                self.var_rhs(ASTNode::ObjectPattern(op), start)
            },
            _ => Ok(None),
        }
    }

    /// A `function name { ... }` statement; the keyword is current.
    fn function_expression(&mut self) -> (r: Result<Option<ASTNode>, ParseError>)
        requires
            old(self).wf(),
            !(cur(old(self).spec_toks(), old(self).spec_pos()) is Eof),
        ensures
            final(self).advanced_from(old(self)),
            final(self).spec_pos() > old(self).spec_pos(),
            ({
                let sp = sp_function_expression(old(self).spec_toks(), old(self).spec_pos());
                match r {
                    Ok(o) => sp == Ok::<(Option<NodeView>, int), PEView>(
                        (opt_node_view(o), final(self).spec_pos()),
                    ),
                    Err(e) => sp == Err::<(Option<NodeView>, int), PEView>(e@),
                }
            }),
        decreases self.spec_toks().len() - self.spec_pos(), 2int,
    {
        let start = self.line_num();
        self.advance_token();
        let c = self.cur_token();
        let name = match c {
            TokenType::Identifier(sname) => sname,
            _ => {
                return Ok(None);
            },
        };
        self.advance_token();
        self.skip_to_brace();
        let body = match self.block_statement() {
            Ok(b) => b,
            Err(e) => {
                return Err(e);
            },
        };
        let end = self.line_num();
        Ok(
            Some(
                ASTNode::FunctionStatement(
                    FunctionStatement { name, body: Box::new(body), start, end },
                ),
            ),
        )
    }

    /// An export statement; the `module` keyword is current.
    fn export_statement(&mut self) -> (r: Result<Option<ASTNode>, ParseError>)
        requires
            old(self).wf(),
            cur(old(self).spec_toks(), old(self).spec_pos()) == TokView::Ident("module"@),
        ensures
            final(self).advanced_from(old(self)),
            final(self).spec_pos() > old(self).spec_pos(),
            ({
                let sp = sp_export_statement(old(self).spec_toks(), old(self).spec_pos());
                match r {
                    Ok(o) => sp == Ok::<(Option<NodeView>, int), PEView>(
                        (opt_node_view(o), final(self).spec_pos()),
                    ),
                    Err(e) => sp == Err::<(Option<NodeView>, int), PEView>(e@),
                }
            }),
    {
        self.advance_token();
        if !matches!(self.cur_token(), TokenType::Dot) {
            return Ok(None);
        }
        self.advance_token();
        let c = self.cur_token();
        let is_exports = match &c {
            TokenType::Identifier(sname) => str_eq(sname.as_str(), "exports"),
            _ => false,
        };
        if !is_exports {
            return Ok(None);
        }
        self.advance_token();
        if !matches!(self.cur_token(), TokenType::Equals) {
            return Ok(None);
        }
        self.advance_token();
        if !matches!(self.cur_token(), TokenType::OpenBraces) {
            return Ok(None);
        }
        match self.object_pattern_expression() {
            Ok(op) => Ok(Some(ASTNode::ExportStatement(op))),
            Err(e) => Err(e),
        }
    }

    /// One statement, chosen by the current token.
    fn statement(&mut self) -> (r: Result<Option<ASTNode>, ParseError>)
        requires
            old(self).wf(),
        ensures
            final(self).advanced_from(old(self)),
            (r is Ok && !(cur(old(self).spec_toks(), old(self).spec_pos()) is Eof))
                ==> final(self).spec_pos() > old(self).spec_pos(),
            ({
                let sp = sp_statement(old(self).spec_toks(), old(self).spec_pos());
                match r {
                    Ok(o) => sp == Ok::<(Option<NodeView>, int), PEView>(
                        (opt_node_view(o), final(self).spec_pos()),
                    ),
                    Err(e) => sp == Err::<(Option<NodeView>, int), PEView>(e@),
                }
            }),
        decreases self.spec_toks().len() - self.spec_pos(), 3int,
    {
        let c = self.cur_token();
        match c {
            TokenType::OpenBraces => match self.block_statement() {
                Ok(b) => Ok(Some(b)),
                Err(e) => Err(e),
            },
            TokenType::Identifier(name) => {
                if str_eq(name.as_str(), "function") {
                    self.function_expression()
                } else if str_eq(name.as_str(), "const") || str_eq(name.as_str(), "var") || str_eq(
                    name.as_str(),
                    "let",
                ) {
                    self.variable_statement()
                } else if str_eq(name.as_str(), "module") {
                    self.export_statement()
                } else if str_eq(name.as_str(), "if") {
                    self.advance_token();
                    Ok(None)
                } else {
                    match self.parse_identifier() {
                        Ok(n) => Ok(Some(n)),
                        Err(e) => Err(e),
                    }
                }
            },
            TokenType::ForwardSlash => {
                self.parse_backslash();
                Ok(None)
            },
            _ => {
                self.advance_token();
                Ok(None)
            },
        }
    }

    /// A `{ ... }` statement: its body between the braces.
    fn block_statement(&mut self) -> (r: Result<ASTNode, ParseError>)
        requires
            old(self).wf(),
        ensures
            final(self).advanced_from(old(self)),
            ({
                let sp = sp_block_statement(old(self).spec_toks(), old(self).spec_pos());
                match r {
                    Ok(b) => sp == Ok::<(NodeView, int), PEView>((b@, final(self).spec_pos()))
                        && final(self).spec_pos() > old(self).spec_pos(),
                    Err(e) => sp == Err::<(NodeView, int), PEView>(e@),
                }
            }),
        decreases self.spec_toks().len() - self.spec_pos(), 1int,
    {
        let start = self.line_num();
        match self.eat(&TokenType::OpenBraces) {
            Ok(()) => {},
            Err(e) => {
                return Err(e);
            },
        }
        let body = match self.block_body() {
            Ok(v) => v,
            Err(e) => {
                return Err(e);
            },
        };
        match self.eat(&TokenType::CloseBraces) {
            Ok(()) => {},
            Err(e) => {
                return Err(e);
            },
        }
        let end = self.line_num();
        Ok(ASTNode::BlockStatement(BlockStatement { body, start, end }))
    }

    /// The statements of a block, up to its closing `}`.
    fn block_body(&mut self) -> (r: Result<Vec<ASTNode>, ParseError>)
        requires
            old(self).wf(),
        ensures
            final(self).advanced_from(old(self)),
            ({
                let sp = sp_block_body(old(self).spec_toks(), old(self).spec_pos());
                match r {
                    Ok(v) => sp == Ok::<(Seq<NodeView>, int), PEView>(
                        (views_of(v@), final(self).spec_pos()),
                    ),
                    Err(e) => sp == Err::<(Seq<NodeView>, int), PEView>(e@),
                }
            }),
        decreases self.spec_toks().len() - self.spec_pos(), 4int,
    {
        let c = self.cur_token();
        if matches!(c, TokenType::CloseBraces) || matches!(c, TokenType::EOF) {
            let v: Vec<ASTNode> = Vec::new();
            proof {
                assert(views_of(v@) =~= Seq::<NodeView>::empty());
            }
            return Ok(v);
        }
        let opt = match self.statement() {
            Ok(o) => o,
            Err(e) => {
                return Err(e);
            },
        };
        let mut rest = match self.block_body() {
            Ok(v) => v,
            Err(e) => {
                return Err(e);
            },
        };
        let ghost restv = views_of(rest@);
        match opt {
            Some(n) => {
                let ghost nv = n@;
                rest.insert(0, n);
                proof {
                    assert(views_of(rest@) =~= seq![nv] + restv);
                }
            },
            None => {},
        }
        Ok(rest)
    }

    /// The top-level statements, up to the end of input.
    fn statement_list(&mut self) -> (r: Result<Vec<ASTNode>, ParseError>)
        requires
            old(self).wf(),
        ensures
            final(self).advanced_from(old(self)),
            ({
                let sp = sp_statement_list(old(self).spec_toks(), old(self).spec_pos());
                match r {
                    Ok(v) => sp == Ok::<(Seq<NodeView>, int), PEView>(
                        (views_of(v@), final(self).spec_pos()),
                    ),
                    Err(e) => sp == Err::<(Seq<NodeView>, int), PEView>(e@),
                }
            }),
        decreases self.spec_toks().len() - self.spec_pos(),
    {
        let c = self.cur_token();
        if matches!(c, TokenType::EOF) {
            let v: Vec<ASTNode> = Vec::new();
            proof {
                assert(views_of(v@) =~= Seq::<NodeView>::empty());
            }
            return Ok(v);
        }
        let opt = match self.statement() {
            Ok(o) => o,
            Err(e) => {
                return Err(e);
            },
        };
        let mut rest = match self.statement_list() {
            Ok(v) => v,
            Err(e) => {
                return Err(e);
            },
        };
        let ghost restv = views_of(rest@);
        match opt {
            Some(n) => {
                let ghost nv = n@;
                rest.insert(0, n);
                proof {
                    assert(views_of(rest@) =~= seq![nv] + restv);
                }
            },
            None => {},
        }
        Ok(rest)
    }

    /// A whole program: its statement list.
    fn program(&mut self) -> (r: Result<ASTNode, ParseError>)
        requires
            old(self).wf(),
        ensures
            final(self).advanced_from(old(self)),
            ({
                let sp = sp_program(old(self).spec_toks(), old(self).spec_pos());
                match r {
                    Ok(ast) => sp == Ok::<(NodeView, int), PEView>((ast@, final(self).spec_pos())),
                    Err(e) => sp == Err::<(NodeView, int), PEView>(e@),
                }
            }),
    {
        let start = self.line_num();
        let body = match self.statement_list() {
            Ok(v) => v,
            Err(e) => {
                return Err(e);
            },
        };
        let end = self.line_num();
        Ok(ASTNode::Program(Program { lines: body, start, end }))
    }

    /// Parse the token stream into a program syntax tree, or report the first
    /// hard grammar error. On a fresh parser the result is exactly what
    /// `spec_parse_src` yields on the source text.
    pub fn parse(&mut self) -> (r: Result<ASTNode, ParseError>)
        requires
            old(self).wf(),
        ensures
            final(self).wf(),
            ({
                let sp = sp_program(old(self).spec_toks(), old(self).spec_pos());
                match r {
                    Ok(ast) => sp == Ok::<(NodeView, int), PEView>((ast@, final(self).spec_pos())),
                    Err(e) => sp == Err::<(NodeView, int), PEView>(e@),
                }
            }),
            old(self).spec_pos() == 0 ==> ({
                let sp = spec_parse_src(old(self).spec_src());
                match r {
                    Ok(ast) => sp matches Ok(v) && v.0 == ast@,
                    Err(e) => sp == Err::<(NodeView, int), PEView>(e@),
                }
            }),
    {
        self.program()
    }
}

} // verus!
