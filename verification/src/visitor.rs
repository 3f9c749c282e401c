use vstd::prelude::*;

use crate::ast::{
    ASTNode, CallExpression, FunctionStatement, NodeView, PropView, clone_node,
    lemma_view_node_variant, spec_export_extract, spec_find_function, start_of, end_of, view_node,
    views_of,
};
use crate::file_scope::{
    FsView, ProgramScope, SymView, Symbol, clone_symbol, sp_scope_find, sp_scope_insert,
    sp_scope_pop, sp_scope_push_block, sp_scope_push_file,
};
use crate::parser::{ParseError, Parser, spec_parse_src};
use crate::utils::{
    dec_digits, join_path, spec_contains, spec_join_path, split_seq, split_str, str_contains,
    str_eq, trim_of, trim_str, usize_to_string,
};

verus! {

// ---- files ----

/// Spec-level image of a loaded file: its path, syntax tree, source lines,
/// and the set of line indices already reported.
#[verifier::ext_equal]
pub struct FileView {
    pub path: Seq<char>,
    pub ast: NodeView,
    pub lines: Seq<Seq<char>>,
    pub recorded: Set<int>,
}

/// Whether line index `x` occurs in the recorded list.
pub open spec fn rec_contains(s: Seq<usize>, x: int) -> bool {
    exists|k: int| 0 <= k < s.len() && s[k] == x
}

/// The set of recorded line indices.
pub open spec fn rec_set(s: Seq<usize>) -> Set<int> {
    Set::new(|x: int| rec_contains(s, x))
}

proof fn lemma_rec_push(s: Seq<usize>, line: usize)
    ensures
        rec_set(s.push(line)) == rec_set(s).insert(line as int),
{
    let a = rec_set(s.push(line));
    let b = rec_set(s).insert(line as int);
    assert forall|x: int| a.contains(x) implies b.contains(x) by {
        let k = choose|k: int| 0 <= k < s.push(line).len() && s.push(line)[k] == x;
        if k < s.len() {
            assert(s[k] == x);
        }
    };
    assert forall|x: int| b.contains(x) implies a.contains(x) by {
        if x == line as int {
            assert(s.push(line)[s.len() as int] == line);
        } else {
            let k = choose|k: int| 0 <= k < s.len() && s[k] == x;
            assert(s.push(line)[k] == x);
        }
    };
    assert(a =~= b);
}

/// A loaded file: parsed once, retained for the whole search.
struct File {
    path: String,
    ast: ASTNode,
    lines: Vec<String>,
    lines_recorded: Vec<usize>,
}

/// The spec-level images of a line list.
pub open spec fn line_views(ls: Seq<String>) -> Seq<Seq<char>> {
    Seq::new(ls.len(), |i: int| ls[i]@)
}

impl View for File {
    type V = FileView;

    closed spec fn view(&self) -> FileView {
        FileView {
            path: self.path@,
            ast: self.ast@,
            lines: line_views(self.lines@),
            recorded: rec_set(self.lines_recorded@),
        }
    }
}

/// The spec-level images of a file list.
spec fn files_views(fs: Seq<File>) -> Seq<FileView> {
    Seq::new(fs.len(), |i: int| fs[i]@)
}

/// The spec-level images of a match list.
pub open spec fn results_views(rs: Seq<Match>) -> Seq<MatchView> {
    Seq::new(rs.len(), |i: int| rs[i]@)
}


// ---- matches ----

/// Spec-level image of one reported match.
#[verifier::ext_equal]
pub struct MatchView {
    pub file: Seq<char>,
    pub line: int,
    pub text: Seq<char>,
}

/// One reported line: the file it lies in, its 0-based index, and its
/// trimmed text.
pub struct Match {
    pub file: String,
    pub line: usize,
    pub text: String,
}

impl View for Match {
    type V = MatchView;

    open spec fn view(&self) -> MatchView {
        MatchView { file: self.file@, line: self.line as int, text: self.text@ }
    }
}

// ---- the searchable file table and its queries ----

/// The index of the file at `path`, scanning from `k`; `-1` when absent.
pub open spec fn file_idx_from(files: Seq<FileView>, path: Seq<char>, k: int) -> int
    decreases files.len() - k,
{
    if k < 0 || k >= files.len() {
        -1
    } else if files[k].path == path {
        k
    } else {
        file_idx_from(files, path, k + 1)
    }
}

/// The index of the file at `path`; `-1` when absent.
pub open spec fn file_idx(files: Seq<FileView>, path: Seq<char>) -> int {
    file_idx_from(files, path, 0)
}

/// What holds of every reported match: its file is loaded, its line index is
/// real, the untrimmed source line contains the needle, the reported text is
/// the trimmed source line, and the line is marked as recorded.
pub open spec fn m_ok(files: Seq<FileView>, needle: Seq<char>, m: MatchView) -> bool {
    let fi = file_idx(files, m.file);
    &&& 0 <= fi < files.len()
    &&& 0 <= m.line < files[fi].lines.len()
    &&& spec_contains(files[fi].lines[m.line], needle)
    &&& m.text == trim_of(files[fi].lines[m.line])
    &&& files[fi].recorded.contains(m.line)
}

/// How a search may change the file table: no file is removed or replaced,
/// only new files appended and recorded lines added.
pub open spec fn files_extend(pre: Seq<FileView>, post: Seq<FileView>) -> bool {
    &&& pre.len() <= post.len()
    &&& forall|i: int|
        0 <= i < pre.len() ==> (#[trigger] post[i]).path == pre[i].path && post[i].ast == pre[i].ast
            && post[i].lines == pre[i].lines && pre[i].recorded.subset_of(post[i].recorded)
}

proof fn lemma_file_idx_extend(pre: Seq<FileView>, post: Seq<FileView>, path: Seq<char>, k: int)
    requires
        files_extend(pre, post),
        0 <= k,
        file_idx_from(pre, path, k) >= 0,
    ensures
        file_idx_from(post, path, k) == file_idx_from(pre, path, k),
    decreases pre.len() - k,
{
    if k < pre.len() {
        if pre[k].path == path {
        } else {
            lemma_file_idx_extend(pre, post, path, k + 1);
        }
    }
}

proof fn lemma_m_ok_extend(pre: Seq<FileView>, post: Seq<FileView>, needle: Seq<char>, m: MatchView)
    requires
        files_extend(pre, post),
        m_ok(pre, needle, m),
    ensures
        m_ok(post, needle, m),
{
    lemma_file_idx_extend(pre, post, m.file, 0);
}

/// What a search never changes about a file: its path, tree and lines.
#[verifier::ext_equal]
pub struct FileShape {
    pub path: Seq<char>,
    pub ast: NodeView,
    pub lines: Seq<Seq<char>>,
}

/// The file table with the recorded-line sets stripped away.
pub open spec fn shapes(files: Seq<FileView>) -> Seq<FileShape> {
    Seq::new(
        files.len(),
        |i: int| FileShape { path: files[i].path, ast: files[i].ast, lines: files[i].lines },
    )
}

proof fn lemma_shape_idx(a: Seq<FileView>, b: Seq<FileView>, p: Seq<char>, k: int)
    requires
        shapes(a) == shapes(b),
        0 <= k,
    ensures
        file_idx_from(a, p, k) == file_idx_from(b, p, k),
    decreases a.len() - k,
{
    assert(shapes(a).len() == a.len());
    assert(shapes(b).len() == b.len());
    if 0 <= k < a.len() {
        assert(shapes(a)[k] == shapes(b)[k]);
        if a[k].path == p {
        } else {
            lemma_shape_idx(a, b, p, k + 1);
        }
    }
}

proof fn lemma_file_idx_range(files: Seq<FileView>, p: Seq<char>, k: int)
    requires
        0 <= k,
    ensures
        file_idx_from(files, p, k) == -1 || (k <= file_idx_from(files, p, k) < files.len()),
    decreases files.len() - k,
{
    if 0 <= k < files.len() && files[k].path != p {
        lemma_file_idx_range(files, p, k + 1);
    }
}

proof fn lemma_files_extend_trans(a: Seq<FileView>, b: Seq<FileView>, c: Seq<FileView>)
    requires
        files_extend(a, b),
        files_extend(b, c),
    ensures
        files_extend(a, c),
{
}

/// The first index bound to `path`, found by a linear scan.
fn file_index(files: &Vec<File>, path: &str) -> (r: Option<usize>)
    ensures
        ({
            let fv = files_views(files@);
            match r {
                Some(i) => file_idx(fv, path@) == i as int && i < files@.len(),
                None => file_idx(fv, path@) == -1,
            }
        }),
{
    let ghost fv = files_views(files@);
    let mut k: usize = 0;
    #[verifier::loop_isolation(false)]
    while k < files.len()
        invariant
            k <= files@.len(),
            file_idx(fv, path@) == file_idx_from(fv, path@, k as int),
        decreases files@.len() - k,
    {
        if str_eq(files[k].path.as_str(), path) {
            return Some(k);
        }
        k += 1;
    }
    None
}

/// Whether the recorded list holds `line`.
fn recorded_has(v: &Vec<usize>, line: usize) -> (r: bool)
    ensures
        r == rec_contains(v@, line as int),
{
    let mut k: usize = 0;
    #[verifier::loop_isolation(false)]
    while k < v.len()
        invariant
            k <= v@.len(),
            forall|j: int| 0 <= j < k ==> v@[j] != line,
        decreases v@.len() - k,
    {
        if v[k] == line {
            return true;
        }
        k += 1;
    }
    false
}

proof fn lemma_file_idx_absent(files: Seq<FileView>, path: Seq<char>, k: int)
    requires
        0 <= k,
        file_idx_from(files, path, k) == -1,
    ensures
        forall|j: int| k <= j < files.len() ==> (#[trigger] files[j]).path != path,
    decreases files.len() - k,
{
    if k < files.len() {
        lemma_file_idx_absent(files, path, k + 1);
    }
}


// ---- the spec-level traversal ----

/// The state a traversal step works on: the loaded files (only their
/// recorded-line sets change), the scope stack, the reported matches, the
/// line cursor, and the stack of frames being visited (the cycle guard).
#[verifier::ext_equal]
pub struct VState {
    pub files: Seq<FileView>,
    pub scope: Seq<FsView>,
    pub results: Seq<MatchView>,
    pub line_num: int,
    pub guard: Seq<(Seq<char>, int)>,
}

/// The spec-level images of the guard stack.
pub open spec fn guard_views(g: Seq<(String, usize)>) -> Seq<(Seq<char>, int)> {
    Seq::new(g.len(), |i: int| (g[i].0@, g[i].1 as int))
}

/// Whether a `(file, function start)` frame is on the visiting stack.
pub open spec fn sp_guard_has(g: Seq<(Seq<char>, int)>, path: Seq<char>, start: int) -> bool {
    exists|k: int| 0 <= k < g.len() && g[k] == (path, start)
}

/// One grep window, line by line: every line of `[line ..= hi]` of file `fi`
/// that is not recorded yet and holds the needle is reported (trimmed, in
/// line order) and recorded.
pub open spec fn sp_grep_lines(
    needle: Seq<char>,
    s: VState,
    fi: int,
    path: Seq<char>,
    line: int,
    hi: int,
) -> VState
    decreases hi + 1 - line,
{
    if line > hi || !(0 <= fi < s.files.len()) {
        s
    } else {
        let f = s.files[fi];
        let hit = 0 <= line && !f.recorded.contains(line) && spec_contains(f.lines[line], needle);
        let s2 = if hit {
            VState {
                files: s.files.update(
                    fi,
                    FileView {
                        path: f.path,
                        ast: f.ast,
                        lines: f.lines,
                        recorded: f.recorded.insert(line),
                    },
                ),
                results: s.results.push(
                    MatchView { file: path, line, text: trim_of(f.lines[line]) },
                ),
                ..s
            }
        } else {
            s
        };
        sp_grep_lines(needle, s2, fi, path, line + 1, hi)
    }
}

/// One grep call: nothing without a current file or with one that is not
/// loaded; otherwise the window, clipped to the file's last line, is scanned.
pub open spec fn sp_grep(needle: Seq<char>, s: VState, from: int, until: int) -> VState {
    if s.scope.len() == 0 {
        s
    } else {
        let path = s.scope.last().file_path;
        let fi = file_idx(s.files, path);
        if fi < 0 {
            s
        } else {
            let n = s.files[fi].lines.len();
            let hi = if until >= n {
                n - 1
            } else {
                until
            };
            sp_grep_lines(needle, s, fi, path, from, hi)
        }
    }
}

/// Registering one property list of a require binding: for each property, the
/// imported file's top-level function named by the key enters the current
/// scope under the value.
pub open spec fn sp_index_props(s: VState, fi: int, props: Seq<PropView>, k: int) -> VState
    decreases props.len() - k,
{
    if k < 0 || k >= props.len() || !(0 <= fi < s.files.len()) {
        s
    } else {
        let s2 = match spec_find_function(s.files[fi].ast, props[k].key) {
            Some(f) => VState {
                scope: sp_scope_insert(
                    s.scope,
                    props[k].value,
                    SymView { node: f, file_path: s.files[fi].path },
                ),
                ..s
            },
            None => s,
        };
        sp_index_props(s2, fi, props, k + 1)
    }
}

/// Registering one required file's exports under their local aliases; a bare
/// identifier binding acts as a one-property pattern. An unloaded file or an
/// unusable left side registers nothing.
pub open spec fn sp_index_export(s: VState, required_file: Seq<char>, lhs: NodeView) -> VState {
    let fi = file_idx(s.files, required_file);
    if fi < 0 {
        s
    } else {
        match lhs {
            NodeView::ObjectPattern(op) => sp_index_props(s, fi, op.properties, 0),
            NodeView::Identifier { name, .. } => sp_index_props(
                s,
                fi,
                seq![PropView { key: name, value: name }],
                0,
            ),
            _ => s,
        }
    }
}

/// Registering a statement list into the scope of file `path`: require
/// bindings bring in their file's exports, function statements enter under
/// their own names.
pub open spec fn sp_index_stmts(s: VState, path: Seq<char>, lines: Seq<NodeView>, k: int) -> VState
    decreases lines.len() - k,
{
    if k < 0 || k >= lines.len() {
        s
    } else {
        let node = lines[k];
        let s1 = match spec_export_extract(node) {
            Some(r) => sp_index_export(s, spec_join_path(path, r.0), r.1),
            None => s,
        };
        let s2 = match node {
            NodeView::FunctionStatement { name, .. } => VState {
                scope: sp_scope_insert(s1.scope, name, SymView { node, file_path: path }),
                ..s1
            },
            _ => s1,
        };
        sp_index_stmts(s2, path, lines, k + 1)
    }
}

/// Registering a statement list into the current file's scope; nothing with
/// no current file.
pub open spec fn sp_index_block(s: VState, lines: Seq<NodeView>) -> VState {
    if s.scope.len() == 0 {
        s
    } else {
        sp_index_stmts(s, s.scope.last().file_path, lines, 0)
    }
}

/// Entering a file for a cross-file call: its scope is opened and, when the
/// file is loaded, its top level is indexed; reports whether it is loaded.
pub open spec fn sp_push_file_scope(s: VState, file_path: Seq<char>) -> (VState, bool) {
    let s1 = VState { scope: sp_scope_push_file(s.scope, file_path), ..s };
    let fi = file_idx(s1.files, file_path);
    if fi < 0 {
        (s1, false)
    } else {
        match s1.files[fi].ast {
            NodeView::Program { lines, .. } => (sp_index_block(s1, lines), true),
            _ => (s1, false),
        }
    }
}

/// Visiting one node: the window up to its start is grepped, the node is
/// walked into, the window to its end is grepped, and a block closes its
/// scope afterwards; the cursor ends on the node's end line.
pub open spec fn sp_visit_node(needle: Seq<char>, s: VState, node: NodeView, fuel: nat) -> VState
    decreases fuel, node, 0int,
{
    let s1 = sp_grep(needle, s, s.line_num, start_of(node));
    let s2 = VState { line_num: start_of(node), ..s1 };
    let s3 = match node {
        NodeView::BlockStatement { body, .. } => sp_visit_block_statement(needle, s2, body, fuel),
        NodeView::CallExpression { base, start, .. } => sp_visit_call(needle, s2, *base, start, fuel),
        NodeView::FunctionStatement { body, .. } => sp_visit_node(needle, s2, *body, fuel),
        NodeView::Program { lines, .. } => sp_visit_block(needle, s2, lines, fuel),
        _ => s2,
    };
    let s4 = sp_grep(needle, s3, s3.line_num, end_of(node));
    let s5 = VState { line_num: end_of(node), ..s4 };
    if node is BlockStatement {
        VState { scope: sp_scope_pop(s5.scope), ..s5 }
    } else {
        s5
    }
}

/// Visiting a `{ ... }` statement: a block scope is opened, then the body is
/// walked (the matching close of the scope happens in `sp_visit_node`).
pub open spec fn sp_visit_block_statement(
    needle: Seq<char>,
    s: VState,
    body: Seq<NodeView>,
    fuel: nat,
) -> VState
    decreases fuel, body, body.len() + 2,
{
    let s1 = VState { scope: sp_scope_push_block(s.scope), ..s };
    sp_visit_block(needle, s1, body, fuel)
}

/// Walking a statement list: it is indexed first, then its children visited
/// in order.
pub open spec fn sp_visit_block(needle: Seq<char>, s: VState, lines: Seq<NodeView>, fuel: nat) -> VState
    decreases fuel, lines, lines.len() + 1,
{
    sp_visit_children(needle, sp_index_block(s, lines), lines, 0, fuel)
}

/// The children of a statement list, in order. A function statement child is
/// not entered: at most the window up to the line before it is grepped, and
/// the cursor jumps past it — functions are entered only through calls.
pub open spec fn sp_visit_children(
    needle: Seq<char>,
    s: VState,
    lines: Seq<NodeView>,
    k: int,
    fuel: nat,
) -> VState
    decreases fuel, lines, lines.len() - k,
{
    if k < 0 || k >= lines.len() {
        s
    } else {
        let s2 = match lines[k] {
            NodeView::FunctionStatement { start, end, .. } => {
                let s1 = if start > 0 {
                    sp_grep(needle, s, s.line_num, start - 1)
                } else {
                    s
                };
                VState {
                    line_num: if end < usize::MAX as int {
                        end + 1
                    } else {
                        end
                    },
                    ..s1
                }
            },
            _ => sp_visit_node(needle, s, lines[k], fuel),
        };
        sp_visit_children(needle, s2, lines, k + 1, fuel)
    }
}

/// Following a call: only a bare identifier that resolves through the scope
/// stack is followed; a frame already on the visiting stack, exhausted fuel,
/// or an unloaded target file leaves the state as it is apart from the bare
/// file-scope push. On descent the callee is visited from its start line and
/// the cursor is restored to the call site afterwards.
pub open spec fn sp_visit_call(
    needle: Seq<char>,
    s: VState,
    base: NodeView,
    ce_start: int,
    fuel: nat,
) -> VState
    decreases fuel, base, 0int,
{
    match base {
        NodeView::Identifier { name, .. } => match sp_scope_find(s.scope, name) {
            Some(sym) => {
                if fuel == 0 {
                    s
                } else if sp_guard_has(s.guard, sym.file_path, start_of(sym.node)) {
                    s
                } else {
                    let differs = s.scope.last().file_path != sym.file_path;
                    let (sa, ok) = if differs {
                        sp_push_file_scope(s, sym.file_path)
                    } else {
                        (s, true)
                    };
                    if !ok {
                        sa
                    } else {
                        let sb = VState {
                            guard: sa.guard.push((sym.file_path, start_of(sym.node))),
                            line_num: start_of(sym.node),
                            ..sa
                        };
                        let sc = sp_visit_node(needle, sb, sym.node, (fuel - 1) as nat);
                        VState { guard: sc.guard.drop_last(), line_num: ce_start, ..sc }
                    }
                }
            },
            None => s,
        },
        _ => s,
    }
}

/// Starting a traversal at a node: the cursor is set to its start line and
/// the node is visited with fuel that a real search cannot exhaust.
pub open spec fn sp_init_visit(needle: Seq<char>, s: VState, node: NodeView) -> VState {
    sp_visit_node(needle, VState { line_num: start_of(node), ..s }, node, usize::MAX as nat)
}

/// What a whole search does, and whether it succeeds: the entry file's scope
/// is opened; with a start name, the top level is indexed, the named frame is
/// put on the visiting stack and the named function visited; without one, the
/// whole program is visited. A missing entry file or an unresolvable start
/// fails and reports nothing new.
pub open spec fn sp_search(
    needle: Seq<char>,
    s: VState,
    path: Seq<char>,
    func_start: Option<Seq<char>>,
) -> (bool, VState) {
    let fi = file_idx(s.files, path);
    if fi < 0 {
        (false, s)
    } else {
        let s1 = VState { scope: sp_scope_push_file(s.scope, path), ..s };
        let ast = s1.files[fi].ast;
        match func_start {
            None => (true, sp_init_visit(needle, s1, ast)),
            Some(n) => match ast {
                NodeView::Program { lines, .. } => {
                    let s2 = sp_index_block(s1, lines);
                    match spec_find_function(ast, n) {
                        Some(f) => {
                            let s3 = VState { guard: s2.guard.push((path, start_of(f))), ..s2 };
                            let s4 = sp_init_visit(needle, s3, f);
                            (true, VState { guard: s4.guard.drop_last(), ..s4 })
                        },
                        None => (false, s2),
                    }
                },
                _ => (false, s1),
            },
        }
    }
}


// The traversal preserves the guard stack on balance: every descent pushes
// one frame and pops it on return, and nothing else touches the stack.

proof fn lemma_grep_lines_guard(
    needle: Seq<char>,
    s: VState,
    fi: int,
    path: Seq<char>,
    line: int,
    hi: int,
)
    ensures
        sp_grep_lines(needle, s, fi, path, line, hi).guard == s.guard,
        sp_grep_lines(needle, s, fi, path, line, hi).scope == s.scope,
        sp_grep_lines(needle, s, fi, path, line, hi).line_num == s.line_num,
    decreases hi + 1 - line,
{
    if !(line > hi || !(0 <= fi < s.files.len())) {
        let f = s.files[fi];
        let hit = 0 <= line && !f.recorded.contains(line) && spec_contains(f.lines[line], needle);
        let s2 = if hit {
            VState {
                files: s.files.update(
                    fi,
                    FileView {
                        path: f.path,
                        ast: f.ast,
                        lines: f.lines,
                        recorded: f.recorded.insert(line),
                    },
                ),
                results: s.results.push(
                    MatchView { file: path, line, text: trim_of(f.lines[line]) },
                ),
                ..s
            }
        } else {
            s
        };
        lemma_grep_lines_guard(needle, s2, fi, path, line + 1, hi);
    }
}

proof fn lemma_grep_guard(needle: Seq<char>, s: VState, from: int, until: int)
    ensures
        sp_grep(needle, s, from, until).guard == s.guard,
        sp_grep(needle, s, from, until).scope == s.scope,
        sp_grep(needle, s, from, until).line_num == s.line_num,
{
    if s.scope.len() > 0 {
        let path = s.scope.last().file_path;
        let fi = file_idx(s.files, path);
        if fi >= 0 {
            let n = s.files[fi].lines.len();
            let hi = if until >= n {
                n - 1
            } else {
                until
            };
            lemma_grep_lines_guard(needle, s, fi, path, from, hi);
        }
    }
}

proof fn lemma_index_props_guard(s: VState, fi: int, props: Seq<PropView>, k: int)
    ensures
        sp_index_props(s, fi, props, k).guard == s.guard,
        sp_index_props(s, fi, props, k).line_num == s.line_num,
        sp_index_props(s, fi, props, k).results == s.results,
        sp_index_props(s, fi, props, k).files == s.files,
    decreases props.len() - k,
{
    if !(k < 0 || k >= props.len() || !(0 <= fi < s.files.len())) {
        let s2 = match spec_find_function(s.files[fi].ast, props[k].key) {
            Some(f) => VState {
                scope: sp_scope_insert(
                    s.scope,
                    props[k].value,
                    SymView { node: f, file_path: s.files[fi].path },
                ),
                ..s
            },
            None => s,
        };
        lemma_index_props_guard(s2, fi, props, k + 1);
    }
}

proof fn lemma_index_export_guard(s: VState, required_file: Seq<char>, lhs: NodeView)
    ensures
        sp_index_export(s, required_file, lhs).guard == s.guard,
        sp_index_export(s, required_file, lhs).line_num == s.line_num,
        sp_index_export(s, required_file, lhs).results == s.results,
        sp_index_export(s, required_file, lhs).files == s.files,
{
    let fi = file_idx(s.files, required_file);
    if fi >= 0 {
        match lhs {
            NodeView::ObjectPattern(op) => {
                lemma_index_props_guard(s, fi, op.properties, 0);
            },
            NodeView::Identifier { name, .. } => {
                lemma_index_props_guard(s, fi, seq![PropView { key: name, value: name }], 0);
            },
            _ => {},
        }
    }
}

proof fn lemma_index_stmts_guard(s: VState, path: Seq<char>, lines: Seq<NodeView>, k: int)
    ensures
        sp_index_stmts(s, path, lines, k).guard == s.guard,
        sp_index_stmts(s, path, lines, k).line_num == s.line_num,
        sp_index_stmts(s, path, lines, k).results == s.results,
        sp_index_stmts(s, path, lines, k).files == s.files,
    decreases lines.len() - k,
{
    if !(k < 0 || k >= lines.len()) {
        let node = lines[k];
        let s1 = match spec_export_extract(node) {
            Some(r) => sp_index_export(s, spec_join_path(path, r.0), r.1),
            None => s,
        };
        match spec_export_extract(node) {
            Some(r) => {
                lemma_index_export_guard(s, spec_join_path(path, r.0), r.1);
            },
            None => {},
        }
        let s2 = match node {
            NodeView::FunctionStatement { name, .. } => VState {
                scope: sp_scope_insert(s1.scope, name, SymView { node, file_path: path }),
                ..s1
            },
            _ => s1,
        };
        lemma_index_stmts_guard(s2, path, lines, k + 1);
    }
}

proof fn lemma_index_block_guard(s: VState, lines: Seq<NodeView>)
    ensures
        sp_index_block(s, lines).guard == s.guard,
        sp_index_block(s, lines).line_num == s.line_num,
        sp_index_block(s, lines).results == s.results,
        sp_index_block(s, lines).files == s.files,
{
    if s.scope.len() > 0 {
        lemma_index_stmts_guard(s, s.scope.last().file_path, lines, 0);
    }
}

proof fn lemma_push_file_scope_guard(s: VState, file_path: Seq<char>)
    ensures
        sp_push_file_scope(s, file_path).0.guard == s.guard,
        sp_push_file_scope(s, file_path).0.line_num == s.line_num,
{
    let s1 = VState { scope: sp_scope_push_file(s.scope, file_path), ..s };
    let fi = file_idx(s1.files, file_path);
    if fi >= 0 {
        match s1.files[fi].ast {
            NodeView::Program { lines, .. } => {
                lemma_index_block_guard(s1, lines);
            },
            _ => {},
        }
    }
}

proof fn lemma_visit_node_guard(needle: Seq<char>, s: VState, node: NodeView, fuel: nat)
    ensures
        sp_visit_node(needle, s, node, fuel).guard == s.guard,
    decreases fuel, node, 0int,
{
    let s1 = sp_grep(needle, s, s.line_num, start_of(node));
    lemma_grep_guard(needle, s, s.line_num, start_of(node));
    let s2 = VState { line_num: start_of(node), ..s1 };
    let s3 = match node {
        NodeView::BlockStatement { body, .. } => {
            lemma_visit_block_statement_guard(needle, s2, body, fuel);
            sp_visit_block_statement(needle, s2, body, fuel)
        },
        NodeView::CallExpression { base, start, .. } => {
            lemma_visit_call_guard(needle, s2, *base, start, fuel);
            sp_visit_call(needle, s2, *base, start, fuel)
        },
        NodeView::FunctionStatement { body, .. } => {
            lemma_visit_node_guard(needle, s2, *body, fuel);
            sp_visit_node(needle, s2, *body, fuel)
        },
        NodeView::Program { lines, .. } => {
            lemma_visit_block_guard(needle, s2, lines, fuel);
            sp_visit_block(needle, s2, lines, fuel)
        },
        _ => s2,
    };
    lemma_grep_guard(needle, s3, s3.line_num, end_of(node));
}

proof fn lemma_visit_block_statement_guard(
    needle: Seq<char>,
    s: VState,
    body: Seq<NodeView>,
    fuel: nat,
)
    ensures
        sp_visit_block_statement(needle, s, body, fuel).guard == s.guard,
    decreases fuel, body, body.len() + 2,
{
    let s1 = VState { scope: sp_scope_push_block(s.scope), ..s };
    lemma_visit_block_guard(needle, s1, body, fuel);
}

proof fn lemma_visit_block_guard(needle: Seq<char>, s: VState, lines: Seq<NodeView>, fuel: nat)
    ensures
        sp_visit_block(needle, s, lines, fuel).guard == s.guard,
    decreases fuel, lines, lines.len() + 1,
{
    lemma_index_block_guard(s, lines);
    lemma_visit_children_guard(needle, sp_index_block(s, lines), lines, 0, fuel);
}

proof fn lemma_visit_children_guard(
    needle: Seq<char>,
    s: VState,
    lines: Seq<NodeView>,
    k: int,
    fuel: nat,
)
    ensures
        sp_visit_children(needle, s, lines, k, fuel).guard == s.guard,
    decreases fuel, lines, lines.len() - k,
{
    if !(k < 0 || k >= lines.len()) {
        let s2 = match lines[k] {
            NodeView::FunctionStatement { start, end, .. } => {
                let s1 = if start > 0 {
                    lemma_grep_guard(needle, s, s.line_num, start - 1);
                    sp_grep(needle, s, s.line_num, start - 1)
                } else {
                    s
                };
                VState {
                    line_num: if end < usize::MAX as int {
                        end + 1
                    } else {
                        end
                    },
                    ..s1
                }
            },
            _ => {
                lemma_visit_node_guard(needle, s, lines[k], fuel);
                sp_visit_node(needle, s, lines[k], fuel)
            },
        };
        lemma_visit_children_guard(needle, s2, lines, k + 1, fuel);
    }
}

proof fn lemma_visit_call_guard(
    needle: Seq<char>,
    s: VState,
    base: NodeView,
    ce_start: int,
    fuel: nat,
)
    ensures
        sp_visit_call(needle, s, base, ce_start, fuel).guard == s.guard,
    decreases fuel, base, 0int,
{
    match base {
        NodeView::Identifier { name, .. } => match sp_scope_find(s.scope, name) {
            Some(sym) => {
                if fuel != 0 && !sp_guard_has(s.guard, sym.file_path, start_of(sym.node)) {
                    let differs = s.scope.last().file_path != sym.file_path;
                    let (sa, ok) = if differs {
                        lemma_push_file_scope_guard(s, sym.file_path);
                        sp_push_file_scope(s, sym.file_path)
                    } else {
                        (s, true)
                    };
                    if ok {
                        let sb = VState {
                            guard: sa.guard.push((sym.file_path, start_of(sym.node))),
                            line_num: start_of(sym.node),
                            ..sa
                        };
                        lemma_visit_node_guard(needle, sb, sym.node, (fuel - 1) as nat);
                        let sc = sp_visit_node(needle, sb, sym.node, (fuel - 1) as nat);
                        assert(sc.guard.drop_last() =~= sa.guard);
                    }
                }
            },
            None => {},
        },
        _ => {},
    }
}

// ---- the reachability-guided visitor ----

/// Walks syntax trees from a starting function, following resolvable calls,
/// and reports every reachable line that contains the needle.
pub struct ASTVisitor {
    needle: String,
    line_num: usize,
    files: Vec<File>,
    scope: ProgramScope,
    results: Vec<Match>,
    guard: Vec<(String, usize)>,
    visited: Ghost<Set<Seq<char>>>,
}

impl ASTVisitor {
    /// The substring being searched for.
    pub closed spec fn spec_needle(&self) -> Seq<char> {
        self.needle@
    }

    /// The loaded files.
    pub closed spec fn spec_files(&self) -> Seq<FileView> {
        files_views(self.files@)
    }

    /// The matches reported so far, in order.
    pub closed spec fn spec_results(&self) -> Seq<MatchView> {
        results_views(self.results@)
    }

    /// The paths of the files the search has entered: the entry file and
    /// every file switched to while following a call.
    pub closed spec fn spec_visited(&self) -> Set<Seq<char>> {
        self.visited@
    }

    /// The traversal state the spec-level search works on.
    pub closed spec fn st(&self) -> VState {
        VState {
            files: files_views(self.files@),
            scope: self.scope@,
            results: results_views(self.results@),
            line_num: self.line_num as int,
            guard: guard_views(self.guard@),
        }
    }

    /// The visitor's invariant: loaded paths are distinct, every file has at
    /// least one line, every reported match satisfies `m_ok`, and no line
    /// index is reported twice for one file.
    pub closed spec fn wf(&self) -> bool {
        &&& self.scope.wf()
        &&& forall|i: int|
            0 <= i < self.scope@.len() ==> self.visited@.contains(
                (#[trigger] self.scope@[i]).file_path,
            )
        &&& forall|i: int|
            0 <= i < self.spec_results().len() ==> self.visited@.contains(
                (#[trigger] self.spec_results()[i]).file,
            )
        &&& forall|i: int, j: int|
            0 <= i < j < self.spec_files().len() ==> (#[trigger] self.spec_files()[i]).path != (
            #[trigger] self.spec_files()[j]).path
        &&& forall|i: int|
            0 <= i < self.spec_files().len() ==> (#[trigger] self.spec_files()[i]).lines.len() >= 1
        &&& forall|i: int|
            0 <= i < self.spec_results().len() ==> m_ok(
                self.spec_files(),
                self.needle@,
                #[trigger] self.spec_results()[i],
            )
        &&& forall|i: int, j: int|
            0 <= i < j < self.spec_results().len() ==> !((#[trigger] self.spec_results()[i]).file
                == (#[trigger] self.spec_results()[j]).file && self.spec_results()[i].line
                == self.spec_results()[j].line)
    }

    pub fn new(needle: &str) -> (v: ASTVisitor)
        ensures
            v.wf(),
            v.spec_needle() == needle@,
            v.spec_files() == Seq::<FileView>::empty(),
            v.spec_results() == Seq::<MatchView>::empty(),
            v.spec_visited() == Set::<Seq<char>>::empty(),
    {
        let v = ASTVisitor {
            needle: needle.to_owned(),
            line_num: 0,
            files: Vec::new(),
            scope: ProgramScope::new(),
            results: Vec::new(),
            guard: Vec::new(),
            visited: Ghost(Set::empty()),
        };
        proof {
            assert(v.spec_files() =~= Seq::<FileView>::empty());
            assert(v.spec_results() =~= Seq::<MatchView>::empty());
        }
        v
    }

    /// Load one source file into the search: parse it once and keep its
    /// lines. A path already loaded is kept as it is.
    pub fn add_file(&mut self, path: &str, src: &str) -> (r: Result<(), ParseError>)
        requires
            old(self).wf(),
            src@.len() + 2 <= usize::MAX,
        ensures
            final(self).wf(),
            final(self).spec_needle() == old(self).spec_needle(),
            final(self).spec_results() == old(self).spec_results(),
            files_extend(old(self).spec_files(), final(self).spec_files()),
            match r {
                Ok(()) => file_idx(final(self).spec_files(), path@) >= 0 && (file_idx(
                    old(self).spec_files(),
                    path@,
                ) >= 0 ==> final(self).spec_files() == old(self).spec_files()) && (file_idx(
                    old(self).spec_files(),
                    path@,
                ) < 0 ==> (spec_parse_src(src@) matches Ok(v)
                    && final(self).spec_files() == old(self).spec_files().push(
                    FileView {
                        path: path@,
                        ast: v.0,
                        lines: split_seq(src@, '\n'),
                        recorded: Set::empty(),
                    },
                ))),
                Err(e) => final(self).spec_files() == old(self).spec_files() && (spec_parse_src(
                    src@,
                ) matches Err(ev) && ev == e@),
            },
    {
        match file_index(&self.files, path) {
            Some(_) => {
                proof {
                    assert(final(self).spec_files() =~= old(self).spec_files());
                }
                return Ok(());
            },
            None => {},
        }
        let mut parser = Parser::new(src);
        let ast = match parser.parse() {
            Ok(ast) => ast,
            Err(e) => {
                proof {
                    assert(final(self).spec_files() =~= old(self).spec_files());
                }
                return Err(e);
            },
        };
        let lines = split_str(src, '\n');
        let f = File { path: path.to_owned(), ast, lines, lines_recorded: Vec::new() };
        let ghost fv = f@;
        let ghost pre = self.spec_files();
        self.files.push(f);
        proof {
            assert(fv.recorded =~= Set::<int>::empty());
            assert(final(self).spec_files() =~= pre.push(fv));
            assert(files_extend(pre, final(self).spec_files()));
            lemma_file_idx_absent(pre, path@, 0);
            assert(final(self).spec_files()[pre.len() as int].path == path@);
            assert(file_idx_from(final(self).spec_files(), path@, 0) >= 0) by {
                lemma_file_idx_last(final(self).spec_files(), path@, 0);
            }
            assert(final(self).spec_results() =~= old(self).spec_results());
            assert forall|i: int| 0 <= i < final(self).spec_results().len() implies m_ok(
                final(self).spec_files(),
                self.needle@,
                #[trigger] final(self).spec_results()[i],
            ) by {
                let mm = final(self).spec_results()[i];
                lemma_m_ok_extend(pre, final(self).spec_files(), self.needle@, mm);
            }
        }
        Ok(())
    }

    /// The matches reported so far, in order.
    pub fn results(&self) -> (r: &Vec<Match>)
        ensures
            results_views(r@) == self.spec_results(),
    {
        &self.results
    }
}

/// A change that leaves the files, results and needle alone, and keeps the
/// scope well formed, keeps the whole visitor well formed.
proof fn lemma_frame(pre: ASTVisitor, post: ASTVisitor)
    requires
        pre.wf(),
        post.scope.wf(),
        post.files == pre.files,
        post.results == pre.results,
        post.needle == pre.needle,
        pre.visited@.subset_of(post.visited@),
        forall|i: int|
            0 <= i < post.scope@.len() ==> post.visited@.contains(
                (#[trigger] post.scope@[i]).file_path,
            ),
    ensures
        post.wf(),
        post.spec_files() == pre.spec_files(),
        post.spec_results() == pre.spec_results(),
        post.spec_needle() == pre.spec_needle(),
{
    assert(post.spec_files() =~= pre.spec_files());
    assert(post.spec_results() =~= pre.spec_results());
    assert forall|i: int| 0 <= i < post.spec_results().len() implies m_ok(
        post.spec_files(),
        post.needle@,
        #[trigger] post.spec_results()[i],
    ) by {
        assert(m_ok(pre.spec_files(), pre.needle@, pre.spec_results()[i]));
    };
    assert forall|i: int| 0 <= i < post.spec_results().len() implies post.visited@.contains(
        (#[trigger] post.spec_results()[i]).file,
    ) by {
        assert(pre.visited@.contains(pre.spec_results()[i].file));
    };
}

proof fn lemma_file_idx_last(files: Seq<FileView>, path: Seq<char>, k: int)
    requires
        0 <= k < files.len(),
        forall|j: int| k <= j < files.len() - 1 ==> (#[trigger] files[j]).path != path,
        files.last().path == path,
    ensures
        file_idx_from(files, path, k) == files.len() - 1,
    decreases files.len() - k,
{
    if k < files.len() - 1 {
        lemma_file_idx_last(files, path, k + 1);
    }
}

impl ASTVisitor {
    /// Report the lines in `[from ..= until]` of the current file that hold
    /// the needle and were not reported before; the window is clipped to the
    /// file's last line.
    fn grep(&mut self, from: usize, until: usize)
        requires
            old(self).wf(),
        ensures
            final(self).wf(),
            final(self).spec_needle() == old(self).spec_needle(),
            shapes(final(self).spec_files()) == shapes(old(self).spec_files()),
            final(self).st() == sp_grep(
                old(self).spec_needle(),
                old(self).st(),
                from as int,
                until as int,
            ),
    {
        let ghost st0 = self.st();
        let path = match self.scope.current() {
            Some(fs) => fs.get_file_path().clone(),
            None => {
                return ;
            },
        };
        let fi = match file_index(&self.files, path.as_str()) {
            Some(i) => i,
            None => {
                return ;
            },
        };
        let ghost files0 = self.spec_files();
        let ghost needle0 = self.needle@;
        let ghost visited0 = self.visited@;
        proof {
            assert(path@ == st0.scope.last().file_path);
        }
        proof {
            assert(self.visited@.contains(path@));
        }
        let nlines = self.files[fi].lines.len();
        proof {
            assert(self.spec_files()[fi as int].lines.len() >= 1);
        }
        let hi = if until >= nlines {
            nlines - 1
        } else {
            until
        };
        let mut line = from;
        #[verifier::loop_isolation(false)]
        while line <= hi
            invariant
                self.wf(),
                self.needle@ == needle0,
                self.visited@ == visited0,
                visited0.contains(path@),
                fi < self.files@.len(),
                files_extend(files0, self.spec_files()),
                self.spec_files().len() == files0.len(),
                file_idx(self.spec_files(), path@) == fi as int,
                shapes(self.spec_files()) == shapes(files0),
                self.spec_files()[fi as int].lines == files0[fi as int].lines,
                hi < self.spec_files()[fi as int].lines.len(),
                sp_grep_lines(needle0, st0, fi as int, path@, from as int, hi as int)
                    == sp_grep_lines(needle0, self.st(), fi as int, path@, line as int, hi as int),
            decreases hi + 1 - line,
        {
            let hit = !recorded_has(&self.files[fi].lines_recorded, line) && str_contains(
                self.files[fi].lines[line].as_str(),
                self.needle.as_str(),
            );
            if hit {
                let ghost prestate = *self;
                let ghost pre = self.spec_files();
                let ghost results0 = self.spec_results();
                let ghost fseq0 = self.files@;
                let ghost rec0 = self.files@[fi as int].lines_recorded@;
                let text = trim_str(self.files[fi].lines[line].as_str());
                let m = Match { file: path.clone(), line, text };
                let fref = &mut self.files[fi];
                fref.lines_recorded.push(line);
                proof {
                    lemma_rec_push(rec0, line);
                    assert(self.files@[fi as int].lines_recorded@ == rec0.push(line));
                    assert(self.files@[fi as int]@.recorded == pre[fi as int].recorded.insert(
                        line as int,
                    ));
                    assert(self.files@[fi as int]@.path == pre[fi as int].path);
                    assert(self.files@[fi as int]@.ast == pre[fi as int].ast);
                    assert(self.files@[fi as int]@.lines == pre[fi as int].lines);
                    assert forall|i: int| 0 <= i < pre.len() implies (#[trigger] self.spec_files()[i]).path
                        == pre[i].path && self.spec_files()[i].ast == pre[i].ast
                        && self.spec_files()[i].lines == pre[i].lines && pre[i].recorded.subset_of(
                        self.spec_files()[i].recorded,
                    ) by {
                        if i != fi as int {
                            assert(self.files@[i] == fseq0[i]);
                        }
                    };
                    assert(files_extend(pre, self.spec_files()));
                    assert(shapes(self.spec_files()) =~= shapes(pre));
                    lemma_file_idx_extend(pre, self.spec_files(), path@, 0);
                    lemma_files_extend_trans(files0, pre, self.spec_files());
                }
                let ghost mid = *self;
                self.results.push(m);
                proof {
                    assert(self.spec_files() =~= mid.spec_files());
                    let f = prestate.st().files[fi as int];
                    assert(self.st() =~= (VState {
                        files: prestate.st().files.update(
                            fi as int,
                            FileView {
                                path: f.path,
                                ast: f.ast,
                                lines: f.lines,
                                recorded: f.recorded.insert(line as int),
                            },
                        ),
                        results: prestate.st().results.push(
                            MatchView {
                                file: path@,
                                line: line as int,
                                text: trim_of(f.lines[line as int]),
                            },
                        ),
                        ..prestate.st()
                    }));
                }
                proof {
                    let files2 = self.spec_files();
                    let mv = m@;
                    assert(self.spec_results() =~= results0.push(mv));
                    assert(m_ok(files2, needle0, mv));
                    assert forall|i: int| 0 <= i < results0.len() implies m_ok(
                        files2,
                        needle0,
                        #[trigger] results0[i],
                    ) by {
                        lemma_m_ok_extend(pre, files2, needle0, results0[i]);
                    }
                    assert forall|i: int| 0 <= i < results0.len() implies !(results0[i].file
                        == mv.file && (#[trigger] results0[i]).line == mv.line) by {
                        if results0[i].file == mv.file && results0[i].line == mv.line {
                            assert(m_ok(pre, needle0, results0[i]));
                            assert(pre[fi as int].recorded.contains(line as int));
                        }
                    }
                }
            }
            line += 1;
        }
    }

    /// Register the exported functions of a required file, under their local
    /// aliases, in the current scope.
    fn index_export(&mut self, required_file: &str, lhs: &ASTNode)
        requires
            old(self).wf(),
        ensures
            final(self).wf(),
            final(self).spec_needle() == old(self).spec_needle(),
            shapes(final(self).spec_files()) == shapes(old(self).spec_files()),
            final(self).st() == sp_index_export(old(self).st(), required_file@, lhs@),
    {
        let ghost st0 = self.st();
        let fi = match file_index(&self.files, required_file) {
            Some(i) => i,
            None => {
                proof {
                    lemma_view_node_variant(*lhs);
                }
                return ;
            },
        };
        proof {
            lemma_view_node_variant(*lhs);
        }
        match lhs {
            ASTNode::ObjectPattern(op) => {
                let ghost props = lhs@->ObjectPattern_0.properties;
                let mut k: usize = 0;
                #[verifier::loop_isolation(false)]
                while k < op.properties.len()
                    invariant
                        self.wf(),
                        self.needle@ == old(self).needle@,
                        self.files == old(self).files,
                        self.results == old(self).results,
                        shapes(self.spec_files()) == shapes(old(self).spec_files()),
                        fi < self.files@.len(),
                        props.len() == op.properties@.len(),
                        sp_index_props(st0, fi as int, props, 0) == sp_index_props(
                            self.st(),
                            fi as int,
                            props,
                            k as int,
                        ),
                    decreases op.properties@.len() - k,
                {
                    let found = self.files[fi].ast.find_function(op.properties[k].key.as_str());
                    let sym = match found {
                        Some(func) => Some(
                            Symbol {
                                node: clone_node(func),
                                file_path: self.files[fi].path.clone(),
                            },
                        ),
                        None => None,
                    };
                    match sym {
                        Some(sym) => {
                            let ghost symv = sym@;
                            let ghost pre = *self;
                            self.scope.insert_symbol(op.properties[k].value.as_str(), sym);
                            proof {
                                lemma_frame(pre, *self);
                                assert(self.st() =~= (VState {
                                    scope: sp_scope_insert(pre.st().scope, props[k as int].value, symv),
                                    ..pre.st()
                                }));
                            }
                        },
                        None => {},
                    }
                    k += 1;
                }
            },
            ASTNode::Identifier(id) => {
                let found = self.files[fi].ast.find_function(id.name.as_str());
                let sym = match found {
                    Some(func) => Some(
                        Symbol { node: clone_node(func), file_path: self.files[fi].path.clone() },
                    ),
                    None => None,
                };
                let ghost props = seq![PropView { key: id.name@, value: id.name@ }];
                match sym {
                    Some(sym) => {
                        let ghost symv = sym@;
                        let ghost pre = *self;
                        self.scope.insert_symbol(id.name.as_str(), sym);
                        proof {
                            lemma_frame(pre, *self);
                            assert(self.st() =~= (VState {
                                scope: sp_scope_insert(pre.st().scope, props[0].value, symv),
                                ..pre.st()
                            }));
                        }
                    },
                    None => {},
                }
                proof {
                    assert(sp_index_props(st0, fi as int, props, 0) == sp_index_props(
                        self.st(),
                        fi as int,
                        props,
                        1,
                    ));
                }
            },
            _ => {},
        }
    }

    /// Register the statements of a block: required files' exports under
    /// their aliases, and function statements under their own names.
    fn index_block(&mut self, lines: &Vec<ASTNode>)
        requires
            old(self).wf(),
        ensures
            final(self).wf(),
            final(self).spec_needle() == old(self).spec_needle(),
            shapes(final(self).spec_files()) == shapes(old(self).spec_files()),
            final(self).st() == sp_index_block(old(self).st(), views_of(lines@)),
    {
        let ghost st0 = self.st();
        let ghost lv = views_of(lines@);
        let current_file = match self.scope.current() {
            Some(fs) => fs.get_file_path().clone(),
            None => {
                return ;
            },
        };
        proof {
            assert(current_file@ == st0.scope.last().file_path);
        }
        let mut k: usize = 0;
        #[verifier::loop_isolation(false)]
        while k < lines.len()
            invariant
                self.wf(),
                self.needle@ == old(self).needle@,
                shapes(self.spec_files()) == shapes(old(self).spec_files()),
                sp_index_stmts(st0, current_file@, lv, 0) == sp_index_stmts(
                    self.st(),
                    current_file@,
                    lv,
                    k as int,
                ),
            decreases lines@.len() - k,
        {
            let node = &lines[k];
            match node.try_export_extract() {
                Some((required_file, lhs)) => {
                    match join_path(current_file.as_str(), required_file.as_str()) {
                        Some(full_path) => {
                            self.index_export(full_path.as_str(), lhs);
                        },
                        None => {},
                    }
                },
                None => {},
            }
            match node {
                ASTNode::FunctionStatement(fs) => {
                    let sym = Symbol { node: clone_node(node), file_path: current_file.clone() };
                    let ghost symv = sym@;
                    let ghost pre = *self;
                    self.scope.insert_symbol(fs.name.as_str(), sym);
                    proof {
                        lemma_frame(pre, *self);
                        assert(self.st() =~= (VState {
                            scope: sp_scope_insert(pre.st().scope, lv[k as int]->FunctionStatement_name, symv),
                            ..pre.st()
                        }));
                    }
                },
                _ => {
                    proof {
                        lemma_view_node_variant(lines@[k as int]);
                    }
                },
            }
            k += 1;
        }
    }

    /// Whether a `(file, function start)` frame is on the visiting stack.
    fn guard_contains(&self, path: &str, start: usize) -> (r: bool)
        ensures
            r == sp_guard_has(guard_views(self.guard@), path@, start as int),
    {
        let ghost g = guard_views(self.guard@);
        let mut k: usize = 0;
        #[verifier::loop_isolation(false)]
        while k < self.guard.len()
            invariant
                k <= self.guard@.len(),
                forall|j: int| 0 <= j < k ==> g[j] != (path@, start as int),
            decreases self.guard@.len() - k,
        {
            if self.guard[k].1 == start && str_eq(self.guard[k].0.as_str(), path) {
                proof {
                    assert(g[k as int] == (path@, start as int));
                }
                return true;
            }
            k += 1;
        }
        false
    }

    /// Enter a file during a cross-file call: open its scope and register its
    /// top-level statements. Reports whether the file is loaded.
    fn push_file_scope(&mut self, file_path: &str) -> (r: bool)
        requires
            old(self).wf(),
        ensures
            final(self).wf(),
            final(self).spec_needle() == old(self).spec_needle(),
            shapes(final(self).spec_files()) == shapes(old(self).spec_files()),
            (final(self).st(), r) == sp_push_file_scope(old(self).st(), file_path@),
    {
        let ghost st0 = self.st();
        let ghost pre = *self;
        self.visited = Ghost(self.visited@.insert(file_path@));
        self.scope.push_file(file_path);
        proof {
            lemma_frame(pre, *self);
            assert(self.st() =~= (VState {
                scope: sp_scope_push_file(st0.scope, file_path@),
                ..st0
            }));
        }
        let fi = match file_index(&self.files, file_path) {
            Some(i) => i,
            None => {
                return false;
            },
        };
        let ast = clone_node(&self.files[fi].ast);
        proof {
            lemma_view_node_variant(ast);
        }
        match &ast {
            ASTNode::Program(p) => {
                proof {
                    assert(self.st().files[fi as int].ast->Program_lines == views_of(p.lines@));
                }
                self.index_block(&p.lines);
                true
            },
            _ => false,
        }
    }

    /// Follow a call whose base is a bare identifier that resolves to a
    /// function: visit the callee's body, switching files when it is defined
    /// elsewhere. Frames already on the visiting stack are not re-entered.
    fn visit_call_expression(&mut self, ce: &CallExpression, fuel: usize)
        requires
            old(self).wf(),
        ensures
            final(self).wf(),
            final(self).spec_needle() == old(self).spec_needle(),
            shapes(final(self).spec_files()) == shapes(old(self).spec_files()),
            final(self).st() == sp_visit_call(
                old(self).spec_needle(),
                old(self).st(),
                view_node(*ce.base),
                ce.start as int,
                fuel as nat,
            ),
        decreases fuel, *ce,
    {
        let ghost st0 = self.st();
        let ghost needle0 = self.spec_needle();
        let ident = match &*ce.base {
            ASTNode::Identifier(id) => id,
            _ => {
                proof {
                    lemma_view_node_variant(*ce.base);
                }
                return ;
            },
        };
        let symbol = match self.scope.find_symbol(ident.name.as_str()) {
            Some(s) => clone_symbol(s),
            None => {
                return ;
            },
        };
        let ghost symv = symbol@;
        proof {
            assert(sp_scope_find(st0.scope, ident.name@) == Some(symv));
        }
        if fuel == 0 {
            return ;
        }
        let fstart = symbol.node.get_start();
        if self.guard_contains(symbol.file_path.as_str(), fstart) {
            return ;
        }
        let differs = match self.scope.current() {
            Some(fs) => !str_eq(fs.get_file_path().as_str(), symbol.file_path.as_str()),
            None => {
                return ;
            },
        };
        if differs {
            if !self.push_file_scope(symbol.file_path.as_str()) {
                return ;
            }
        }
        let ghost sa = self.st();
        let ghost pre1 = *self;
        self.guard.push((symbol.file_path.clone(), fstart));
        self.line_num = fstart;
        proof {
            lemma_frame(pre1, *self);
            assert(self.st() =~= (VState {
                guard: sa.guard.push((symv.file_path, start_of(symv.node))),
                line_num: start_of(symv.node),
                ..sa
            }));
        }
        let ghost sb = self.st();
        self.visit_node(&symbol.node, fuel - 1);
        proof {
            lemma_visit_node_guard(needle0, sb, symv.node, (fuel - 1) as nat);
            assert(self.st().guard == sb.guard);
            assert(self.guard@.len() > 0);
        }
        let ghost pre2 = *self;
        let _ = self.guard.pop();
        self.line_num = ce.start;
        proof {
            lemma_frame(pre2, *self);
            assert(guard_views(self.guard@) =~= guard_views(pre2.guard@).drop_last());
            assert(self.st() =~= (VState {
                guard: pre2.st().guard.drop_last(),
                line_num: ce.start as int,
                ..pre2.st()
            }));
        }
    }

    /// Register a statement list, then walk it; function statements are
    /// skipped here, to be entered only through calls.
    fn visit_block(&mut self, lines: &Vec<ASTNode>, fuel: usize)
        requires
            old(self).wf(),
        ensures
            final(self).wf(),
            final(self).spec_needle() == old(self).spec_needle(),
            shapes(final(self).spec_files()) == shapes(old(self).spec_files()),
            final(self).st() == sp_visit_block(
                old(self).spec_needle(),
                old(self).st(),
                views_of(lines@),
                fuel as nat,
            ),
        decreases fuel, *lines,
    {
        let ghost needle0 = self.spec_needle();
        let ghost lv = views_of(lines@);
        self.index_block(lines);
        let ghost st1 = self.st();
        let mut k: usize = 0;
        #[verifier::loop_isolation(false)]
        while k < lines.len()
            invariant
                self.wf(),
                self.needle@ == old(self).needle@,
                shapes(self.spec_files()) == shapes(old(self).spec_files()),
                sp_visit_children(needle0, st1, lv, 0, fuel as nat) == sp_visit_children(
                    needle0,
                    self.st(),
                    lv,
                    k as int,
                    fuel as nat,
                ),
            decreases lines@.len() - k,
        {
            proof {
                assert(decreases_to!(*lines => lines@[k as int]));
                lemma_view_node_variant(lines@[k as int]);
            }
            match &lines[k] {
                ASTNode::FunctionStatement(fs) => {
                    if fs.start > 0 {
                        let from = self.line_num;
                        self.grep(from, fs.start - 1);
                    }
                    let ghost pre = *self;
                    self.line_num = if fs.end < usize::MAX {
                        fs.end + 1
                    } else {
                        fs.end
                    };
                    proof {
                        lemma_frame(pre, *self);
                        assert(self.st() =~= (VState { line_num: self.line_num as int, ..pre.st() }));
                    }
                },
                _ => {
                    self.visit_node(&lines[k], fuel);
                },
            }
            k += 1;
        }
    }

    fn visit_prog(&mut self, prog: &crate::ast::Program, fuel: usize)
        requires
            old(self).wf(),
        ensures
            final(self).wf(),
            final(self).spec_needle() == old(self).spec_needle(),
            shapes(final(self).spec_files()) == shapes(old(self).spec_files()),
            final(self).st() == sp_visit_block(
                old(self).spec_needle(),
                old(self).st(),
                views_of(prog.lines@),
                fuel as nat,
            ),
        decreases fuel, *prog,
    {
        self.visit_block(&prog.lines, fuel);
    }

    fn visit_function(&mut self, fs: &FunctionStatement, fuel: usize)
        requires
            old(self).wf(),
        ensures
            final(self).wf(),
            final(self).spec_needle() == old(self).spec_needle(),
            shapes(final(self).spec_files()) == shapes(old(self).spec_files()),
            final(self).st() == sp_visit_node(
                old(self).spec_needle(),
                old(self).st(),
                view_node(*fs.body),
                fuel as nat,
            ),
        decreases fuel, *fs,
    {
        self.visit_node(&fs.body, fuel);
    }

    fn visit_block_statement(&mut self, bs: &crate::ast::BlockStatement, fuel: usize)
        requires
            old(self).wf(),
        ensures
            final(self).wf(),
            final(self).spec_needle() == old(self).spec_needle(),
            shapes(final(self).spec_files()) == shapes(old(self).spec_files()),
            final(self).st() == sp_visit_block_statement(
                old(self).spec_needle(),
                old(self).st(),
                views_of(bs.body@),
                fuel as nat,
            ),
        decreases fuel, *bs,
    {
        let ghost pre = *self;
        self.scope.push_block();
        proof {
            lemma_frame(pre, *self);
            assert(self.st() =~= (VState {
                scope: sp_scope_push_block(pre.st().scope),
                ..pre.st()
            }));
        }
        self.visit_block(&bs.body, fuel);
    }

    /// Visit one node: report the lines up to it, walk into it, report the
    /// lines to its end; a block closes its scope afterwards.
    fn visit_node(&mut self, node: &ASTNode, fuel: usize)
        requires
            old(self).wf(),
        ensures
            final(self).wf(),
            final(self).spec_needle() == old(self).spec_needle(),
            shapes(final(self).spec_files()) == shapes(old(self).spec_files()),
            final(self).st() == sp_visit_node(
                old(self).spec_needle(),
                old(self).st(),
                node@,
                fuel as nat,
            ),
        decreases fuel, *node,
    {
        proof {
            lemma_view_node_variant(*node);
        }
        let start = node.get_start();
        let from = self.line_num;
        self.grep(from, start);
        let ghost pre1 = *self;
        self.line_num = start;
        proof {
            lemma_frame(pre1, *self);
            assert(self.st() =~= (VState { line_num: start_of(node@), ..pre1.st() }));
        }
        match node {
            ASTNode::BlockStatement(bs) => self.visit_block_statement(bs, fuel),
            ASTNode::CallExpression(ce) => self.visit_call_expression(ce, fuel),
            ASTNode::FunctionStatement(fs) => self.visit_function(fs, fuel),
            ASTNode::Program(p) => self.visit_prog(p, fuel),
            _ => {},
        }
        let end = node.get_end();
        let from2 = self.line_num;
        self.grep(from2, end);
        let ghost pre2 = *self;
        self.line_num = end;
        proof {
            lemma_frame(pre2, *self);
            assert(self.st() =~= (VState { line_num: end_of(node@), ..pre2.st() }));
        }
        if matches!(node, ASTNode::BlockStatement(_)) {
            let ghost pre3 = *self;
            self.scope.pop();
            proof {
                lemma_frame(pre3, *self);
                assert(self.st() =~= (VState {
                    scope: sp_scope_pop(pre3.st().scope),
                    ..pre3.st()
                }));
            }
        }
    }

    fn init_visit(&mut self, node: &ASTNode)
        requires
            old(self).wf(),
        ensures
            final(self).wf(),
            final(self).spec_needle() == old(self).spec_needle(),
            shapes(final(self).spec_files()) == shapes(old(self).spec_files()),
            final(self).st() == sp_init_visit(old(self).spec_needle(), old(self).st(), node@),
    {
        let ghost pre = *self;
        self.line_num = node.get_start();
        proof {
            lemma_frame(pre, *self);
            assert(self.st() =~= (VState { line_num: start_of(node@), ..pre.st() }));
        }
        self.visit_node(node, usize::MAX);
    }

    /// Open the scope of the entry file and hand back a copy of its syntax
    /// tree; a path that was never loaded is an error.
    pub fn init_search(&mut self, path: &str) -> (r: Result<ASTNode, String>)
        requires
            old(self).wf(),
        ensures
            final(self).wf(),
            final(self).spec_needle() == old(self).spec_needle(),
            shapes(final(self).spec_files()) == shapes(old(self).spec_files()),
            match r {
                Ok(ast) => file_idx(final(self).spec_files(), path@) >= 0
                    && ast@ == final(self).spec_files()[file_idx(final(self).spec_files(), path@)].ast
                    && final(self).st() == (VState {
                    scope: sp_scope_push_file(old(self).st().scope, path@),
                    ..old(self).st()
                }) && final(self).spec_visited() == old(self).spec_visited().insert(path@),
                Err(_) => file_idx(final(self).spec_files(), path@) < 0 && final(self).st() == old(
                    self,
                ).st() && final(self).spec_visited() == old(self).spec_visited(),
            },
    {
        let fi = match file_index(&self.files, path) {
            Some(i) => i,
            None => {
                let mut msg = "file not found: ".to_owned();
                msg.append(path);
                return Err(msg);
            },
        };
        let ghost pre = *self;
        self.visited = Ghost(self.visited@.insert(path@));
        self.scope.push_file(path);
        proof {
            lemma_frame(pre, *self);
            assert(self.st() =~= (VState {
                scope: sp_scope_push_file(pre.st().scope, path@),
                ..pre.st()
            }));
        }
        Ok(clone_node(&self.files[fi].ast))
    }

    /// Search the loaded files: report every line that contains the needle
    /// and is reachable from `func_start` in the entry file (or from the
    /// file's top level when no start is named). The outcome and the whole
    /// final state — the reported matches above all — equal what the
    /// spec-level traversal `sp_search` yields on the loaded files, and every
    /// reported line holds the needle, lies in a visited file, and no line
    /// index is reported twice for one file.
    pub fn search(&mut self, path: &str, func_start: Option<&str>) -> (r: Result<(), String>)
        requires
            old(self).wf(),
        ensures
            final(self).wf(),
            final(self).spec_needle() == old(self).spec_needle(),
            shapes(final(self).spec_files()) == shapes(old(self).spec_files()),
            ({
                let fs = match func_start {
                    Some(n) => Some(n@),
                    None => None::<Seq<char>>,
                };
                let (ok, s2) = sp_search(old(self).spec_needle(), old(self).st(), path@, fs);
                &&& (r is Ok) == ok
                &&& final(self).st() == s2
            }),
            r is Err ==> final(self).spec_results() == old(self).spec_results(),
            ({
                let files = old(self).spec_files();
                let fi = file_idx(files, path@);
                match r {
                    Ok(()) => fi >= 0 && (func_start matches Some(n)
                        ==> spec_find_function(files[fi].ast, n@) is Some),
                    Err(_) => fi < 0 || (func_start matches Some(n)
                        && spec_find_function(files[fi].ast, n@) is None),
                }
            }),
            forall|i: int|
                0 <= i < final(self).spec_results().len() ==> final(self).spec_visited().contains(
                    (#[trigger] final(self).spec_results()[i]).file,
                ),
            forall|i: int|
                0 <= i < final(self).spec_results().len() ==> m_ok(
                    final(self).spec_files(),
                    final(self).spec_needle(),
                    #[trigger] final(self).spec_results()[i],
                ),
            forall|i: int, j: int|
                0 <= i < j < final(self).spec_results().len()
                    ==> !((#[trigger] final(self).spec_results()[i]).file
                    == (#[trigger] final(self).spec_results()[j]).file
                    && final(self).spec_results()[i].line == final(self).spec_results()[j].line),
    {
        let ghost st0 = old(self).st();
        let ghost needle0 = old(self).spec_needle();
        let ghost files0 = old(self).spec_files();
        let file_ast = match self.init_search(path) {
            Ok(a) => a,
            Err(e) => {
                proof {
                    self.lemma_wf_laws();
                    lemma_shape_idx(self.spec_files(), files0, path@, 0);
                }
                return Err(e);
            },
        };
        let ghost s1 = self.st();
        proof {
            lemma_shape_idx(self.spec_files(), files0, path@, 0);
            lemma_file_idx_range(files0, path@, 0);
            let fi = file_idx(files0, path@);
            assert(shapes(self.spec_files()).len() == self.spec_files().len());
            assert(shapes(files0).len() == files0.len());
            assert(shapes(self.spec_files())[fi] == shapes(files0)[fi]);
            assert(file_ast@ == files0[fi].ast);
        }
        match func_start {
            Some(func_start_name) => {
                match &file_ast {
                    ASTNode::Program(prog) => {
                        proof {
                            assert(views_of(prog.lines@) == file_ast@->Program_lines);
                        }
                        self.index_block(&prog.lines)
                    },
                    _ => {
                        proof {
                            self.lemma_wf_laws();
                            lemma_view_node_variant(file_ast);
                        }
                        return Err("program not found".to_owned());
                    },
                }
                let ghost s2 = self.st();
                match file_ast.find_function(func_start_name) {
                    Some(start) => {
                        let n = clone_node(start);
                        let ghost pre = *self;
                        self.guard.push((path.to_owned(), n.get_start()));
                        proof {
                            lemma_frame(pre, *self);
                            assert(self.st() =~= (VState {
                                guard: s2.guard.push((path@, start_of(n@))),
                                ..s2
                            }));
                        }
                        let ghost s3 = self.st();
                        self.init_visit(&n);
                        proof {
                            lemma_visit_node_guard(
                                needle0,
                                VState { line_num: start_of(n@), ..s3 },
                                n@,
                                usize::MAX as nat,
                            );
                            assert(self.st().guard == s3.guard);
                            assert(self.guard@.len() > 0);
                        }
                        let ghost pre2 = *self;
                        let _ = self.guard.pop();
                        proof {
                            lemma_frame(pre2, *self);
                            assert(guard_views(self.guard@) =~= guard_views(pre2.guard@).drop_last());
                            assert(self.st() =~= (VState {
                                guard: pre2.st().guard.drop_last(),
                                ..pre2.st()
                            }));
                        }
                    },
                    None => {
                        let mut msg = "function start not found: ".to_owned();
                        msg.append(func_start_name);
                        proof {
                            self.lemma_wf_laws();
                            lemma_index_block_guard(s1, file_ast@->Program_lines);
                        }
                        return Err(msg);
                    },
                }
            },
            None => {
                self.init_visit(&file_ast);
            },
        }
        proof {
            self.lemma_wf_laws();
        }
        Ok(())
    }

    /// The laws the visitor's invariant carries: every reported match is a
    /// real, needle-holding, trimmed line of a loaded file, and no line index
    /// is reported twice for one file.
    pub proof fn lemma_wf_laws(&self)
        requires
            self.wf(),
        ensures
            forall|i: int|
                0 <= i < self.spec_results().len() ==> m_ok(
                    self.spec_files(),
                    self.spec_needle(),
                    #[trigger] self.spec_results()[i],
                ),
            forall|i: int|
                0 <= i < self.spec_results().len() ==> self.spec_visited().contains(
                    (#[trigger] self.spec_results()[i]).file,
                ),
            forall|i: int, j: int|
                0 <= i < j < self.spec_results().len() ==> !((#[trigger] self.spec_results()[i]).file
                    == (#[trigger] self.spec_results()[j]).file && self.spec_results()[i].line
                    == self.spec_results()[j].line),
    {
    }
}

/// Render one match as it is printed: the 1-based line number, a colon and a
/// space, then the trimmed line.
pub fn render_match(m: &Match) -> (r: String)
    requires
        m.line < usize::MAX,
    ensures
        r@ == dec_digits(m.line + 1) + (": "@) + m.text@,
{
    let mut out = usize_to_string(m.line + 1);
    out.append(": ");
    out.append(m.text.as_str());
    out
}

} // verus!
