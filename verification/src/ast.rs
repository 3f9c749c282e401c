use vstd::prelude::*;

use crate::utils::str_eq;

verus! {

// ---- spec-level images of syntax tree nodes ----

/// Spec-level image of one object-pattern property.
#[verifier::ext_equal]
pub struct PropView {
    pub key: Seq<char>,
    pub value: Seq<char>,
}

/// Spec-level image of an object pattern.
#[verifier::ext_equal]
pub struct OpView {
    pub properties: Seq<PropView>,
    pub start: int,
    pub end: int,
}

/// Spec-level image of a syntax tree node.
#[verifier::ext_equal]
pub enum NodeView {
    Program { lines: Seq<NodeView>, start: int, end: int },
    FunctionStatement { name: Seq<char>, body: Box<NodeView>, start: int, end: int },
    BlockStatement { body: Seq<NodeView>, start: int, end: int },
    CallExpression { base: Box<NodeView>, param: Option<Seq<char>>, start: int, end: int },
    VariableExpression { lhs: Box<NodeView>, rhs: Box<NodeView>, start: int, end: int },
    ObjectPattern(OpView),
    ExportStatement(OpView),
    Identifier { name: Seq<char>, start: int, end: int },
    MemberExpression { base: Box<NodeView>, property: Seq<char>, start: int, end: int },
}

/// The line on which a node starts.
pub open spec fn start_of(nv: NodeView) -> int {
    match nv {
        NodeView::Program { start, .. } => start,
        NodeView::FunctionStatement { start, .. } => start,
        NodeView::BlockStatement { start, .. } => start,
        NodeView::CallExpression { start, .. } => start,
        NodeView::VariableExpression { start, .. } => start,
        NodeView::ObjectPattern(op) => op.start,
        NodeView::ExportStatement(op) => op.start,
        NodeView::Identifier { start, .. } => start,
        NodeView::MemberExpression { start, .. } => start,
    }
}

/// The line on which a node ends.
pub open spec fn end_of(nv: NodeView) -> int {
    match nv {
        NodeView::Program { end, .. } => end,
        NodeView::FunctionStatement { end, .. } => end,
        NodeView::BlockStatement { end, .. } => end,
        NodeView::CallExpression { end, .. } => end,
        NodeView::VariableExpression { end, .. } => end,
        NodeView::ObjectPattern(op) => op.end,
        NodeView::ExportStatement(op) => op.end,
        NodeView::Identifier { end, .. } => end,
        NodeView::MemberExpression { end, .. } => end,
    }
}

// ---- the executable syntax tree ----

/// A whole source file: its top-level statements.
pub struct Program {
    pub lines: Vec<ASTNode>,
    pub start: usize,
    pub end: usize,
}

/// A named function with a block body.
pub struct FunctionStatement {
    pub name: String,
    pub body: Box<ASTNode>,
    pub start: usize,
    pub end: usize,
}

/// A `lhs = rhs` binding whose right side is an identifier, call or member chain.
pub struct VariableExpression {
    pub lhs: Box<ASTNode>,
    pub rhs: Box<ASTNode>,
    pub start: usize,
    pub end: usize,
}

/// One `key` or `key: alias` entry of an object pattern.
pub struct Property {
    pub key: String,
    pub value: String,
}

/// A `{ key [: alias] [, ...] }` pattern.
pub struct ObjectPattern {
    pub properties: Vec<Property>,
    pub start: usize,
    pub end: usize,
}

/// A `{ ... }` statement list.
pub struct BlockStatement {
    pub body: Vec<ASTNode>,
    pub start: usize,
    pub end: usize,
}

/// A call; only a first string argument is retained, for `require("...")`.
pub struct CallExpression {
    pub base: Box<ASTNode>,
    pub param: Option<String>,
    pub start: usize,
    pub end: usize,
}

/// A bare name.
pub struct Identifier {
    pub name: String,
    pub start: usize,
    pub end: usize,
}

/// A `base.property` chain link.
pub struct MemberExpression {
    pub base: Box<ASTNode>,
    pub property: String,
    pub start: usize,
    pub end: usize,
}

/// One node of the partial syntax tree.
pub enum ASTNode {
    Program(Program),
    FunctionStatement(FunctionStatement),
    BlockStatement(BlockStatement),
    CallExpression(CallExpression),
    VariableExpression(VariableExpression),
    ObjectPattern(ObjectPattern),
    ExportStatement(ObjectPattern),
    Identifier(Identifier),
    MemberExpression(MemberExpression),
}

/// The spec-level images of a sequence of nodes.
pub open spec fn views_of(s: Seq<ASTNode>) -> Seq<NodeView>
    decreases s,
{
    Seq::new(
        s.len(),
        |i: int|
            if 0 <= i < s.len() {
                view_node(s[i])
            } else {
                arbitrary()
            },
    )
}

/// The spec-level images of a sequence of properties.
pub open spec fn prop_views_of(s: Seq<Property>) -> Seq<PropView> {
    Seq::new(s.len(), |i: int| PropView { key: s[i].key@, value: s[i].value@ })
}

/// The spec-level image of an object pattern.
pub open spec fn view_op(op: ObjectPattern) -> OpView {
    OpView { properties: prop_views_of(op.properties@), start: op.start as int, end: op.end as int }
}

/// The spec-level image of a node.
pub open spec fn view_node(n: ASTNode) -> NodeView
    decreases n,
{
    match n {
        ASTNode::Program(p) => NodeView::Program {
            lines: views_of(p.lines@),
            start: p.start as int,
            end: p.end as int,
        },
        ASTNode::FunctionStatement(f) => NodeView::FunctionStatement {
            name: f.name@,
            body: Box::new(view_node(*f.body)),
            start: f.start as int,
            end: f.end as int,
        },
        ASTNode::BlockStatement(b) => NodeView::BlockStatement {
            body: views_of(b.body@),
            start: b.start as int,
            end: b.end as int,
        },
        ASTNode::CallExpression(c) => NodeView::CallExpression {
            base: Box::new(view_node(*c.base)),
            param: match c.param {
                Some(p) => Some(p@),
                None => None,
            },
            start: c.start as int,
            end: c.end as int,
        },
        ASTNode::VariableExpression(v) => NodeView::VariableExpression {
            lhs: Box::new(view_node(*v.lhs)),
            rhs: Box::new(view_node(*v.rhs)),
            start: v.start as int,
            end: v.end as int,
        },
        ASTNode::ObjectPattern(op) => NodeView::ObjectPattern(view_op(op)),
        ASTNode::ExportStatement(op) => NodeView::ExportStatement(view_op(op)),
        ASTNode::Identifier(id) => NodeView::Identifier {
            name: id.name@,
            start: id.start as int,
            end: id.end as int,
        },
        ASTNode::MemberExpression(m) => NodeView::MemberExpression {
            base: Box::new(view_node(*m.base)),
            property: m.property@,
            start: m.start as int,
            end: m.end as int,
        },
    }
}

impl View for ASTNode {
    type V = NodeView;

    open spec fn view(&self) -> NodeView {
        view_node(*self)
    }
}

impl View for ObjectPattern {
    type V = OpView;

    open spec fn view(&self) -> OpView {
        view_op(*self)
    }
}

impl View for Property {
    type V = PropView;

    open spec fn view(&self) -> PropView {
        PropView { key: self.key@, value: self.value@ }
    }
}

impl View for Identifier {
    type V = NodeView;

    open spec fn view(&self) -> NodeView {
        NodeView::Identifier { name: self.name@, start: self.start as int, end: self.end as int }
    }
}

impl View for VariableExpression {
    type V = NodeView;

    open spec fn view(&self) -> NodeView {
        view_node(ASTNode::VariableExpression(*self))
    }
}

// ---- structural copies ----

/// A structural copy of a property list, with the same spec-level image.
pub fn clone_props(v: &Vec<Property>) -> (r: Vec<Property>)
    ensures
        prop_views_of(r@) == prop_views_of(v@),
{
    let mut out: Vec<Property> = Vec::new();
    let mut i: usize = 0;
    while i < v.len()
        invariant
            i <= v.len(),
            out@.len() == i,
            forall|k: int| 0 <= k < i ==> out@[k]@ == v@[k]@,
        decreases v.len() - i,
    {
        let p = &v[i];
        out.push(Property { key: p.key.clone(), value: p.value.clone() });
        i += 1;
    }
    proof {
        assert(prop_views_of(out@) =~= prop_views_of(v@));
    }
    out
}

/// A structural copy of an object pattern, with the same spec-level image.
pub fn clone_object_pattern(op: &ObjectPattern) -> (r: ObjectPattern)
    ensures
        r@ == op@,
{
    ObjectPattern { properties: clone_props(&op.properties), start: op.start, end: op.end }
}

/// A structural copy of a node, with the same spec-level image.
pub fn clone_node(n: &ASTNode) -> (r: ASTNode)
    ensures
        r@ == n@,
    decreases *n,
{
    match n {
        ASTNode::Program(p) => {
            let lines = clone_nodes(&p.lines);
            let r = ASTNode::Program(Program { lines, start: p.start, end: p.end });
            proof {
                assert(r@ =~= n@);
            }
            r
        },
        ASTNode::FunctionStatement(f) => {
            let body = Box::new(clone_node(&f.body));
            let r = ASTNode::FunctionStatement(
                FunctionStatement { name: f.name.clone(), body, start: f.start, end: f.end },
            );
            proof {
                assert(r@ =~= n@);
            }
            r
        },
        ASTNode::BlockStatement(b) => {
            let body = clone_nodes(&b.body);
            let r = ASTNode::BlockStatement(BlockStatement { body, start: b.start, end: b.end });
            proof {
                assert(r@ =~= n@);
            }
            r
        },
        ASTNode::CallExpression(c) => {
            let base = Box::new(clone_node(&c.base));
            let param = match &c.param {
                Some(p) => Some(p.clone()),
                None => None,
            };
            let r = ASTNode::CallExpression(
                CallExpression { base, param, start: c.start, end: c.end },
            );
            proof {
                assert(r@ =~= n@);
            }
            r
        },
        ASTNode::VariableExpression(v) => {
            let lhs = Box::new(clone_node(&v.lhs));
            let rhs = Box::new(clone_node(&v.rhs));
            let r = ASTNode::VariableExpression(
                VariableExpression { lhs, rhs, start: v.start, end: v.end },
            );
            proof {
                assert(r@ =~= n@);
            }
            r
        },
        ASTNode::ObjectPattern(op) => {
            let r = ASTNode::ObjectPattern(clone_object_pattern(op));
            proof {
                assert(r@ =~= n@);
            }
            r
        },
        ASTNode::ExportStatement(op) => {
            let r = ASTNode::ExportStatement(clone_object_pattern(op));
            proof {
                assert(r@ =~= n@);
            }
            r
        },
        ASTNode::Identifier(id) => {
            let r = ASTNode::Identifier(
                Identifier { name: id.name.clone(), start: id.start, end: id.end },
            );
            proof {
                assert(r@ =~= n@);
            }
            r
        },
        ASTNode::MemberExpression(m) => {
            let base = Box::new(clone_node(&m.base));
            let r = ASTNode::MemberExpression(
                MemberExpression { base, property: m.property.clone(), start: m.start, end: m.end },
            );
            proof {
                assert(r@ =~= n@);
            }
            r
        },
    }
}

/// A structural copy of a node list, with the same spec-level images.
pub fn clone_nodes(v: &Vec<ASTNode>) -> (r: Vec<ASTNode>)
    ensures
        views_of(r@) == views_of(v@),
    decreases *v,
{
    let mut out: Vec<ASTNode> = Vec::new();
    let mut i: usize = 0;
    while i < v.len()
        invariant
            i <= v.len(),
            out@.len() == i,
            forall|k: int| 0 <= k < i ==> out@[k]@ == v@[k]@,
        decreases v.len() - i,
    {
        proof {
            assert(decreases_to!(*v => v@[i as int]));
        }
        let c = clone_node(&v[i]);
        out.push(c);
        i += 1;
    }
    proof {
        assert(views_of(out@) =~= views_of(v@));
    }
    out
}

/// A node's spec-level image has the same variant as the node.
pub proof fn lemma_view_node_variant(n: ASTNode)
    ensures
        (view_node(n) is Program) == (n is Program),
        (view_node(n) is FunctionStatement) == (n is FunctionStatement),
        (view_node(n) is BlockStatement) == (n is BlockStatement),
        (view_node(n) is CallExpression) == (n is CallExpression),
        (view_node(n) is VariableExpression) == (n is VariableExpression),
        (view_node(n) is ObjectPattern) == (n is ObjectPattern),
        (view_node(n) is ExportStatement) == (n is ExportStatement),
        (view_node(n) is Identifier) == (n is Identifier),
        (view_node(n) is MemberExpression) == (n is MemberExpression),
{
    match n {
        ASTNode::Program(_) => {},
        ASTNode::FunctionStatement(_) => {},
        ASTNode::BlockStatement(_) => {},
        ASTNode::CallExpression(_) => {},
        ASTNode::VariableExpression(_) => {},
        ASTNode::ObjectPattern(_) => {},
        ASTNode::ExportStatement(_) => {},
        ASTNode::Identifier(_) => {},
        ASTNode::MemberExpression(_) => {},
    }
}

// ---- structural queries ----

/// Whether a `require` path is relative: it starts with `./` or `../`.
pub open spec fn is_relative_path(p: Seq<char>) -> bool {
    (p.len() >= 2 && p[0] == '.' && p[1] == '/') || (p.len() >= 3 && p[0] == '.' && p[1] == '.'
        && p[2] == '/')
}

/// The first top-level function named `name`, scanning from position `k`.
pub open spec fn spec_find_function_from(lines: Seq<NodeView>, name: Seq<char>, k: int) -> Option<
    NodeView,
>
    decreases lines.len() - k,
{
    if k < 0 || k >= lines.len() {
        None
    } else {
        match lines[k] {
            NodeView::FunctionStatement { name: n, .. } => if n == name {
                Some(lines[k])
            } else {
                spec_find_function_from(lines, name, k + 1)
            },
            _ => spec_find_function_from(lines, name, k + 1),
        }
    }
}

/// The first top-level function named `name` of a program, if any.
pub open spec fn spec_find_function(nv: NodeView, name: Seq<char>) -> Option<NodeView> {
    match nv {
        NodeView::Program { lines, .. } => spec_find_function_from(lines, name, 0),
        _ => None,
    }
}

/// The first export statement, scanning from position `k`.
pub open spec fn spec_find_export_from(lines: Seq<NodeView>, k: int) -> Option<OpView>
    decreases lines.len() - k,
{
    if k < 0 || k >= lines.len() {
        None
    } else {
        match lines[k] {
            NodeView::ExportStatement(op) => Some(op),
            _ => spec_find_export_from(lines, k + 1),
        }
    }
}

/// The first top-level export statement of a program, if any.
pub open spec fn spec_find_export(nv: NodeView) -> Option<OpView> {
    match nv {
        NodeView::Program { lines, .. } => spec_find_export_from(lines, 0),
        _ => None,
    }
}

/// The value bound to `key` in a property list, scanning from position `k`.
pub open spec fn op_get_value_from(props: Seq<PropView>, key: Seq<char>, k: int) -> Option<
    Seq<char>,
>
    decreases props.len() - k,
{
    if k < 0 || k >= props.len() {
        None
    } else if props[k].key == key {
        Some(props[k].value)
    } else {
        op_get_value_from(props, key, k + 1)
    }
}

/// What `try_get_require_file` reports: the relative path of a
/// `require("...")` binding, and the binding itself.
pub open spec fn spec_require_of(nv: NodeView) -> Option<(Seq<char>, NodeView)> {
    match nv {
        NodeView::VariableExpression { rhs, .. } => match *rhs {
            NodeView::CallExpression { base, param, .. } => match *base {
                NodeView::Identifier { name, .. } => if name == "require"@ {
                    match param {
                        Some(p) => if is_relative_path(p) {
                            Some((p, nv))
                        } else {
                            None
                        },
                        None => None,
                    }
                } else {
                    None
                },
                _ => None,
            },
            _ => None,
        },
        _ => None,
    }
}

/// What `try_export_extract` reports: the required path and the bound left side.
pub open spec fn spec_export_extract(nv: NodeView) -> Option<(Seq<char>, NodeView)> {
    match spec_require_of(nv) {
        Some(r) => match r.1 {
            NodeView::VariableExpression { lhs, .. } => Some((r.0, *lhs)),
            _ => None,
        },
        None => None,
    }
}

/// What `find_exported_func` reports: the function that an export statement
/// binds to `target`.
pub open spec fn spec_find_exported_func(nv: NodeView, target: Seq<char>) -> Option<NodeView> {
    match spec_find_export(nv) {
        Some(op) => match op_get_value_from(op.properties, target, 0) {
            Some(v) => spec_find_function(nv, v),
            None => None,
        },
        None => None,
    }
}

/// Whether a member chain bottoms out in a bare identifier.
pub open spec fn member_base_ok(nv: NodeView) -> bool
    decreases nv,
{
    match nv {
        NodeView::Identifier { .. } => true,
        NodeView::MemberExpression { base, .. } => member_base_ok(*base),
        _ => false,
    }
}

/// The identifier at the bottom of a member chain.
pub open spec fn member_base_of(nv: NodeView) -> NodeView
    decreases nv,
{
    match nv {
        NodeView::MemberExpression { base, .. } => member_base_of(*base),
        _ => nv,
    }
}

impl ObjectPattern {
    /// The alias bound to `key`, if the pattern names it.
    pub fn get_value(&self, key: &str) -> (r: Option<&String>)
        ensures
            match r {
                Some(v) => op_get_value_from(self@.properties, key@, 0) == Some(v@),
                None => op_get_value_from(self@.properties, key@, 0) is None,
            },
    {
        let ghost props = self@.properties;
        let mut k: usize = 0;
        #[verifier::loop_isolation(false)]
        while k < self.properties.len()
            invariant
                k <= self.properties.len(),
                op_get_value_from(props, key@, 0) == op_get_value_from(props, key@, k as int),
            decreases self.properties.len() - k,
        {
            if str_eq(self.properties[k].key.as_str(), key) {
                return Some(&self.properties[k].value);
            }
            k += 1;
        }
        None
    }
}

impl MemberExpression {
    /// The identifier at the bottom of this member chain.
    pub fn get_base(&self) -> (r: &Identifier)
        requires
            member_base_ok(self@),
        ensures
            r@ == member_base_of(self@),
        decreases *self,
    {
        proof {
            reveal_with_fuel(view_node, 3);
            reveal_with_fuel(member_base_ok, 2);
            reveal_with_fuel(member_base_of, 2);
        }
        match &*self.base {
            ASTNode::MemberExpression(me) => me.get_base(),
            ASTNode::Identifier(id) => id,
            _ => {
                proof {
                    lemma_view_node_variant(*self.base);
                }
                vstd::pervasive::unreached()
            },
        }
    }
}

impl View for MemberExpression {
    type V = NodeView;

    open spec fn view(&self) -> NodeView {
        view_node(ASTNode::MemberExpression(*self))
    }
}

impl ASTNode {
    /// The line on which this node starts.
    pub fn get_start(&self) -> (r: usize)
        ensures
            r as int == start_of(self@),
    {
        match self {
            ASTNode::Program(p) => p.start,
            ASTNode::FunctionStatement(f) => f.start,
            ASTNode::BlockStatement(b) => b.start,
            ASTNode::CallExpression(c) => c.start,
            ASTNode::VariableExpression(v) => v.start,
            ASTNode::ObjectPattern(op) => op.start,
            ASTNode::ExportStatement(op) => op.start,
            ASTNode::Identifier(id) => id.start,
            ASTNode::MemberExpression(m) => m.start,
        }
    }

    /// The line on which this node ends.
    pub fn get_end(&self) -> (r: usize)
        ensures
            r as int == end_of(self@),
    {
        match self {
            ASTNode::Program(p) => p.end,
            ASTNode::FunctionStatement(f) => f.end,
            ASTNode::BlockStatement(b) => b.end,
            ASTNode::CallExpression(c) => c.end,
            ASTNode::VariableExpression(v) => v.end,
            ASTNode::ObjectPattern(op) => op.end,
            ASTNode::ExportStatement(op) => op.end,
            ASTNode::Identifier(id) => id.end,
            ASTNode::MemberExpression(m) => m.end,
        }
    }

    /// The first top-level function of this program named `name`.
    pub fn find_function(&self, name: &str) -> (r: Option<&ASTNode>)
        ensures
            match r {
                Some(n) => spec_find_function(self@, name@) == Some(n@),
                None => spec_find_function(self@, name@) is None,
            },
    {
        let prog = match self {
            ASTNode::Program(p) => p,
            _ => {
                return None;
            },
        };
        let ghost lines = views_of(prog.lines@);
        let mut k: usize = 0;
        #[verifier::loop_isolation(false)]
        while k < prog.lines.len()
            invariant
                k <= prog.lines.len(),
                spec_find_function_from(lines, name@, 0) == spec_find_function_from(
                    lines,
                    name@,
                    k as int,
                ),
            decreases prog.lines.len() - k,
        {
            match &prog.lines[k] {
                ASTNode::FunctionStatement(fs) => {
                    if str_eq(fs.name.as_str(), name) {
                        return Some(&prog.lines[k]);
                    }
                },
                _ => {},
            }
            k += 1;
        }
        None
    }

    /// The relative path of a `require("...")` binding, and the binding.
    pub fn try_get_require_file(&self) -> (r: Option<(String, &VariableExpression)>)
        ensures
            match r {
                Some(p) => spec_require_of(self@) == Some((p.0@, p.1@)),
                None => spec_require_of(self@) is None,
            },
    {
        proof {
            reveal_with_fuel(view_node, 4);
        }
        let ve = match self {
            ASTNode::VariableExpression(ve) => ve,
            _ => {
                proof {
                    lemma_view_node_variant(*self);
                }
                return None;
            },
        };
        let ce = match &*ve.rhs {
            ASTNode::CallExpression(ce) => ce,
            _ => {
                proof {
                    lemma_view_node_variant(*ve.rhs);
                }
                return None;
            },
        };
        match &*ce.base {
            ASTNode::Identifier(id) => {
                if !str_eq(id.name.as_str(), "require") {
                    return None;
                }
            },
            _ => {
                proof {
                    lemma_view_node_variant(*ce.base);
                }
                return None;
            },
        }
        let p = match &ce.param {
            Some(p) => p,
            None => {
                return None;
            },
        };
        let plen = p.as_str().unicode_len();
        let dot_slash = plen >= 2 && p.as_str().get_char(0) == '.' && p.as_str().get_char(1) == '/';
        let dot_dot_slash = plen >= 3 && p.as_str().get_char(0) == '.' && p.as_str().get_char(1)
            == '.' && p.as_str().get_char(2) == '/';
        if !dot_slash && !dot_dot_slash {
            return None;
        }
        Some((p.clone(), ve))
    }

    /// The required path and the bound left side of a `require` binding.
    pub fn try_export_extract(&self) -> (r: Option<(String, &ASTNode)>)
        ensures
            match r {
                Some(p) => spec_export_extract(self@) == Some((p.0@, p.1@)),
                None => spec_export_extract(self@) is None,
            },
    {
        match self.try_get_require_file() {
            Some((p, ve)) => Some((p, &ve.lhs)),
            None => None,
        }
    }

    /// The first top-level export statement of this program.
    pub fn find_export_statement(&self) -> (r: Option<&ObjectPattern>)
        ensures
            match r {
                Some(op) => spec_find_export(self@) == Some(op@),
                None => spec_find_export(self@) is None,
            },
    {
        let prog = match self {
            ASTNode::Program(p) => p,
            _ => {
                return None;
            },
        };
        let ghost lines = views_of(prog.lines@);
        let mut k: usize = 0;
        #[verifier::loop_isolation(false)]
        while k < prog.lines.len()
            invariant
                k <= prog.lines.len(),
                spec_find_export_from(lines, 0) == spec_find_export_from(lines, k as int),
            decreases prog.lines.len() - k,
        {
            match &prog.lines[k] {
                ASTNode::ExportStatement(op) => {
                    return Some(op);
                },
                _ => {},
            }
            k += 1;
        }
        None
    }

    /// The function that this program's export statement binds to `target`.
    pub fn find_exported_func(&self, target: &str) -> (r: Option<&ASTNode>)
        ensures
            match r {
                Some(n) => spec_find_exported_func(self@, target@) == Some(n@),
                None => spec_find_exported_func(self@, target@) is None,
            },
    {
        let es = match self.find_export_statement() {
            Some(es) => es,
            None => {
                return None;
            },
        };
        let val = match es.get_value(target) {
            Some(v) => v,
            None => {
                return None;
            },
        };
        self.find_function(val.as_str())
    }
}


/// The spec-level images of a list of strings.
pub open spec fn string_views(s: Seq<String>) -> Seq<Seq<char>> {
    Seq::new(s.len(), |i: int| s[i]@)
}

/// The relative require paths bound anywhere in a node, in the order an
/// in-order walk meets them: its own binding, then everything under its
/// statement lists and function bodies.
pub open spec fn req_paths(nv: NodeView) -> Seq<Seq<char>>
    decreases nv, 0int,
{
    let own = match spec_require_of(nv) {
        Some(r) => seq![r.0],
        None => Seq::<Seq<char>>::empty(),
    };
    match nv {
        NodeView::Program { lines, .. } => own + req_paths_list(lines, 0),
        NodeView::BlockStatement { body, .. } => own + req_paths_list(body, 0),
        NodeView::FunctionStatement { body, .. } => own + req_paths(*body),
        _ => own,
    }
}

/// The require paths of a statement list, from position `k` on.
pub open spec fn req_paths_list(s: Seq<NodeView>, k: int) -> Seq<Seq<char>>
    decreases s, s.len() - k,
{
    if k < 0 || k >= s.len() {
        Seq::empty()
    } else {
        req_paths(s[k]) + req_paths_list(s, k + 1)
    }
}

/// Collect into `out` every relative require path this node binds, anywhere
/// under it. A loader walks the tree with this to bring in, up front, every
/// file a search may need.
pub fn required_paths(n: &ASTNode, out: &mut Vec<String>)
    ensures
        string_views(final(out)@) == string_views(old(out)@) + req_paths(n@),
    decreases *n,
{
    proof {
        lemma_view_node_variant(*n);
    }
    let ghost base = string_views(out@);
    match n.try_get_require_file() {
        Some((p, _ve)) => {
            out.push(p);
        },
        None => {},
    }
    proof {
        assert(string_views(out@) =~= base + (match spec_require_of(n@) {
            Some(r) => seq![r.0],
            None => Seq::<Seq<char>>::empty(),
        }));
    }
    let ghost own_done = string_views(out@);
    match n {
        ASTNode::Program(p) => {
            required_paths_all(&p.lines, out);
        },
        ASTNode::BlockStatement(b) => {
            required_paths_all(&b.body, out);
        },
        ASTNode::FunctionStatement(f) => {
            required_paths(&f.body, out);
        },
        _ => {
            proof {
                assert(string_views(out@) =~= base + req_paths(n@));
            }
        },
    }
    proof {
        assert(string_views(out@) =~= base + req_paths(n@));
    }
}

/// Collect the require paths of every node of a statement list.
pub fn required_paths_all(v: &Vec<ASTNode>, out: &mut Vec<String>)
    ensures
        string_views(final(out)@) == string_views(old(out)@) + req_paths_list(views_of(v@), 0),
    decreases *v,
{
    let ghost lv = views_of(v@);
    let ghost base = string_views(out@);
    let mut k: usize = 0;
    #[verifier::loop_isolation(false)]
    while k < v.len()
        invariant
            k <= v@.len(),
            string_views(out@) + req_paths_list(lv, k as int) == base + req_paths_list(lv, 0),
        decreases v@.len() - k,
    {
        proof {
            assert(decreases_to!(*v => v@[k as int]));
        }
        let ghost before = string_views(out@);
        required_paths(&v[k], out);
        proof {
            assert((before + req_paths(lv[k as int])) + req_paths_list(lv, k as int + 1) =~= before
                + (req_paths(lv[k as int]) + req_paths_list(lv, k as int + 1)));
        }
        k += 1;
    }
    proof {
        assert(string_views(out@) + Seq::<Seq<char>>::empty() =~= string_views(out@));
    }
}

} // verus!
