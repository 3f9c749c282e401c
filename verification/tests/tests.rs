use codegrep::ast::ASTNode;
use codegrep::lexer::{Lexer, TokenType};
use codegrep::parser::Parser;
use codegrep::symbol_table::SymbolTable;
use codegrep::utils::{join_path, split_str, str_contains, str_eq, trim_str, usize_to_string};
use codegrep::visitor::{render_match, ASTVisitor};

fn run_search(
    files: &[(&str, &str)],
    needle: &str,
    entry: &str,
    func_start: Option<&str>,
) -> Vec<String> {
    let mut visitor = ASTVisitor::new(needle);
    for (path, src) in files {
        visitor.add_file(path, src).unwrap_or_else(|_| panic!("parse failure in {}", path));
    }
    visitor.search(entry, func_start).unwrap();
    let mut out = Vec::new();
    for m in visitor.results() {
        out.push(render_match(m));
    }
    out
}

fn check_search(
    files: &[(&str, &str)],
    needle: &str,
    entry: &str,
    func_start: Option<&str>,
    expected_out: Vec<&str>,
) {
    let lines = run_search(files, needle, entry, func_start);
    assert_eq!(lines.len(), expected_out.len());
    for (line, expected) in lines.iter().zip(expected_out.iter()) {
        assert_eq!(line.contains(expected), true);
    }
}

const SINGLE_FILE: &str = "function foo() {\n  let pin = a;\n  bar();\n  abc(pin);\n}\nfunction bar() {\n  let pin = b;\n}\nconst abc = (pin) => {\n  let pin = c;\n  //pin\n  moo(pin);\n}\n";

#[test]
fn same_file() {
    check_search(
        &[("/data/single-file.js", SINGLE_FILE)],
        "pin",
        "/data/single-file.js",
        Some("foo"),
        vec![
            "let pin = a;",
            "let pin = b;",
            "abc(pin);",
            "const abc = (pin) => {",
            "let pin = c;",
            "//pin",
            "moo(pin);",
        ],
    );
}

const COMMENTS_FILE: &str = "// a comment before foo\nfunction foo() {\n  /* a block comment */\n  pin = bar;\n}\nfunction helper() {\n  let pin = y;\n}\n";

#[test]
fn comments() {
    check_search(
        &[("/data/comments.js", COMMENTS_FILE)],
        "pin",
        "/data/comments.js",
        Some("foo"),
        vec!["pin = bar;"],
    );
}

const IMPORT_TEST: &str = "const { baz: b1, baz2: b2 } = require(\"./m.js\");\nfunction foo() {\n  bazz();\n  b1(o);\n  b2(o);\n}\n";

const IMPORT_FUNCS: &str = "function baz(obj) {\n  obj.baz = 1;\n}\nfunction baz2(obj) {\n  obj.baz = 2;\n}\nmodule.exports = { baz, baz2 };\n";

#[test]
fn multi_file() {
    check_search(
        &[("/data/import-test.js", IMPORT_TEST), ("/data/m.js", IMPORT_FUNCS)],
        "baz",
        "/data/import-test.js",
        Some("foo"),
        vec![
            "bazz();",
            "function baz(obj) {",
            "obj.baz = 1;",
            "function baz2(obj) {",
            "obj.baz = 2;",
        ],
    );
}

#[test]
fn member_expressions() {
    check_search(
        &[("/data/member-expr.js", "obj = 1;\nobj = 2;\nobj = 3;\n")],
        "obj",
        "/data/member-expr.js",
        None,
        vec!["obj = 1;", "obj = 2;", "obj = 3;"],
    );
}

#[test]
fn fixed_import() {
    check_search(
        &[
            (
                "/data/index.js",
                "const { fixed } = require(\"./a.js\");\nfunction foo() {\n  fixed();\n}\n",
            ),
            ("/data/a.js", "function fixed(obj) {\n  obj.fixed = 1;\n}\n"),
        ],
        "obj.fixed",
        "/data/index.js",
        Some("foo"),
        vec!["obj.fixed = 1;"],
    );
}

#[test]
fn default_import_by_name() {
    // A bare-identifier require binding registers the imported file's
    // function of the same name, so the call is followed across files.
    check_search(
        &[
            (
                "/data/main.js",
                "const util = require(\"./u.js\");\nfunction foo() {\n  util();\n}\n",
            ),
            ("/data/u.js", "function util(x) {\n  let marker = 1;\n}\n"),
        ],
        "marker",
        "/data/main.js",
        Some("foo"),
        vec!["let marker = 1;"],
    );
}

#[test]
fn mutual_recursion() {
    check_search(
        &[
            (
                "/data/mutual.js",
                "function foo() {\n  let ping = 1;\n  bar();\n}\nfunction bar() {\n  let ping = 2;\n  foo();\n}\n",
            ),
        ],
        "ping",
        "/data/mutual.js",
        Some("foo"),
        vec!["let ping = 1;", "let ping = 2;"],
    );
}

#[test]
fn dedup_across_paths() {
    // The same line is reachable through two different call chains; the
    // recorded-line set reports it once.
    let src = "function foo() {\n  a();\n  b();\n}\nfunction a() {\n  c();\n}\nfunction b() {\n  c();\n}\nfunction c() {\n  let marker = 1;\n}\n";
    check_search(
        &[("/data/dedup.js", src)],
        "marker",
        "/data/dedup.js",
        Some("foo"),
        vec!["let marker = 1;"],
    );
}

#[test]
fn unreachable_not_reported() {
    // A matching line in a function that nothing reachable calls stays out.
    let src = "function foo() {\n  let marker = 1;\n}\nfunction lonely() {\n  let marker = 2;\n}\n";
    check_search(
        &[("/data/unreachable.js", src)],
        "marker",
        "/data/unreachable.js",
        Some("foo"),
        vec!["let marker = 1;"],
    );
}

#[test]
fn every_line_contains_needle() {
    let lines = run_search(
        &[("/data/single-file.js", SINGLE_FILE)],
        "pin",
        "/data/single-file.js",
        Some("foo"),
    );
    assert_eq!(lines.len(), 7);
    for line in &lines {
        assert_eq!(line.contains("pin"), true);
    }
}

#[test]
fn no_line_reported_twice() {
    let mut visitor = ASTVisitor::new("pin");
    visitor.add_file("/data/single-file.js", SINGLE_FILE).unwrap();
    visitor.search("/data/single-file.js", Some("foo")).unwrap();
    let results = visitor.results();
    for i in 0..results.len() {
        for j in 0..results.len() {
            if i != j {
                let same = results[i].file == results[j].file
                    && results[i].line == results[j].line;
                assert_eq!(same, false);
            }
        }
    }
}

#[test]
fn missing_start_function() {
    let mut visitor = ASTVisitor::new("pin");
    visitor.add_file("/data/single-file.js", SINGLE_FILE).unwrap();
    let err = visitor.search("/data/single-file.js", Some("nope")).unwrap_err();
    assert_eq!(err.contains("function start not found"), true);
}

#[test]
fn missing_entry_file() {
    let mut visitor = ASTVisitor::new("pin");
    let err = visitor.search("/data/absent.js", Some("foo")).unwrap_err();
    assert_eq!(err.contains("file not found"), true);
}

#[test]
fn parse_error_reported() {
    let mut visitor = ASTVisitor::new("pin");
    let err = visitor.add_file("/data/bad.js", "let a ^ b;\n").unwrap_err();
    match err {
        codegrep::parser::ParseError::UnexpectedToken(_) => {}
        other => panic!("wrong error kind: {:?}", kind_name(&other)),
    }
}

#[test]
fn parse_error_at_end_of_input() {
    let mut parser = Parser::new("function f() {\n");
    let err = match parser.parse() {
        Ok(_) => panic!("expected a parse error"),
        Err(e) => e,
    };
    match err {
        codegrep::parser::ParseError::UnexpectedEof => {}
        other => panic!("wrong error kind: {:?}", kind_name(&other)),
    }
}

fn kind_name(e: &codegrep::parser::ParseError) -> &'static str {
    match e {
        codegrep::parser::ParseError::UnexpectedEof => "end of input",
        codegrep::parser::ParseError::UnexpectedToken(_) => "unexpected token",
    }
}

#[test]
fn parsing_twice_yields_equal_trees() {
    let src = SINGLE_FILE;
    let ast1 = Parser::new(src).parse().unwrap();
    let ast2 = Parser::new(src).parse().unwrap();
    assert_eq!(ast1.get_start(), ast2.get_start());
    assert_eq!(ast1.get_end(), ast2.get_end());
    for name in ["foo", "bar", "abc"] {
        let f1 = ast1.find_function(name).unwrap();
        let f2 = ast2.find_function(name).unwrap();
        assert_eq!(f1.get_start(), f2.get_start());
        assert_eq!(f1.get_end(), f2.get_end());
    }
    assert_eq!(ast1.find_function("moo").is_none(), true);
}

#[test]
fn lexer_token_stream() {
    let mut lexer = Lexer::new("a = \"s\"\n*");
    match lexer.next_token() {
        TokenType::Identifier(s) => assert_eq!(s, "a"),
        _ => panic!("expected an identifier"),
    }
    assert_eq!(matches!(lexer.next_token(), TokenType::Equals), true);
    match lexer.next_token() {
        TokenType::String(s) => assert_eq!(s, "s"),
        _ => panic!("expected a string"),
    }
    assert_eq!(matches!(lexer.next_token(), TokenType::Newline), true);
    assert_eq!(lexer.cursor.line_num, 0);
    assert_eq!(matches!(lexer.next_token(), TokenType::Asterisk), true);
    assert_eq!(lexer.cursor.line_num, 1);
    assert_eq!(matches!(lexer.next_token(), TokenType::EOF), true);
}

#[test]
fn lexer_lookahead_keeps_cursor() {
    let mut lexer = Lexer::new("a b c");
    match lexer.lookahead(2) {
        TokenType::Identifier(s) => assert_eq!(s, "b"),
        _ => panic!("expected an identifier"),
    }
    match lexer.next_token() {
        TokenType::Identifier(s) => assert_eq!(s, "a"),
        _ => panic!("expected an identifier"),
    }
}

#[test]
fn ast_queries() {
    let src = "const { a: b } = require(\"./dep\");\nmodule.exports = { inner: outer };\nfunction outer() {\n}\n";
    let ast = Parser::new(src).parse().unwrap();
    let es = ast.find_export_statement().unwrap();
    assert_eq!(es.get_value("inner").unwrap().as_str(), "outer");
    assert_eq!(es.get_value("outer").is_none(), true);
    let f = ast.find_exported_func("inner").unwrap();
    assert_eq!(f.get_start(), 2);
    let req = match &ast {
        ASTNode::Program(p) => p.lines[0].try_get_require_file(),
        _ => panic!("expected a program"),
    };
    let (path, _ve) = req.unwrap();
    assert_eq!(path, "./dep");
}

#[test]
fn member_expression_base() {
    let src = "a.b.c();\n";
    let ast = Parser::new(src).parse().unwrap();
    let stmt = match &ast {
        ASTNode::Program(p) => &p.lines[0],
        _ => panic!("expected a program"),
    };
    let me = match stmt {
        ASTNode::CallExpression(ce) => match &*ce.base {
            ASTNode::MemberExpression(me) => me,
            _ => panic!("expected a member chain"),
        },
        _ => panic!("expected a call"),
    };
    assert_eq!(me.get_base().name.as_str(), "a");
}

#[test]
fn symbol_table_scoping() {
    let src = "x\ny\n";
    let ast = Parser::new(src).parse().unwrap();
    let node = match &ast {
        ASTNode::Program(p) => codegrep::ast::clone_node(&p.lines[0]),
        _ => panic!("expected a program"),
    };
    let inner = match &ast {
        ASTNode::Program(p) => codegrep::ast::clone_node(&p.lines[1]),
        _ => panic!("expected a program"),
    };
    let mut table = SymbolTable::new();
    table.set("x", node);
    assert_eq!(table.get("x").is_some(), true);
    table.push_scope();
    table.set("x", inner);
    assert_eq!(table.get("x").unwrap().get_start(), 1);
    table.pop_scope();
    assert_eq!(table.get("x").unwrap().get_start(), 0);
    assert_eq!(table.get("y").is_none(), true);
}

#[test]
fn file_scope_lookup_order() {
    let src = "a\nb\n";
    let ast = Parser::new(src).parse().unwrap();
    let (outer, inner) = match &ast {
        ASTNode::Program(p) => (
            codegrep::ast::clone_node(&p.lines[0]),
            codegrep::ast::clone_node(&p.lines[1]),
        ),
        _ => panic!("expected a program"),
    };
    let mut fs = codegrep::file_scope::FileScope::new("/data/f.js");
    fs.push(codegrep::file_scope::ScopeKind::Block);
    fs.insert_symbol("n", codegrep::file_scope::Symbol {
        node: outer,
        file_path: String::from("/data/f.js"),
    });
    fs.push(codegrep::file_scope::ScopeKind::Block);
    fs.insert_symbol("n", codegrep::file_scope::Symbol {
        node: inner,
        file_path: String::from("/data/f.js"),
    });
    assert_eq!(fs.find_symbol("n").unwrap().node.get_start(), 1);
    fs.pop();
    assert_eq!(fs.find_symbol("n").unwrap().node.get_start(), 0);
    assert_eq!(fs.find_symbol("m").is_none(), true);
}

#[test]
fn program_scope_stack() {
    let mut scope = codegrep::file_scope::ProgramScope::new();
    assert_eq!(scope.current().is_none(), true);
    scope.push_file("/data/one.js");
    assert_eq!(scope.current().unwrap().get_file_path().as_str(), "/data/one.js");
    scope.push_block();
    scope.pop();
    // Closing the only block of the only frame closes the file scope too.
    assert_eq!(scope.current().is_none(), true);
    assert_eq!(scope.find_symbol("x").is_none(), true);
}

#[test]
fn join_path_resolution() {
    assert_eq!(join_path("/a/b/c.js", "./d").unwrap(), "/a/b/d.js");
    assert_eq!(join_path("/a/b/c.js", "../x/y.js").unwrap(), "/a/x/y.js");
    assert_eq!(join_path("/a/c.js", "./sub/mod").unwrap(), "/a/sub/mod.js");
    // A leading dot marks a hidden name, not an extension.
    assert_eq!(join_path("/a/b/c.js", "./.env").unwrap(), "/a/b/.env.js");
    assert_eq!(join_path("/a/b/c.js", "./d.v1").unwrap(), "/a/b/d.v1");
}

#[test]
fn required_paths_include_nested_blocks() {
    let src = "const { a } = require(\"./top.js\");\nfunction foo() {\n  const { b } = require(\"./inner.js\");\n  b();\n}\n";
    let ast = Parser::new(src).parse().unwrap();
    let mut reqs: Vec<String> = Vec::new();
    codegrep::ast::required_paths(&ast, &mut reqs);
    assert_eq!(reqs, vec!["./top.js", "./inner.js"]);
}

#[test]
fn require_inside_function_body_is_followed() {
    // A require binding inside a visited block registers its exports there.
    check_search(
        &[
            (
                "/data/entry.js",
                "function foo() {\n  const { deep } = require(\"./d.js\");\n  deep();\n}\n",
            ),
            ("/data/d.js", "function deep(x) {\n  let marker = 1;\n}\n"),
        ],
        "marker",
        "/data/entry.js",
        Some("foo"),
        vec!["let marker = 1;"],
    );
}

#[test]
fn string_utilities() {
    assert_eq!(str_contains("hay pin stack", "pin"), true);
    assert_eq!(str_contains("haystack", "pin"), false);
    assert_eq!(str_contains("abc", ""), true);
    assert_eq!(str_eq("same", "same"), true);
    assert_eq!(str_eq("same", "other"), false);
    assert_eq!(trim_str("  a b\t\n"), "a b");
    assert_eq!(usize_to_string(0), "0");
    assert_eq!(usize_to_string(120), "120");
    let parts = split_str("a/b//c", '/');
    assert_eq!(parts, vec!["a", "b", "", "c"]);
}

#[test]
fn member_call_not_followed() {
    // A call through a member chain has no bare-identifier base, so it is
    // not dispatched; the named function stays unvisited.
    let src = "function foo() {\n  helper.run();\n}\nfunction run() {\n  let marker = 1;\n}\n";
    check_search(
        &[("/data/member-call.js", src)],
        "marker",
        "/data/member-call.js",
        Some("foo"),
        vec![],
    );
}

#[test]
fn block_after_if_is_walked() {
    // An `if` keyword is dropped, but the block that follows it is ordinary
    // reachable code.
    let src = "function foo() {\n  if (a) {\n    let marker = 1;\n  }\n}\n";
    check_search(
        &[("/data/branch.js", src)],
        "marker",
        "/data/branch.js",
        Some("foo"),
        vec!["let marker = 1;"],
    );
}

#[test]
fn empty_needle_matches_every_reachable_line() {
    let lines = run_search(
        &[("/data/tiny.js", "function foo() {\n  x();\n}\n")],
        "",
        "/data/tiny.js",
        Some("foo"),
    );
    assert_eq!(lines.len(), 3);
}

#[test]
fn rendered_lines_are_one_based() {
    let lines = run_search(
        &[("/data/member-expr.js", "obj = 1;\nobj = 2;\n")],
        "obj",
        "/data/member-expr.js",
        None,
    );
    assert_eq!(lines, vec!["1: obj = 1;", "2: obj = 2;"]);
}
