//! Call edges from source text.
use std::collections::BTreeSet;
use std::path::Path;

use shim_interface_core::owner::{OwnerResolver, StaticOwnerResolver};
use shim_interface_core::sources::{
    is_rust_source, is_under_helpers, is_walked, module_label, SourceEntry,
};
use shim_interface_core::syntax::{
    functions_of, parse_source, public_function_names, public_functions_of, source_expr,
    source_functions, source_path, SourceCall, SourceExpr, SourceFn, SourceItem, SourcePath,
    SyntaxError,
};
use shim_interface_core::walker::{
    last_segment, quote_expr, quote_path, standard_source_layout, walk_functions, walk_shim_src,
    EdgeCollector, EdgeKind, FnCalls, TreeFile, WalkedFn,
};
use syn::visit::Visit;

struct Calls {
    met: Vec<SourceCall>,
}

impl<'ast> Visit<'ast> for Calls {
    fn visit_expr_call(&mut self, ec: &'ast syn::ExprCall) {
        self.met.push(SourceCall::Function(source_expr(&ec.func)));
        syn::visit::visit_expr_call(self, ec);
    }

    fn visit_expr_method_call(&mut self, m: &'ast syn::ExprMethodCall) {
        self.met.push(SourceCall::Method(source_expr(&m.receiver), m.method.to_string()));
        syn::visit::visit_expr_method_call(self, m);
    }

    fn visit_expr_macro(&mut self, em: &'ast syn::ExprMacro) {
        self.met.push(SourceCall::Macro(source_path(&em.mac.path)));
        syn::visit::visit_expr_macro(self, em);
    }

    fn visit_stmt_macro(&mut self, sm: &'ast syn::StmtMacro) {
        self.met.push(SourceCall::Macro(source_path(&sm.mac.path)));
        syn::visit::visit_stmt_macro(self, sm);
    }
}

fn calls_of(text: &str) -> Vec<FnCalls> {
    source_functions(text)
        .unwrap()
        .into_iter()
        .map(|f| {
            let mut calls = Calls { met: Vec::new() };
            calls.visit_block(&f.body);
            FnCalls { name: f.name, calls: calls.met }
        })
        .collect()
}

fn entry(path: &[&str], is_file: bool) -> SourceEntry {
    SourceEntry {
        components: path.iter().map(|c| c.as_bytes().to_vec()).collect(),
        name: path.last().map(|c| c.as_bytes().to_vec()).unwrap_or_default(),
        is_file,
    }
}

fn edges(w: &WalkedFn) -> Vec<(String, &'static str, String)> {
    w.edges
        .iter()
        .map(|e| (e.callee_name.clone(), e.edge_kind.as_str(), e.source_hint.clone()))
        .collect()
}

fn edge(callee: &str, kind: &'static str, hint: &str) -> (String, &'static str, String) {
    (callee.to_string(), kind, hint.to_string())
}

#[test]
fn walk_synthetic_measurements() {
    // Helper file exporting `parse_ewkb`.
    let helpers = public_function_names(&vec!["pub fn parse_ewkb() {}\n".to_string()]);
    // Owner file mixing Self::, method call, macro, and a helper call.
    let text = r#"
                struct PostgisImpl;
                impl PostgisImpl {
                    pub fn st_area(&self) {
                        let g = Self::st_perimeter();
                        let _v = g.unsigned_area();
                        parse_ewkb();
                        println!("hi");
                    }
                    pub fn st_perimeter() {}
                }
            "#;
    let files = vec![
        TreeFile {
            entry: entry(&["helpers", "wkb.rs"], true),
            functions: Some(calls_of("pub fn parse_ewkb() {}\n")),
        },
        TreeFile { entry: entry(&["measurements.rs"], true), functions: Some(calls_of(text)) },
    ];
    let out = walk_shim_src(files, &helpers);
    let st_area = out.iter().find(|w| w.caller_name == "st_area").expect("st_area");
    let names: BTreeSet<_> = st_area.edges.iter().map(|e| e.callee_name.clone()).collect();
    assert!(names.contains("st_perimeter"));
    assert!(names.contains("unsigned_area"));
    assert!(names.contains("parse_ewkb"));
    assert!(names.contains("println"));

    assert_eq!(out.len(), 2);
    assert_eq!(out[1].caller_name, "st_perimeter");
    assert!(out[1].edges.is_empty());
    assert_eq!(st_area.caller_module, "measurements");
    assert_eq!(
        edges(st_area),
        vec![
            edge("st_perimeter", "call", "Self::st_perimeter"),
            edge("unsigned_area", "call_method", "g.unsigned_area"),
            edge("parse_ewkb", "call", "helpers::parse_ewkb"),
            edge("println", "macro", "println!"),
        ]
    );
}

#[test]
fn each_kind_of_call_has_its_edge() {
    let text = r#"
        fn f(x: T) {
            bare();
            std::mem::swap(a, b);
            ::core::mem::drop(c);
            make::<u8>();
            x.field.run(1);
            x.0.run(1);
            x.next().run(2);
            (x.callback)(3);
            curry()(4);
            (|y| y)(5);
            let v = vec![1];
            bare();
        }
    "#;
    let walked = walk_functions("m", calls_of(text), &Vec::new());
    assert_eq!(walked.len(), 1);
    assert_eq!(walked[0].caller_module, "m");
    assert_eq!(walked[0].caller_name, "f");
    let met = edges(&walked[0]);
    for expected in vec![
        edge("bare", "call", "bare"),
        edge("swap", "call", "std::mem::swap"),
        edge("drop", "call", "::core::mem::drop"),
        edge("make", "call", "make"),
        edge("run", "call_method", "x.field.run"),
        edge("run", "call_method", "x.0.run"),
        edge("run", "call_method", "x.next.run"),
        edge("next", "call_method", "x.next"),
        edge("<expr>", "indirect", "<expr>"),
        edge("curry", "indirect", "curry"),
        edge("curry", "call", "curry"),
        edge("vec", "macro", "vec!"),
    ] {
        assert_eq!(met.iter().filter(|e| **e == expected).count(), 1, "{:?}", expected);
    }
}

#[test]
fn functions_are_found_in_order() {
    let text = r#"
        pub fn a() {}
        struct S;
        impl S { const N: u8 = 1; fn b(&self) {} pub fn c() {} }
        mod inner { pub(crate) fn d() {} pub fn e() {} mod deeper { fn g() {} } }
        mod elsewhere;
        fn h() {}
    "#;
    let fns = source_functions(text).unwrap();
    let names: Vec<&str> = fns.iter().map(|f| f.name.as_str()).collect();
    assert_eq!(names, vec!["a", "b", "c", "d", "e", "g", "h"]);
    let public: Vec<bool> = fns.iter().map(|f| f.public).collect();
    assert_eq!(public, vec![true, false, true, false, true, false, false]);
    for text in ["fn (", "fn fn", "x"] {
        let expected = syn::parse_file(text).err().unwrap().to_string();
        assert!(!expected.is_empty());
        assert_eq!(source_functions(text).err(), Some(SyntaxError { message: expected }));
    }
}

#[test]
fn items_are_walked_in_place() {
    let f = |name: &str, public: bool, body: u8| SourceFn { name: name.to_string(), public, body };
    let items = vec![
        SourceItem::Other,
        SourceItem::Function(f("a", true, 1)),
        SourceItem::Impl(vec![None, Some(f("b", true, 2)), Some(f("c", false, 3))]),
        SourceItem::Module(None),
        SourceItem::Module(Some(vec![
            SourceItem::Function(f("d", false, 4)),
            SourceItem::Module(Some(vec![SourceItem::Function(f("e", true, 5))])),
        ])),
        SourceItem::Function(f("a", true, 6)),
    ];
    assert_eq!(public_functions_of(&items), vec!["a", "e", "a"]);
    let bodies: Vec<u8> = functions_of(items).iter().map(|f| f.body).collect();
    assert_eq!(bodies, vec![1, 2, 3, 4, 5, 6]);
    let parsed = parse_source("use x::y; fn f() {} impl T { type A = u8; fn g() {} } mod m;").unwrap();
    assert_eq!(parsed.len(), 4);
    assert!(matches!(parsed[0], SourceItem::Other));
    assert!(matches!(&parsed[2], SourceItem::Impl(v) if v.len() == 2 && v[0].is_none()));
    assert!(matches!(parsed[3], SourceItem::Module(None)));
}

#[test]
fn public_free_functions_are_helpers() {
    let texts = vec![
        "pub fn zeta() {} fn hidden() {} pub fn alpha() {}".to_string(),
        "this is not rust".to_string(),
        "mod m { pub fn inner() {} } impl S { pub fn method(&self) {} } pub fn alpha() {}".to_string(),
    ];
    assert_eq!(public_function_names(&texts), vec!["alpha", "inner", "zeta"]);
    assert_eq!(public_function_names(&Vec::new()), Vec::<String>::new());
}

fn path(segments: &[&str]) -> SourcePath {
    SourcePath {
        leading_colon: false,
        segments: segments.iter().map(|s| s.to_string()).collect(),
    }
}

#[test]
fn paths_and_expressions_are_quoted() {
    assert_eq!(quote_path(&path(&["a", "b"])), "a::b");
    let leading = SourcePath { leading_colon: true, segments: vec!["a".to_string()] };
    assert_eq!(quote_path(&leading), "::a");
    assert_eq!(quote_path(&path(&[])), "");
    assert_eq!(last_segment(&path(&["a", "b"])), "b");
    assert_eq!(last_segment(&path(&[])), "<empty>");
    let e = SourceExpr::MethodCall(
        Box::new(SourceExpr::Call(Box::new(SourceExpr::Field(
            Box::new(SourceExpr::Path(path(&["self"]))),
            "f".to_string(),
        )))),
        "m".to_string(),
    );
    assert_eq!(quote_expr(&e), "self.f.m");
    assert_eq!(quote_expr(&SourceExpr::Other), "<expr>");
}

#[test]
fn a_collector_keeps_each_edge_once() {
    let mut c = EdgeCollector::new(vec!["helper".to_string()]);
    c.visit_expr_call(&SourceExpr::Path(path(&["helper"])));
    c.visit_expr_call(&SourceExpr::Path(path(&["helper"])));
    c.visit_expr_call(&SourceExpr::Path(path(&["Self", "helper"])));
    c.visit_expr_call(&SourceExpr::Path(path(&[])));
    c.visit_expr_call(&SourceExpr::Call(Box::new(SourceExpr::Path(path(&[])))));
    c.visit_expr_method_call(&SourceExpr::Other, "m");
    c.visit_macro(&path(&["std", "println"]));
    c.push("helper".to_string(), EdgeKind::Macro, "helpers::helper".to_string());
    c.push("helper".to_string(), EdgeKind::Call, "helpers::helper".to_string());
    let got: Vec<(String, EdgeKind, String)> = c
        .into_edges()
        .into_iter()
        .map(|e| (e.callee_name, e.edge_kind, e.source_hint))
        .collect();
    let want: Vec<(String, EdgeKind, String)> = vec![
        ("helper", EdgeKind::Call, "helpers::helper"),
        ("helper", EdgeKind::Call, "Self::helper"),
        ("<empty>", EdgeKind::Call, ""),
        ("<indirect>", EdgeKind::Indirect, ""),
        ("m", EdgeKind::CallMethod, "<expr>.m"),
        ("println", EdgeKind::Macro, "std::println!"),
        ("helper", EdgeKind::Macro, "helpers::helper"),
    ]
    .into_iter()
    .map(|(a, k, b)| (a.to_string(), k, b.to_string()))
    .collect();
    assert_eq!(got, want);
}

#[test]
fn every_function_has_its_entry() {
    let files = vec![TreeFile {
        entry: entry(&["a.rs"], true),
        functions: Some(calls_of("fn f() { g(); } fn g() {}")),
    }];
    let out = walk_shim_src(files, &Vec::new());
    assert_eq!(out.len(), 2);
    assert_eq!((out[0].caller_module.as_str(), out[0].caller_name.as_str()), ("a", "f"));
    assert_eq!(edges(&out[0]), vec![edge("g", "call", "g")]);
    assert_eq!((out[1].caller_module.as_str(), out[1].caller_name.as_str()), ("a", "g"));
    assert!(out[1].edges.is_empty());
}

#[test]
fn edge_kinds_have_names() {
    assert_eq!(EdgeKind::Call.as_str(), "call");
    assert_eq!(EdgeKind::CallMethod.as_str(), "call_method");
    assert_eq!(EdgeKind::Macro.as_str(), "macro");
    assert_eq!(EdgeKind::Indirect.as_str(), "indirect");
}

#[test]
fn rust_sources_are_told_by_their_extension() {
    assert!(is_rust_source(&entry(&["a.rs"], true)));
    assert!(is_rust_source(&entry(&["a.b.rs"], true)));
    assert!(!is_rust_source(&entry(&["a.rs"], false)));
    assert!(!is_rust_source(&entry(&["a.rss"], true)));
    assert!(!is_rust_source(&entry(&["ars"], true)));
    assert!(!is_rust_source(&entry(&[".rs"], true)));
    assert!(!is_rust_source(&entry(&["a.RS"], true)));
    assert!(!is_rust_source(&entry(&[], true)));
    assert!(is_under_helpers(&entry(&["helpers", "a.rs"], true)));
    assert!(!is_under_helpers(&entry(&["helpers.rs"], true)));
    assert!(!is_under_helpers(&entry(&["x", "helpers"], true)));
    assert!(is_walked(&entry(&["x", "a.rs"], true)));
    assert!(!is_walked(&entry(&["helpers", "a.rs"], true)));
}

#[test]
fn modules_are_named_after_files() {
    assert_eq!(module_label(&entry(&["x", "measure.rs"], true)), "measure");
    assert_eq!(module_label(&entry(&["a.b.rs"], true)), "a.b");
    assert_eq!(module_label(&entry(&[".hidden"], true)), ".hidden");
    assert_eq!(module_label(&entry(&["plain"], true)), "plain");
    assert_eq!(module_label(&entry(&[".."], true)), "<unknown>");
    assert_eq!(module_label(&entry(&[], true)), "<unknown>");
    let broken = SourceEntry {
        components: vec![vec![0xff, b'.', b'r', b's']],
        name: vec![0xff, b'.', b'r', b's'],
        is_file: true,
    };
    assert_eq!(module_label(&broken), "<unknown>");
}

#[test]
fn unreadable_files_and_helpers_add_nothing() {
    let calls = || calls_of("fn f() { g(); }");
    let files = vec![
        TreeFile { entry: entry(&["bad.rs"], true), functions: None },
        TreeFile { entry: entry(&["helpers", "h.rs"], true), functions: Some(calls()) },
        TreeFile { entry: entry(&["notes.txt"], true), functions: Some(calls()) },
        TreeFile { entry: entry(&["b.rs"], true), functions: Some(calls()) },
        TreeFile { entry: entry(&["a.rs"], true), functions: Some(calls()) },
    ];
    let out = walk_shim_src(files, &Vec::new());
    let modules: Vec<&str> = out.iter().map(|w| w.caller_module.as_str()).collect();
    assert_eq!(modules, vec!["b", "a"]);
}

#[test]
fn standard_layout_is_src_and_helpers() {
    let (src, helpers) = standard_source_layout(Path::new("/x/shim"));
    assert_eq!(src, Path::new("/x/shim/src"));
    assert_eq!(helpers, Path::new("/x/shim/src/helpers"));
}

#[test]
fn owners_are_found_in_the_table() {
    let r = StaticOwnerResolver {
        src_root: Path::new("/x/src").to_path_buf(),
        entries: vec![
            ("a", "one.rs"),
            ("b", "sub/two.rs"),
            ("a", "three.rs"),
            ("dot", "./x//./y.rs"),
            ("up", "../z.rs"),
            ("root", ""),
        ],
    };
    assert_eq!(r.owner_file("a").unwrap(), Path::new("/x/src/one.rs"));
    assert_eq!(r.owner_file("b").unwrap(), Path::new("/x/src/sub/two.rs"));
    assert!(r.owner_file("A").is_none());
    assert_eq!(r.owner_file("dot").unwrap(), Path::new("/x/src/x/y.rs"));
    assert_eq!(r.owner_file("up").unwrap(), Path::new("/x/src/../z.rs"));
    assert_eq!(r.owner_file("root").unwrap(), Path::new("/x/src"));
    assert_eq!(r.known_interfaces(), vec!["a", "b", "a", "dot", "up", "root"]);
}

#[test]
fn owner_paths_are_joined_paths() {
    let roots = ["/x", "", ".", "/", "//server/share", "//server", "C:", "\\", "a b"];
    let rels = ["y.rs", "", ".", "./y.rs", "../y.rs", "/abs/y.rs", "/", "d/e:f.rs", "c:y", "p\\q"];
    for root in roots {
        for rel in rels {
            let r = StaticOwnerResolver {
                src_root: Path::new(root).to_path_buf(),
                entries: vec![("other", "no.rs"), ("it", rel), ("it", "late.rs")],
            };
            let expected = Path::new(root).join(rel);
            assert_eq!(r.owner_file("it").unwrap().as_os_str(), expected.as_os_str());
        }
    }
    let at = |root: &str, rel: &'static str| {
        StaticOwnerResolver { src_root: Path::new(root).to_path_buf(), entries: vec![("it", rel)] }
            .owner_file("it")
            .unwrap()
    };
    assert_eq!(at("/x", "/abs/./y.rs"), Path::new("/abs/y.rs"));
    assert_eq!(at("", "./y.rs"), Path::new("./y.rs"));
    assert_eq!(at("//server/share", "d/y.rs"), Path::new("//server/share/d/y.rs"));
    assert_eq!(at("/x", "d/e:f.rs"), Path::new("/x/d/e:f.rs"));
}
