//! Call edges: what the functions of a shim call, as far as the source text
//! shows it.
use vstd::prelude::*;
use vstd::string::StringExecFns;

use crate::paths::{joined_buf, joined_path};
use crate::sources::{is_walked, module_label, SourceEntry};
use crate::syntax::{SourceCall, SourceExpr, SourcePath};
use crate::text::{characters, copies, is_white_space, lists, str_eq};

verus! {

// ---------------------------------------------------------------------------
// Edges
// ---------------------------------------------------------------------------

/// How a callee is reached.
#[derive(Debug, Clone, Copy, PartialEq, Eq, Structural)]
pub enum EdgeKind {
    Call,
    CallMethod,
    Macro,
    Indirect,
}

impl EdgeKind {
    /// The name of the kind.
    pub open spec fn text(self) -> Seq<char> {
        match self {
            EdgeKind::Call => "call"@,
            EdgeKind::CallMethod => "call_method"@,
            EdgeKind::Macro => "macro"@,
            EdgeKind::Indirect => "indirect"@,
        }
    }

    /// The name of the kind.
    pub fn as_str(self) -> (r: &'static str)
        ensures
            r@ == self.text(),
    {
        match self {
            EdgeKind::Call => "call",
            EdgeKind::CallMethod => "call_method",
            EdgeKind::Macro => "macro",
            EdgeKind::Indirect => "indirect",
        }
    }
}

/// Kinds have different names.
pub proof fn edge_kind_names_differ(a: EdgeKind, b: EdgeKind)
    ensures
        a.text() == b.text() ==> a == b,
{
    reveal_strlit("call");
    reveal_strlit("call_method");
    reveal_strlit("macro");
    reveal_strlit("indirect");
    assert("call"@.len() == 4);
    assert("call_method"@.len() == 11);
    assert("macro"@.len() == 5);
    assert("indirect"@.len() == 8);
}

/// One call that a function makes.
#[derive(Debug, Clone)]
pub struct Edge {
    pub callee_name: String,
    pub edge_kind: EdgeKind,
    pub source_hint: String,
}

/// An [`Edge`], by its texts.
pub struct EdgeModel {
    pub callee: Seq<char>,
    pub kind: EdgeKind,
    pub hint: Seq<char>,
}

impl View for Edge {
    type V = EdgeModel;

    open spec fn view(&self) -> EdgeModel {
        EdgeModel {
            callee: self.callee_name@,
            kind: self.edge_kind,
            hint: self.source_hint@,
        }
    }
}

/// Edges, by their texts.
pub open spec fn edge_models(edges: Seq<Edge>) -> Seq<EdgeModel> {
    edges.map_values(|e: Edge| e@)
}

/// A function with the calls that it makes.
#[derive(Debug, Clone)]
pub struct WalkedFn {
    pub caller_module: String,
    pub caller_name: String,
    pub edges: Vec<Edge>,
}

/// A [`WalkedFn`], by its texts.
pub struct WalkedModel {
    pub module: Seq<char>,
    pub name: Seq<char>,
    pub edges: Seq<EdgeModel>,
}

impl View for WalkedFn {
    type V = WalkedModel;

    open spec fn view(&self) -> WalkedModel {
        WalkedModel {
            module: self.caller_module@,
            name: self.caller_name@,
            edges: edge_models(self.edges@),
        }
    }
}

/// Walked functions, by their texts.
pub open spec fn walked_models(walked: Seq<WalkedFn>) -> Seq<WalkedModel> {
    walked.map_values(|w: WalkedFn| w@)
}

// ---------------------------------------------------------------------------
// Texts of paths and expressions
// ---------------------------------------------------------------------------

/// A path as it is written, without generic arguments.
pub open spec fn path_text(p: crate::syntax::PathTree) -> Seq<char> {
    let parts = if p.leading_colon {
        seq![Seq::<char>::empty()] + p.segments
    } else {
        p.segments
    };
    crate::text::joined(parts, "::"@)
}

/// The last segment of a path.
pub open spec fn last_segment_text(p: crate::syntax::PathTree) -> Seq<char> {
    if p.segments.len() == 0 {
        "<empty>"@
    } else {
        p.segments.last()
    }
}

/// An expression, roughly as it is written: paths, fields and methods show;
/// arguments and any other expression do not.
pub open spec fn expr_text(e: crate::syntax::ExprTree) -> Seq<char>
    decreases e,
{
    match e {
        crate::syntax::ExprTree::Path(p) => path_text(p),
        crate::syntax::ExprTree::Field(base, member) => expr_text(*base) + "."@ + member,
        crate::syntax::ExprTree::MethodCall(receiver, method) => expr_text(*receiver) + "."@
            + method,
        crate::syntax::ExprTree::Call(func) => expr_text(*func),
        crate::syntax::ExprTree::Other => "<expr>"@,
    }
}

/// A path as it is written, without generic arguments.
pub fn quote_path(p: &SourcePath) -> (r: String)
    ensures
        r@ == path_text(p@),
{
    let mut parts: Vec<String> = Vec::new();
    if p.leading_colon {
        parts.push(String::new());
    }
    let ghost lead = crate::text::texts(parts@);
    let mut i: usize = 0;
    while i < p.segments.len()
        invariant
            i <= p.segments@.len(),
            crate::text::texts(parts@) == lead + p@.segments.take(i as int),
        decreases p.segments@.len() - i,
    {
        let ghost before = crate::text::texts(parts@);
        parts.push(p.segments[i].clone());
        assert(crate::text::texts(parts@) =~= before.push(p@.segments[i as int]));
        i += 1;
        assert(crate::text::texts(parts@) =~= lead + p@.segments.take(i as int));
    }
    assert(crate::text::texts(parts@) =~= if p.leading_colon {
        seq![Seq::<char>::empty()] + p@.segments
    } else {
        p@.segments
    });
    crate::text::join(&parts, "::")
}

/// The last segment of a path.
pub fn last_segment(p: &SourcePath) -> (r: String)
    ensures
        r@ == last_segment_text(p@),
{
    let n: usize = p.segments.len();
    if n == 0 {
        "<empty>".to_owned()
    } else {
        p.segments[n - 1].clone()
    }
}

/// An expression, roughly as it is written.
pub fn quote_expr(e: &SourceExpr) -> (r: String)
    ensures
        r@ == expr_text(crate::syntax::tree_of(*e)),
    decreases e,
{
    match e {
        SourceExpr::Path(p) => quote_path(p),
        SourceExpr::Field(base, member) => {
            let mut out = quote_expr(base);
            out.append(".");
            out.append(member.as_str());
            out
        },
        SourceExpr::MethodCall(receiver, method) => {
            let mut out = quote_expr(receiver);
            out.append(".");
            out.append(method.as_str());
            out
        },
        SourceExpr::Call(func) => quote_expr(func),
        SourceExpr::Other => "<expr>".to_owned(),
    }
}

/// The text up to its first white space.
pub open spec fn up_to_space(s: Seq<char>) -> Seq<char>
    decreases s.len(),
{
    if s.len() == 0 || crate::text::white_space(s[0]) {
        Seq::empty()
    } else {
        seq![s[0]] + up_to_space(s.drop_first())
    }
}

/// The first word of a text, or `<indirect>` if there is none.
pub open spec fn indirect_name(s: Seq<char>) -> Seq<char> {
    let word = up_to_space(crate::text::trim_start(s));
    if word.len() == 0 {
        "<indirect>"@
    } else {
        word
    }
}

/// The first word of a text, or `<indirect>` if there is none.
fn first_word(s: &str) -> (r: String)
    ensures
        r@ == indirect_name(s@),
{
    let chars = characters(s);
    let mut i: usize = 0;
    assert(chars@.skip(0) =~= chars@);
    while i < chars.len() && is_white_space(chars[i])
        invariant
            i <= chars@.len(),
            crate::text::trim_start(chars@) == crate::text::trim_start(chars@.skip(i as int)),
        decreases chars@.len() - i,
    {
        assert(chars@.skip(i as int).drop_first() =~= chars@.skip(i + 1));
        i += 1;
    }
    let ghost rest = chars@.skip(i as int);
    assert(i < chars@.len() ==> rest[0] == chars@[i as int]);
    let ghost word = up_to_space(rest);
    let mut out = String::new();
    assert(out@ + up_to_space(rest) =~= word);
    while i < chars.len() && !is_white_space(chars[i])
        invariant
            i <= chars@.len(),
            out@ + up_to_space(chars@.skip(i as int)) == word,
        decreases chars@.len() - i,
    {
        let ghost before = out@;
        let ghost left = chars@.skip(i as int);
        assert(left[0] == chars@[i as int]);
        assert(left.drop_first() =~= chars@.skip(i + 1));
        out.push(chars[i]);
        i += 1;
        assert(out@ + up_to_space(chars@.skip(i as int)) =~= before + up_to_space(left));
    }
    assert(i < chars@.len() ==> chars@.skip(i as int)[0] == chars@[i as int]);
    assert(up_to_space(chars@.skip(i as int)) =~= Seq::empty());
    assert(out@ =~= word);
    if out.as_str().is_empty() {
        "<indirect>".to_owned()
    } else {
        out
    }
}

// ---------------------------------------------------------------------------
// Collecting
// ---------------------------------------------------------------------------

/// A text starts with `Self::`.
pub open spec fn starts_with_self(s: Seq<char>) -> bool {
    s.len() >= "Self::"@.len() && s.take("Self::"@.len() as int) == "Self::"@
}

/// The edge that a call makes. A name that stands alone is taken for a helper
/// if there is a helper of that name.
pub open spec fn edge_of(
    call: crate::syntax::CallTree,
    helpers: Seq<Seq<char>>,
) -> EdgeModel {
    match call {
        crate::syntax::CallTree::Function(crate::syntax::ExprTree::Path(p)) => {
            let text = path_text(p);
            let last = last_segment_text(p);
            EdgeModel {
                callee: last,
                kind: EdgeKind::Call,
                hint: if !starts_with_self(text) && p.segments.len() == 1 {
                    if helpers.contains(last) {
                        "helpers::"@ + last
                    } else {
                        last
                    }
                } else {
                    text
                },
            }
        },
        crate::syntax::CallTree::Function(e) => EdgeModel {
            callee: indirect_name(expr_text(e)),
            kind: EdgeKind::Indirect,
            hint: expr_text(e),
        },
        crate::syntax::CallTree::Method(receiver, method) => EdgeModel {
            callee: method,
            kind: EdgeKind::CallMethod,
            hint: expr_text(receiver) + "."@ + method,
        },
        crate::syntax::CallTree::Macro(p) => EdgeModel {
            callee: last_segment_text(p),
            kind: EdgeKind::Macro,
            hint: path_text(p) + "!"@,
        },
    }
}

/// Edges with one more, unless it is among them already.
pub open spec fn with_edge(edges: Seq<EdgeModel>, e: EdgeModel) -> Seq<EdgeModel> {
    if edges.contains(e) {
        edges
    } else {
        edges.push(e)
    }
}

/// The edges of a list of calls, each once, in the order of their first calls.
pub open spec fn edges_of(
    calls: Seq<crate::syntax::CallTree>,
    helpers: Seq<Seq<char>>,
) -> Seq<EdgeModel>
    decreases calls.len(),
{
    if calls.len() == 0 {
        Seq::empty()
    } else {
        with_edge(edges_of(calls.drop_last(), helpers), edge_of(calls.last(), helpers))
    }
}

/// Gathers the edges of one function.
pub struct EdgeCollector {
    helpers: Vec<String>,
    edges: Vec<Edge>,
}

impl EdgeCollector {
    /// The names of the helpers.
    pub closed spec fn helpers(&self) -> Seq<Seq<char>> {
        crate::text::texts(self.helpers@)
    }

    /// The edges so far.
    pub closed spec fn edges(&self) -> Seq<EdgeModel> {
        edge_models(self.edges@)
    }

    /// No edge occurs twice.
    pub open spec fn well_formed(&self) -> bool {
        self.edges().no_duplicates()
    }

    /// A collector without edges.
    pub fn new(helpers: Vec<String>) -> (r: Self)
        ensures
            r.well_formed(),
            r.helpers() == crate::text::texts(helpers@),
            r.edges() == Seq::<EdgeModel>::empty(),
    {
        let r = EdgeCollector { helpers, edges: Vec::new() };
        assert(r.edges() =~= Seq::<EdgeModel>::empty());
        r
    }

    /// Adds an edge, unless it is there already.
    pub fn push(&mut self, callee: String, kind: EdgeKind, hint: String)
        requires
            old(self).well_formed(),
        ensures
            final(self).well_formed(),
            final(self).helpers() == old(self).helpers(),
            final(self).edges() == with_edge(
                old(self).edges(),
                (EdgeModel { callee: callee@, kind, hint: hint@ }),
            ),
    {
        let ghost before = self.edges();
        let ghost added = EdgeModel { callee: callee@, kind, hint: hint@ };
        let mut i: usize = 0;
        while i < self.edges.len()
            invariant
                *self == *old(self),
                self.well_formed(),
                before == edge_models(self.edges@),
                i <= self.edges@.len(),
                added == (EdgeModel { callee: callee@, kind, hint: hint@ }),
                forall|j: int| 0 <= j < i ==> #[trigger] before[j] != added,
            decreases self.edges@.len() - i,
        {
            if self.edges[i].edge_kind == kind && str_eq(
                self.edges[i].callee_name.as_str(),
                callee.as_str(),
            ) && str_eq(self.edges[i].source_hint.as_str(), hint.as_str()) {
                assert(before[i as int] == added);
                assert(before.contains(added));
                return;
            }
            assert(before[i as int] == self.edges@[i as int]@);
            i += 1;
        }
        assert(!before.contains(added));
        self.edges.push(Edge { callee_name: callee, edge_kind: kind, source_hint: hint });
        assert(self.edges() =~= before.push(added));
    }

    /// Adds the edge of a call of what an expression stands for.
    pub fn visit_expr_call(&mut self, func: &SourceExpr)
        requires
            old(self).well_formed(),
        ensures
            final(self).well_formed(),
            final(self).helpers() == old(self).helpers(),
            final(self).edges() == with_edge(
                old(self).edges(),
                edge_of(
                    crate::syntax::CallTree::Function(crate::syntax::tree_of(*func)),
                    old(self).helpers(),
                ),
            ),
    {
        match func {
            SourceExpr::Path(p) => {
                let text = quote_path(p);
                let last = last_segment(p);
                if !has_self_prefix(text.as_str()) && p.segments.len() == 1 {
                    let hint = if lists(self.helpers.as_slice(), last.as_str()) {
                        let mut h = "helpers::".to_owned();
                        h.append(last.as_str());
                        h
                    } else {
                        last.clone()
                    };
                    self.push(last, EdgeKind::Call, hint);
                } else {
                    self.push(last, EdgeKind::Call, text);
                }
            },
            _ => {
                let hint = quote_expr(func);
                let name = first_word(hint.as_str());
                self.push(name, EdgeKind::Indirect, hint);
            },
        }
    }

    /// Adds the edge of a method call.
    pub fn visit_expr_method_call(&mut self, receiver: &SourceExpr, method: &str)
        requires
            old(self).well_formed(),
        ensures
            final(self).well_formed(),
            final(self).helpers() == old(self).helpers(),
            final(self).edges() == with_edge(
                old(self).edges(),
                edge_of(
                    crate::syntax::CallTree::Method(crate::syntax::tree_of(*receiver), method@),
                    old(self).helpers(),
                ),
            ),
    {
        let mut hint = quote_expr(receiver);
        hint.append(".");
        hint.append(method);
        self.push(method.to_owned(), EdgeKind::CallMethod, hint);
    }

    /// Adds the edge of a macro, used as an expression or as a statement.
    pub fn visit_macro(&mut self, path: &SourcePath)
        requires
            old(self).well_formed(),
        ensures
            final(self).well_formed(),
            final(self).helpers() == old(self).helpers(),
            final(self).edges() == with_edge(
                old(self).edges(),
                edge_of(crate::syntax::CallTree::Macro(path@), old(self).helpers()),
            ),
    {
        let mut hint = quote_path(path);
        hint.append("!");
        self.push(last_segment(path), EdgeKind::Macro, hint);
    }

    /// Adds the edge of a call.
    pub fn visit(&mut self, call: &SourceCall)
        requires
            old(self).well_formed(),
        ensures
            final(self).well_formed(),
            final(self).helpers() == old(self).helpers(),
            final(self).edges() == with_edge(
                old(self).edges(),
                edge_of(call@, old(self).helpers()),
            ),
    {
        match call {
            SourceCall::Function(func) => self.visit_expr_call(func),
            SourceCall::Method(receiver, method) => self.visit_expr_method_call(
                receiver,
                method.as_str(),
            ),
            SourceCall::Macro(path) => self.visit_macro(path),
        }
    }

    /// The edges.
    pub fn into_edges(self) -> (r: Vec<Edge>)
        ensures
            edge_models(r@) == self.edges(),
    {
        self.edges
    }
}

/// Whether a text starts with `Self::`.
fn has_self_prefix(s: &str) -> (r: bool)
    ensures
        r == starts_with_self(s@),
{
    let chars = characters(s);
    let prefix = characters("Self::");
    if chars.len() < prefix.len() {
        return false;
    }
    let mut i: usize = 0;
    while i < prefix.len()
        invariant
            chars@ == s@,
            prefix@ == "Self::"@,
            chars@.len() >= prefix@.len(),
            i <= prefix@.len(),
            forall|j: int| 0 <= j < i ==> chars@[j] == prefix@[j],
        decreases prefix@.len() - i,
    {
        if chars[i] != prefix[i] {
            assert(s@.take("Self::"@.len() as int)[i as int] != "Self::"@[i as int]);
            return false;
        }
        i += 1;
    }
    assert(s@.take("Self::"@.len() as int) =~= "Self::"@);
    true
}

// ---------------------------------------------------------------------------
// Functions of a file
// ---------------------------------------------------------------------------

/// A function with the calls that were met in its body, in order.
#[derive(Debug)]
pub struct FnCalls {
    pub name: String,
    pub calls: Vec<SourceCall>,
}

/// The calls of a function, as trees.
pub open spec fn call_trees(calls: Seq<SourceCall>) -> Seq<crate::syntax::CallTree> {
    calls.map_values(|c: SourceCall| c@)
}

/// The functions of a file, each with the edges of its calls; a function that
/// calls nothing has none.
pub open spec fn walked_in(
    module: Seq<char>,
    fns: Seq<FnCalls>,
    helpers: Seq<Seq<char>>,
) -> Seq<WalkedModel> {
    fns.map_values(
        |f: FnCalls|
            WalkedModel {
                module,
                name: f.name@,
                edges: edges_of(call_trees(f.calls@), helpers),
            },
    )
}

/// The edges of a list of calls.
fn collect_edges(calls: &Vec<SourceCall>, helpers: &Vec<String>) -> (r: Vec<Edge>)
    ensures
        edge_models(r@) == edges_of(call_trees(calls@), crate::text::texts(helpers@)),
{
    let ghost known = crate::text::texts(helpers@);
    let ghost trees = call_trees(calls@);
    let mut collector = EdgeCollector::new(copies(helpers.as_slice()));
    let mut i: usize = 0;
    while i < calls.len()
        invariant
            trees == call_trees(calls@),
            i <= calls@.len(),
            collector.well_formed(),
            collector.helpers() == known,
            collector.edges() == edges_of(trees.take(i as int), known),
        decreases calls@.len() - i,
    {
        assert(trees.take(i + 1).drop_last() =~= trees.take(i as int));
        assert(trees.take(i + 1).last() == calls@[i as int]@);
        collector.visit(&calls[i]);
        i += 1;
    }
    assert(trees.take(i as int) =~= trees);
    collector.into_edges()
}

/// The functions of a file, each with the edges of its calls.
pub fn walk_functions(module: &str, fns: Vec<FnCalls>, helpers: &Vec<String>) -> (r: Vec<WalkedFn>)
    ensures
        walked_models(r@) == walked_in(module@, fns@, crate::text::texts(helpers@)),
{
    let ghost shown = walked_in(module@, fns@, crate::text::texts(helpers@));
    let mut out: Vec<WalkedFn> = Vec::new();
    for f in it: fns
        invariant
            it.seq() == fns@,
            shown == walked_in(module@, fns@, crate::text::texts(helpers@)),
            out@.len() == it.index(),
            forall|j: int| 0 <= j < it.index() ==> (#[trigger] out@[j])@ == shown[j],
    {
        let edges = collect_edges(&f.calls, helpers);
        out.push(WalkedFn { caller_module: module.to_owned(), caller_name: f.name, edges });
    }
    assert(walked_models(out@) =~= shown);
    out
}

// ---------------------------------------------------------------------------
// Source trees
// ---------------------------------------------------------------------------

/// A file of a source tree with the functions that were found in it; `None` if
/// it could not be read, or is not Rust.
#[derive(Debug)]
pub struct TreeFile {
    pub entry: SourceEntry,
    pub functions: Option<Vec<FnCalls>>,
}

/// What one file of a source tree adds: the functions of a Rust source outside
/// the directory of the helpers, under the module that the file stands for.
pub open spec fn walked_file(f: TreeFile, helpers: Seq<Seq<char>>) -> Seq<WalkedModel> {
    match f.functions {
        Some(fns) => if crate::sources::rust_source(f.entry) && !crate::sources::under_helpers(
            f.entry,
        ) {
            walked_in(crate::sources::module_text(f.entry.name@), fns@, helpers)
        } else {
            Seq::empty()
        },
        None => Seq::empty(),
    }
}

/// What the files of a source tree add, in order.
pub open spec fn walked_tree(files: Seq<TreeFile>, helpers: Seq<Seq<char>>) -> Seq<WalkedModel>
    decreases files.len(),
{
    if files.len() == 0 {
        Seq::empty()
    } else {
        walked_tree(files.drop_last(), helpers) + walked_file(files.last(), helpers)
    }
}

/// One entry for each function of a source tree, with the edges of its calls,
/// file by file. Files that could not be read or parsed add nothing.
pub fn walk_shim_src(files: Vec<TreeFile>, helpers: &Vec<String>) -> (r: Vec<WalkedFn>)
    ensures
        walked_models(r@) == walked_tree(files@, crate::text::texts(helpers@)),
{
    let ghost known = crate::text::texts(helpers@);
    let mut out: Vec<WalkedFn> = Vec::new();
    assert(walked_models(out@) =~= Seq::<WalkedModel>::empty());
    for f in it: files
        invariant
            it.seq() == files@,
            known == crate::text::texts(helpers@),
            walked_models(out@) == walked_tree(files@.take(it.index() as int), known),
    {
        let ghost before = out@;
        let ghost file = f;
        assert(files@.take(it.index() + 1).drop_last() =~= files@.take(it.index() as int));
        if is_walked(&f.entry) {
            if let Some(fns) = f.functions {
                let module = module_label(&f.entry);
                let mut walked = walk_functions(module.as_str(), fns, helpers);
                let ghost added = walked@;
                out.append(&mut walked);
                assert(walked_models(out@) =~= walked_models(before) + walked_models(added));
            }
        }
        assert(walked_models(out@) =~= walked_models(before) + walked_file(file, known));
    }
    assert(files@.take(files@.len() as int) =~= files@);
    out
}

/// The directory of the sources and the directory of the helpers in the usual
/// layout of a shim: `src` and `src/helpers` below its root. The components are
/// stated for every root that all platforms read alike.
pub fn standard_source_layout(shim_root: &std::path::Path) -> (r: (
    std::path::PathBuf,
    std::path::PathBuf,
))
    ensures
        crate::paths::joins(shim_root, "src", r.0),
        crate::paths::buf_joins(r.0, "helpers", r.1),
        crate::paths::portable_base(crate::paths::path_bytes(shim_root))
            && crate::paths::path_bytes(shim_root) != seq![92u8] ==> {
            &&& crate::paths::path_buf_components(r.0) == crate::paths::path_components(shim_root)
                + crate::paths::name_components(seq!["src"@])
            &&& crate::paths::path_buf_components(r.1) == crate::paths::path_components(shim_root)
                + crate::paths::name_components(seq!["src"@, "helpers"@])
        },
{
    proof {
        reveal_strlit("src");
        reveal_strlit("helpers");
        lemma_one_name("src"@);
        lemma_one_name("helpers"@);
    }
    let src = joined_path(shim_root, "src");
    let helpers = joined_buf(&src, "helpers");
    assert(crate::paths::name_components(seq!["src"@]) + crate::paths::name_components(
        seq!["helpers"@],
    ) =~= crate::paths::name_components(seq!["src"@, "helpers"@]));
    assert(crate::paths::path_components(shim_root) + crate::paths::name_components(seq!["src"@])
        + crate::paths::name_components(seq!["helpers"@]) =~= crate::paths::path_components(
        shim_root,
    ) + crate::paths::name_components(seq!["src"@, "helpers"@]));
    (src, helpers)
}

/// A name of several characters without slashes names one component.
proof fn lemma_one_name(s: Seq<char>)
    requires
        s.len() > 1,
        forall|i: int| 0 <= i < s.len() ==> #[trigger] s[i] != '/',
    ensures
        crate::paths::segments(s) == seq![s],
        crate::paths::named_segments(crate::paths::segments(s)) == seq![s],
        s != seq!['.'],
{
    crate::paths::lemma_one_segment(s);
    let parts = seq![s];
    assert(s != seq!['.']) by {
        assert(seq!['.'].len() == 1);
    }
    assert(parts.last() == s);
    assert(parts.drop_last() =~= Seq::empty());
    assert(crate::paths::named_segments(parts.drop_last()) =~= Seq::empty());
    assert(crate::paths::named_segments(parts) =~= parts);
}

// ---------------------------------------------------------------------------
// Laws
// ---------------------------------------------------------------------------

/// Every call has its edge, every edge comes from a call, and no edge occurs
/// twice.
pub proof fn edges_are_those_of_the_calls(
    calls: Seq<crate::syntax::CallTree>,
    helpers: Seq<Seq<char>>,
)
    ensures
        edges_of(calls, helpers).no_duplicates(),
        forall|i: int|
            0 <= i < calls.len() ==> edges_of(calls, helpers).contains(
                edge_of(#[trigger] calls[i], helpers),
            ),
        forall|e: EdgeModel| #[trigger]
            edges_of(calls, helpers).contains(e) ==> exists|i: int|
                0 <= i < calls.len() && edge_of(#[trigger] calls[i], helpers) == e,
    decreases calls.len(),
{
    if calls.len() > 0 {
        let front = calls.drop_last();
        edges_are_those_of_the_calls(front, helpers);
        let before = edges_of(front, helpers);
        let after = edges_of(calls, helpers);
        let added = edge_of(calls.last(), helpers);
        assert(after.contains(added)) by {
            if !before.contains(added) {
                assert(after[before.len() as int] == added);
            }
        }
        assert forall|i: int| 0 <= i < calls.len() implies after.contains(
            edge_of(#[trigger] calls[i], helpers),
        ) by {
            if i < front.len() {
                assert(front[i] == calls[i]);
                let e = edge_of(front[i], helpers);
                assert(before.contains(e));
                let k = choose|k: int| 0 <= k < before.len() && before[k] == e;
                assert(after[k] == e);
            }
        }
        assert forall|e: EdgeModel| #[trigger] after.contains(e) implies exists|i: int|
            0 <= i < calls.len() && edge_of(#[trigger] calls[i], helpers) == e by {
            if e == added {
                assert(edge_of(calls[calls.len() - 1], helpers) == e);
            } else {
                let k = choose|k: int| 0 <= k < after.len() && after[k] == e;
                assert(before[k] == e);
                assert(before.contains(e));
                let i = choose|i: int|
                    0 <= i < front.len() && edge_of(#[trigger] front[i], helpers) == e;
                assert(edge_of(calls[i], helpers) == e);
            }
        }
    }
}

/// Repeating calls that were met before adds nothing.
pub proof fn repeated_calls_add_nothing(
    calls: Seq<crate::syntax::CallTree>,
    again: crate::syntax::CallTree,
    helpers: Seq<Seq<char>>,
)
    requires
        calls.contains(again),
    ensures
        edges_of(calls.push(again), helpers) == edges_of(calls, helpers),
{
    edges_are_those_of_the_calls(calls, helpers);
    let i = choose|i: int| 0 <= i < calls.len() && calls[i] == again;
    assert(edges_of(calls, helpers).contains(edge_of(calls[i], helpers)));
    assert(calls.push(again).drop_last() =~= calls);
}

/// A text is another with something in front.
pub open spec fn ends_with(text: Seq<char>, end: Seq<char>) -> bool {
    exists|front: Seq<char>| text == #[trigger] (front + end)
}

/// A path is written with two colons between its segments, and with two in front
/// if it has a leading pair.
pub proof fn paths_are_written_with_colons(
    segments: Seq<Seq<char>>,
    more: Seq<char>,
    leading_colon: bool,
)
    ensures
        segments.len() > 0 ==> path_text(
            (crate::syntax::PathTree { leading_colon, segments: segments.push(more) }),
        ) == path_text((crate::syntax::PathTree { leading_colon, segments })) + "::"@ + more,
        path_text((crate::syntax::PathTree { leading_colon: false, segments: seq![more] })) == more,
        path_text((crate::syntax::PathTree { leading_colon: true, segments: seq![more] })) == "::"@
            + more,
        path_text((crate::syntax::PathTree { leading_colon, segments: Seq::empty() }))
            == Seq::<char>::empty(),
{
    let none = Seq::<char>::empty();
    let lead = seq![none];
    assert(segments.push(more).drop_last() =~= segments);
    assert((lead + segments.push(more)).drop_last() =~= lead + segments);
    assert(seq![more].drop_last() =~= Seq::<Seq<char>>::empty());
    assert((lead + seq![more]).drop_last() =~= lead);
    assert((lead + Seq::<Seq<char>>::empty()) =~= lead);
    assert(crate::text::joined(lead, "::"@) == none);
    assert(none + "::"@ =~= "::"@);
    reveal_with_fuel(crate::text::joined, 2);
}

proof fn lemma_path_ends(p: crate::syntax::PathTree)
    requires
        p.segments.len() > 0,
    ensures
        ends_with(path_text(p), p.segments.last()),
{
    let front = p.segments.drop_last();
    let last = p.segments.last();
    assert(front.push(last) =~= p.segments);
    paths_are_written_with_colons(front, last, p.leading_colon);
    if front.len() > 0 {
        assert(path_text(p) == (path_text(
            (crate::syntax::PathTree { leading_colon: p.leading_colon, segments: front }),
        ) + "::"@) + last);
    } else {
        assert(p.segments =~= seq![last]);
        if p.leading_colon {
            assert(path_text(p) == "::"@ + last);
        } else {
            assert(path_text(p) =~= Seq::<char>::empty() + last);
        }
    }
}

/// The edge of a call through a path names the last segment of the path, however
/// many segments there are and whatever the first one is. No name of a callee
/// holds a colon unless a segment does. The hint ends in the name; of a path of
/// several segments it is the path as it is written.
pub proof fn path_calls_name_their_last_segment(
    p: crate::syntax::PathTree,
    helpers: Seq<Seq<char>>,
)
    requires
        p.segments.len() > 0,
    ensures
        ({
            let e = edge_of(
                crate::syntax::CallTree::Function(crate::syntax::ExprTree::Path(p)),
                helpers,
            );
            &&& e.kind is Call
            &&& e.callee == p.segments[p.segments.len() - 1]
            &&& (forall|i: int|
                0 <= i < p.segments.len() ==> !(#[trigger] p.segments[i]).contains(':'))
                ==> !e.callee.contains(':')
            &&& ends_with(e.hint, e.callee)
            &&& p.segments.len() > 1 ==> e.hint == path_text(p)
        }),
{
    let e = edge_of(crate::syntax::CallTree::Function(crate::syntax::ExprTree::Path(p)), helpers);
    lemma_path_ends(p);
    if p.segments.len() == 1 {
        assert(e.callee =~= Seq::<char>::empty() + e.callee);
        assert(e.hint == "helpers::"@ + e.callee || e.hint == Seq::<char>::empty() + e.callee
            || e.hint == path_text(p));
    }
}

/// A name that stands alone is marked as a helper exactly if a helper has that
/// name; the mark is all that the helpers change.
pub proof fn only_bare_names_are_helpers(
    name: Seq<char>,
    helpers: Seq<Seq<char>>,
    call: crate::syntax::CallTree,
)
    requires
        !ends_with_self(name),
    ensures
        ({
            let bare = crate::syntax::CallTree::Function(
                crate::syntax::ExprTree::Path(
                    (crate::syntax::PathTree { leading_colon: false, segments: seq![name] }),
                ),
            );
            &&& edge_of(bare, helpers).hint == if exists|i: int|
                0 <= i < helpers.len() && #[trigger] helpers[i] == name {
                "helpers::"@ + name
            } else {
                name
            }
        }),
        edge_of(call, helpers).callee == edge_of(call, Seq::empty()).callee,
        edge_of(call, helpers).kind == edge_of(call, Seq::empty()).kind,
        edge_of(call, helpers).hint != edge_of(call, Seq::empty()).hint ==> edge_of(
            call,
            helpers,
        ).hint == "helpers::"@ + edge_of(call, helpers).callee && helpers.contains(
            edge_of(call, helpers).callee,
        ),
{
    let segments = seq![name];
    let p = crate::syntax::PathTree { leading_colon: false, segments };
    paths_are_written_with_colons(Seq::empty(), name, false);
    assert(path_text(p) == name);
    if starts_with_self(name) {
        assert(name == "Self::"@ + name.skip("Self::"@.len() as int)) by {
            assert(name =~= name.take("Self::"@.len() as int) + name.skip(
                "Self::"@.len() as int,
            ));
        }
        assert(ends_with_self(name));
    }
    assert(segments.last() == name);
    assert(helpers.contains(name) <==> exists|i: int|
        0 <= i < helpers.len() && #[trigger] helpers[i] == name);
}

/// A text is one that `Self::` stands in front of.
pub open spec fn ends_with_self(s: Seq<char>) -> bool {
    exists|rest: Seq<char>| s == #[trigger] ("Self::"@ + rest)
}

/// What starts with `Self::` is what `Self::` stands in front of.
pub proof fn self_stands_in_front(s: Seq<char>)
    ensures
        starts_with_self(s) <==> ends_with_self(s),
{
    let n = "Self::"@.len() as int;
    if starts_with_self(s) {
        assert(s =~= "Self::"@ + s.skip(n));
    }
    if ends_with_self(s) {
        let rest = choose|rest: Seq<char>| s == #[trigger] ("Self::"@ + rest);
        assert(s.take(n) =~= "Self::"@);
    }
}

/// The edge of a method call names the method, and that of a macro the last
/// segment of its path; each is of its own kind. The hint shows what the method
/// is called on, or the whole path with an exclamation mark.
pub proof fn methods_and_macros_name_themselves(
    receiver: crate::syntax::ExprTree,
    method: Seq<char>,
    p: crate::syntax::PathTree,
    helpers: Seq<Seq<char>>,
)
    requires
        p.segments.len() > 0,
    ensures
        ({
            let e = edge_of(crate::syntax::CallTree::Method(receiver, method), helpers);
            e.kind is CallMethod && e.callee == method && e.hint == expr_text(
                crate::syntax::ExprTree::Field(Box::new(receiver), method),
            )
        }),
        ({
            let e = edge_of(crate::syntax::CallTree::Macro(p), helpers);
            e.kind is Macro && e.callee == p.segments[p.segments.len() - 1] && e.hint == path_text(
                p,
            ) + "!"@
        }),
{
}

/// A path without segments, which no source has, is named by a placeholder.
pub proof fn empty_paths_have_a_placeholder(leading_colon: bool, helpers: Seq<Seq<char>>)
    ensures
        ({
            let p = crate::syntax::PathTree { leading_colon, segments: Seq::empty() };
            let called = crate::syntax::CallTree::Function(crate::syntax::ExprTree::Path(p));
            &&& edge_of(called, helpers).callee == "<empty>"@
            &&& edge_of(called, helpers).kind is Call
            &&& edge_of(crate::syntax::CallTree::Macro(p), helpers).callee == "<empty>"@
        }),
{
}

/// A call of anything but a path is indirect. Its hint is the expression, and its
/// name is the first word of the hint.
pub proof fn other_calls_are_indirect(e: crate::syntax::ExprTree, helpers: Seq<Seq<char>>)
    requires
        !(e is Path),
    ensures
        ({
            let made = edge_of(crate::syntax::CallTree::Function(e), helpers);
            made.kind is Indirect && made.hint == expr_text(e) && made.callee == indirect_name(
                made.hint,
            )
        }),
{
}

/// Every character of a text is white space.
pub open spec fn is_blank(s: Seq<char>) -> bool {
    forall|i: int| 0 <= i < s.len() ==> crate::text::white_space(#[trigger] s[i])
}

/// No character of a text is white space.
pub open spec fn is_word(s: Seq<char>) -> bool {
    s.len() > 0 && forall|i: int| 0 <= i < s.len() ==> !crate::text::white_space(#[trigger] s[i])
}

proof fn lemma_trim_blank(blank: Seq<char>, rest: Seq<char>)
    requires
        is_blank(blank),
    ensures
        crate::text::trim_start(blank + rest) == crate::text::trim_start(rest),
    decreases blank.len(),
{
    if blank.len() > 0 {
        assert((blank + rest)[0] == blank[0]);
        assert((blank + rest).drop_first() =~= blank.drop_first() + rest);
        lemma_trim_blank(blank.drop_first(), rest);
    } else {
        assert(blank + rest =~= rest);
    }
}

proof fn lemma_up_to_space(word: Seq<char>, rest: Seq<char>)
    requires
        forall|i: int| 0 <= i < word.len() ==> !crate::text::white_space(#[trigger] word[i]),
        rest.len() > 0 ==> crate::text::white_space(rest[0]),
    ensures
        up_to_space(word + rest) == word,
    decreases word.len(),
{
    if word.len() > 0 {
        assert((word + rest)[0] == word[0]);
        assert((word + rest).drop_first() =~= word.drop_first() + rest);
        lemma_up_to_space(word.drop_first(), rest);
        assert(seq![word[0]] + word.drop_first() =~= word);
    } else {
        assert(word + rest =~= rest);
        assert(up_to_space(rest) =~= word);
    }
}

/// An indirect call is named by the first word of its text, whatever white space
/// stands before and whatever comes behind; where there is no word, by a
/// placeholder.
pub proof fn first_words_name_indirect_calls(blank: Seq<char>, word: Seq<char>, rest: Seq<char>)
    requires
        is_blank(blank),
        is_word(word),
        rest.len() > 0 ==> crate::text::white_space(rest[0]),
    ensures
        indirect_name(blank + word + rest) == word,
        indirect_name(blank) == "<indirect>"@,
{
    assert(blank + word + rest =~= blank + (word + rest));
    lemma_trim_blank(blank, word + rest);
    assert((word + rest)[0] == word[0]);
    assert(crate::text::trim_start(word + rest) == word + rest);
    lemma_up_to_space(word, rest);
    let none = Seq::<char>::empty();
    assert(blank + none =~= blank);
    lemma_trim_blank(blank, none);
    assert(crate::text::trim_start(none) =~= none);
}

/// What an expression shows: paths as they are written, fields and methods behind
/// a dot, calls as what is called, and anything else as a placeholder. Arguments
/// never show.
pub proof fn expressions_show_fields_and_methods(
    e: crate::syntax::ExprTree,
    name: Seq<char>,
    p: crate::syntax::PathTree,
)
    ensures
        expr_text(crate::syntax::ExprTree::Path(p)) == path_text(p),
        expr_text(crate::syntax::ExprTree::Field(Box::new(e), name)) == expr_text(e) + "."@ + name,
        expr_text(crate::syntax::ExprTree::MethodCall(Box::new(e), name)) == expr_text(
            crate::syntax::ExprTree::Field(Box::new(e), name),
        ),
        expr_text(crate::syntax::ExprTree::Call(Box::new(e))) == expr_text(e),
        expr_text(crate::syntax::ExprTree::Other) == "<expr>"@,
{
}

/// Edges stay where they are as more calls are met: a new one comes behind.
pub proof fn edges_keep_their_places(
    calls: Seq<crate::syntax::CallTree>,
    more: crate::syntax::CallTree,
    helpers: Seq<Seq<char>>,
)
    ensures
        ({
            let before = edges_of(calls, helpers);
            let after = edges_of(calls.push(more), helpers);
            &&& after.take(before.len() as int) == before
            &&& before.contains(edge_of(more, helpers)) ==> after == before
            &&& !before.contains(edge_of(more, helpers)) ==> after == before.push(
                edge_of(more, helpers),
            )
        }),
        edges_of(Seq::empty(), helpers) == Seq::<EdgeModel>::empty(),
{
    assert(calls.push(more).drop_last() =~= calls);
    let before = edges_of(calls, helpers);
    let after = edges_of(calls.push(more), helpers);
    assert(after.take(before.len() as int) =~= before);
}

/// An edge is that of one of the calls.
pub open spec fn comes_from(
    edge: EdgeModel,
    calls: Seq<SourceCall>,
    helpers: Seq<Seq<char>>,
) -> bool {
    exists|k: int| 0 <= k < calls.len() && edge_of((#[trigger] calls[k])@, helpers) == edge
}

/// Every function of a file has its entry, in order, under the module and its own
/// name. Its edges are those of its own calls, each once: every call has one, and
/// there is no other.
pub proof fn functions_are_walked_one_by_one(
    module: &str,
    fns: Vec<FnCalls>,
    helpers: &Vec<String>,
    r: Vec<WalkedFn>,
)
    requires
        call_ensures(walk_functions, (module, fns, helpers), r),
    ensures
        r@.len() == fns@.len(),
        forall|i: int| #![trigger r@[i]]
            0 <= i < r@.len() ==> r@[i].caller_module@ == module@ && r@[i].caller_name@
                == fns@[i].name@,
        forall|i: int, k: int|
            #![trigger r@[i], fns@[i].calls@[k]]
            0 <= i < r@.len() && 0 <= k < fns@[i].calls@.len() ==> edge_models(
                r@[i].edges@,
            ).contains(edge_of(fns@[i].calls@[k]@, crate::text::texts(helpers@))),
        forall|i: int, j: int|
            #![trigger r@[i].edges@[j]]
            0 <= i < r@.len() && 0 <= j < r@[i].edges@.len() ==> comes_from(
                r@[i].edges@[j]@,
                fns@[i].calls@,
                crate::text::texts(helpers@),
            ),
        forall|i: int| #![trigger r@[i]]
            0 <= i < r@.len() ==> edge_models(r@[i].edges@).no_duplicates(),
{
    let known = crate::text::texts(helpers@);
    let models = walked_models(r@);
    assert(models.len() == r@.len());
    assert forall|i: int| 0 <= i < r@.len() implies #[trigger] r@[i]@ == (WalkedModel {
        module: module@,
        name: fns@[i].name@,
        edges: edges_of(call_trees(fns@[i].calls@), known),
    }) by {
        assert(models[i] == r@[i]@);
    }
    assert forall|i: int, k: int|
        #![trigger r@[i], fns@[i].calls@[k]]
        0 <= i < r@.len() && 0 <= k < fns@[i].calls@.len() implies edge_models(
        r@[i].edges@,
    ).contains(edge_of(fns@[i].calls@[k]@, known)) by {
        let trees = call_trees(fns@[i].calls@);
        edges_are_those_of_the_calls(trees, known);
        assert(trees[k] == fns@[i].calls@[k]@);
        assert(r@[i]@.edges == edge_models(r@[i].edges@));
    }
    assert forall|i: int, j: int|
        #![trigger r@[i].edges@[j]]
        0 <= i < r@.len() && 0 <= j < r@[i].edges@.len() implies comes_from(
        r@[i].edges@[j]@,
        fns@[i].calls@,
        known,
    ) by {
        let trees = call_trees(fns@[i].calls@);
        edges_are_those_of_the_calls(trees, known);
        let edges = edge_models(r@[i].edges@);
        assert(r@[i]@.edges == edges);
        assert(edges[j] == r@[i].edges@[j]@);
        assert(edges_of(trees, known).contains(edges[j]));
        let k = choose|k: int| 0 <= k < trees.len() && edge_of(#[trigger] trees[k], known) == edges[j];
        assert(trees[k] == fns@[i].calls@[k]@);
        assert(edge_of(fns@[i].calls@[k]@, known) == r@[i].edges@[j]@);
    }
    assert forall|i: int| #![trigger r@[i]] 0 <= i < r@.len() implies r@[i].caller_module@
        == module@ && r@[i].caller_name@ == fns@[i].name@ by {
        assert(r@[i]@.module == module@);
    }
    assert forall|i: int| #![trigger r@[i]] 0 <= i < r@.len() implies edge_models(
        r@[i].edges@,
    ).no_duplicates() by {
        edges_are_those_of_the_calls(call_trees(fns@[i].calls@), known);
        assert(r@[i]@.edges == edge_models(r@[i].edges@));
    }
}

/// A tree is walked file by file, in order: a file adds an entry for each of its
/// functions, under the module that it stands for, if it is a Rust source outside
/// the directory of the helpers that could be parsed, and nothing otherwise.
pub proof fn trees_are_walked_file_by_file(
    files: Seq<TreeFile>,
    file: TreeFile,
    helpers: Seq<Seq<char>>,
)
    ensures
        walked_tree(Seq::empty(), helpers) == Seq::<WalkedModel>::empty(),
        ({
            let before = walked_tree(files, helpers);
            let after = walked_tree(files.push(file), helpers);
            let counts = file.functions is Some && crate::sources::rust_source(file.entry)
                && !crate::sources::under_helpers(file.entry);
            let added = if counts {
                file.functions->0@.len()
            } else {
                0
            };
            &&& after.len() == before.len() + added
            &&& after.take(before.len() as int) == before
            &&& forall|k: int| #![trigger after[before.len() + k]]
                0 <= k < added ==> after[before.len() + k].module == crate::sources::module_text(
                    file.entry.name@,
                ) && after[before.len() + k].name == file.functions->0@[k].name@
                    && after[before.len() + k].edges == edges_of(
                    call_trees(file.functions->0@[k].calls@),
                    helpers,
                )
        }),
{
    assert(files.push(file).drop_last() =~= files);
    let before = walked_tree(files, helpers);
    let after = walked_tree(files.push(file), helpers);
    assert(after.take(before.len() as int) =~= before);
}

} // verus!
