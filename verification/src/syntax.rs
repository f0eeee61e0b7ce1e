//! Rust source text as the parts of it that matter for calls: functions, and
//! the expressions that are called.
use vstd::prelude::*;

verus! {

// ---------------------------------------------------------------------------
// Trees
// ---------------------------------------------------------------------------

/// A path: whether it starts with `::`, and its segments without generic
/// arguments.
pub struct PathTree {
    pub leading_colon: bool,
    pub segments: Seq<Seq<char>>,
}

/// An expression, as far as it names what it stands for.
pub enum ExprTree {
    Path(PathTree),
    Field(Box<ExprTree>, Seq<char>),
    MethodCall(Box<ExprTree>, Seq<char>),
    Call(Box<ExprTree>),
    Other,
}

/// A call in the body of a function.
pub enum CallTree {
    /// A call of what an expression stands for.
    Function(ExprTree),
    /// A call of a method on what an expression stands for.
    Method(ExprTree, Seq<char>),
    /// A use of a macro.
    Macro(PathTree),
}

/// A function: its name, whether it is public without restriction, and the
/// calls in its body.
pub struct FnTree {
    pub name: Seq<char>,
    pub public: bool,
    pub calls: Seq<CallTree>,
}

/// An item of a file. An implementation lists its items, the functions among
/// them with their trees; a module without a body has no items to list.
pub enum ItemTree {
    Function(FnTree),
    Impl(Seq<Option<FnTree>>),
    Module(Option<Seq<ItemTree>>),
    Other,
}

// ---------------------------------------------------------------------------
// Plain values
// ---------------------------------------------------------------------------

/// A path as plain values.
#[derive(Clone, Debug)]
pub struct SourcePath {
    pub leading_colon: bool,
    pub segments: Vec<String>,
}

impl View for SourcePath {
    type V = PathTree;

    open spec fn view(&self) -> PathTree {
        PathTree {
            leading_colon: self.leading_colon,
            segments: crate::text::texts(self.segments@),
        }
    }
}

/// An expression as plain values.
#[derive(Debug)]
pub enum SourceExpr {
    Path(SourcePath),
    Field(Box<SourceExpr>, String),
    MethodCall(Box<SourceExpr>, String),
    Call(Box<SourceExpr>),
    Other,
}

/// The tree of an expression.
pub open spec fn tree_of(e: SourceExpr) -> ExprTree
    decreases e,
{
    match e {
        SourceExpr::Path(p) => ExprTree::Path(p@),
        SourceExpr::Field(base, member) => ExprTree::Field(Box::new(tree_of(*base)), member@),
        SourceExpr::MethodCall(receiver, method) => ExprTree::MethodCall(
            Box::new(tree_of(*receiver)),
            method@,
        ),
        SourceExpr::Call(func) => ExprTree::Call(Box::new(tree_of(*func))),
        SourceExpr::Other => ExprTree::Other,
    }
}

/// A call as plain values.
#[derive(Debug)]
pub enum SourceCall {
    Function(SourceExpr),
    Method(SourceExpr, String),
    Macro(SourcePath),
}

impl View for SourceCall {
    type V = CallTree;

    open spec fn view(&self) -> CallTree {
        match *self {
            SourceCall::Function(e) => CallTree::Function(tree_of(e)),
            SourceCall::Method(e, method) => CallTree::Method(tree_of(e), method@),
            SourceCall::Macro(p) => CallTree::Macro(p@),
        }
    }
}

/// A function as plain values, with a body of any kind.
#[derive(Debug)]
pub struct SourceFn<B> {
    pub name: String,
    pub public: bool,
    pub body: B,
}

/// An item of a file as plain values. An implementation lists its items, the
/// functions among them; a module without a body has no items to list.
#[derive(Debug)]
pub enum SourceItem<B> {
    Function(SourceFn<B>),
    Impl(Vec<Option<SourceFn<B>>>),
    Module(Option<Vec<SourceItem<B>>>),
    Other,
}

// ---------------------------------------------------------------------------
// Outside types
// ---------------------------------------------------------------------------

/// A `syn` path is opaque; [`path_tree`] is what it holds.
#[verifier::external_type_specification]
#[verifier::external_body]
pub struct ExSynPath(syn::Path);

/// A `syn` expression is opaque; [`expr_tree`] is what it holds.
#[verifier::external_type_specification]
#[verifier::external_body]
pub struct ExExpr(syn::Expr);

/// A `syn` block is opaque; [`block_calls`] is what it holds.
#[verifier::external_type_specification]
#[verifier::external_body]
pub struct ExBlock(syn::Block);

/// A `syn` item is opaque; [`item_tree`] is what it holds.
#[verifier::external_type_specification]
#[verifier::external_body]
pub struct ExItem(syn::Item);

/// An item of an implementation in `syn` is opaque; [`impl_item_tree`] is what
/// it holds.
#[verifier::external_type_specification]
#[verifier::external_body]
pub struct ExImplItem(syn::ImplItem);

/// The error of `syn` is opaque; [`error_message`] is what it says.
#[verifier::external_type_specification]
#[verifier::external_body]
pub struct ExSynError(syn::Error);

/// The tree of a path.
pub uninterp spec fn path_tree(p: syn::Path) -> PathTree;

/// The tree of an expression.
pub uninterp spec fn expr_tree(e: syn::Expr) -> ExprTree;

/// The calls that a walk through a block meets, in order.
pub uninterp spec fn block_calls(b: syn::Block) -> Seq<CallTree>;

/// The tree of an item.
pub uninterp spec fn item_tree(i: syn::Item) -> ItemTree;

/// The tree of a function of an implementation; nothing for an item of another
/// kind.
pub uninterp spec fn impl_item_tree(i: syn::ImplItem) -> Option<FnTree>;

/// The message of an error.
pub uninterp spec fn error_message(e: syn::Error) -> Seq<char>;

/// What `syn::parse_file` makes of a text: the trees of its items, or the message
/// of its error if the text is not Rust.
pub uninterp spec fn parsed_items(text: Seq<char>) -> Result<Seq<ItemTree>, Seq<char>>;

/// The trees of items.
pub open spec fn item_trees(items: Seq<syn::Item>) -> Seq<ItemTree> {
    items.map_values(|i: syn::Item| item_tree(i))
}

/// The trees of the items of an implementation.
pub open spec fn impl_item_trees(items: Seq<syn::ImplItem>) -> Seq<Option<FnTree>> {
    items.map_values(|i: syn::ImplItem| impl_item_tree(i))
}

/// The tree of a function.
pub open spec fn fn_tree(f: SourceFn<syn::Block>) -> FnTree {
    FnTree { name: f.name@, public: f.public, calls: block_calls(f.body) }
}

/// The trees of functions.
pub open spec fn fn_trees(fns: Seq<SourceFn<syn::Block>>) -> Seq<FnTree> {
    fns.map_values(|f: SourceFn<syn::Block>| fn_tree(f))
}

/// The tree of a function, if it is one.
pub open spec fn optional_fn_tree(f: Option<SourceFn<syn::Block>>) -> Option<FnTree> {
    match f {
        Some(f) => Some(fn_tree(f)),
        None => None,
    }
}

/// The trees of the items of an implementation.
pub open spec fn optional_fn_trees(fns: Seq<Option<SourceFn<syn::Block>>>) -> Seq<Option<FnTree>> {
    fns.map_values(|f: Option<SourceFn<syn::Block>>| optional_fn_tree(f))
}

/// The tree of an item.
pub open spec fn source_tree(i: SourceItem<syn::Block>) -> ItemTree
    decreases i,
{
    match i {
        SourceItem::Function(f) => ItemTree::Function(fn_tree(f)),
        SourceItem::Impl(fns) => ItemTree::Impl(optional_fn_trees(fns@)),
        SourceItem::Module(Some(items)) => ItemTree::Module(Some(source_trees(items@))),
        SourceItem::Module(None) => ItemTree::Module(None),
        SourceItem::Other => ItemTree::Other,
    }
}

/// The trees of items.
pub open spec fn source_trees(items: Seq<SourceItem<syn::Block>>) -> Seq<ItemTree>
    decreases items,
{
    if items.len() == 0 {
        Seq::empty()
    } else {
        source_trees(items.drop_last()).push(source_tree(items.last()))
    }
}

// ---------------------------------------------------------------------------
// Outside calls
// ---------------------------------------------------------------------------

/// An expression, opened by one layer.
enum ExprNode<'a> {
    Path(&'a syn::Path),
    Field(&'a syn::Expr, String),
    MethodCall(&'a syn::Expr, String),
    Call(&'a syn::Expr),
    Other,
}

/// An item, opened by one layer.
enum ItemNode {
    Function(SourceFn<syn::Block>),
    Impl(Vec<syn::ImplItem>),
    Module(Option<Vec<syn::Item>>),
    Other,
}

/// A `syn::Path` has an optional leading `::` and segments, each with an
/// identifier.
#[verifier::external_body]
fn open_path(p: &syn::Path) -> (r: SourcePath)
    ensures
        r@ == path_tree(*p),
{
    SourcePath {
        leading_colon: p.leading_colon.is_some(),
        segments: p.segments.iter().map(|s| s.ident.to_string()).collect(),
    }
}

/// A `syn::Expr` is told apart by its variant. A field is named by its
/// identifier, or by its index in a tuple.
#[verifier::external_body]
fn open_expr<'a>(e: &'a syn::Expr) -> (r: ExprNode<'a>)
    ensures
        match r {
            ExprNode::Path(p) => expr_tree(*e) == ExprTree::Path(path_tree(*p)),
            ExprNode::Field(base, member) => expr_tree(*e) == ExprTree::Field(
                Box::new(expr_tree(*base)),
                member@,
            ),
            ExprNode::MethodCall(receiver, method) => expr_tree(*e) == ExprTree::MethodCall(
                Box::new(expr_tree(*receiver)),
                method@,
            ),
            ExprNode::Call(func) => expr_tree(*e) == ExprTree::Call(Box::new(expr_tree(*func))),
            ExprNode::Other => expr_tree(*e) == ExprTree::Other,
        },
{
    match e {
        syn::Expr::Path(p) => ExprNode::Path(&p.path),
        syn::Expr::Field(f) => match &f.member {
            syn::Member::Named(id) => ExprNode::Field(&f.base, id.to_string()),
            syn::Member::Unnamed(at) => ExprNode::Field(&f.base, at.index.to_string()),
        },
        syn::Expr::MethodCall(m) => ExprNode::MethodCall(&m.receiver, m.method.to_string()),
        syn::Expr::Call(c) => ExprNode::Call(&c.func),
        _ => ExprNode::Other,
    }
}

/// A `syn::Item` is told apart by its variant.
#[verifier::external_body]
fn open_item(i: syn::Item) -> (r: ItemNode)
    ensures
        match r {
            ItemNode::Function(f) => item_tree(i) == ItemTree::Function(
                (FnTree { name: f.name@, public: f.public, calls: block_calls(f.body) }),
            ),
            ItemNode::Impl(items) => item_tree(i) == ItemTree::Impl(impl_item_trees(items@)),
            ItemNode::Module(Some(items)) => item_tree(i) == ItemTree::Module(
                Some(item_trees(items@)),
            ),
            ItemNode::Module(None) => item_tree(i) == ItemTree::Module(None),
            ItemNode::Other => item_tree(i) == ItemTree::Other,
        },
{
    match i {
        syn::Item::Fn(f) => ItemNode::Function(SourceFn {
            name: f.sig.ident.to_string(),
            public: matches!(f.vis, syn::Visibility::Public(_)),
            body: *f.block,
        }),
        syn::Item::Impl(im) => ItemNode::Impl(im.items),
        syn::Item::Mod(m) => ItemNode::Module(m.content.map(|c| c.1)),
        _ => ItemNode::Other,
    }
}

/// A `syn::ImplItem` is a function or something else.
#[verifier::external_body]
fn open_impl_item(i: syn::ImplItem) -> (r: Option<SourceFn<syn::Block>>)
    ensures
        match r {
            Some(f) => impl_item_tree(i) == Some(
                (FnTree { name: f.name@, public: f.public, calls: block_calls(f.body) }),
            ),
            None => impl_item_tree(i) is None,
        },
{
    match i {
        syn::ImplItem::Fn(f) => Some(SourceFn {
            name: f.sig.ident.to_string(),
            public: matches!(f.vis, syn::Visibility::Public(_)),
            body: f.block,
        }),
        _ => None,
    }
}

/// `syn::parse_file` parses a text into the items of a file. Which items come
/// out, or which error, is named by [`parsed_items`].
#[verifier::external_body]
fn parse_items(text: &str) -> (r: Result<Vec<syn::Item>, syn::Error>)
    ensures
        match r {
            Ok(items) => parsed_items(text@) == Ok::<Seq<ItemTree>, Seq<char>>(item_trees(items@)),
            Err(e) => parsed_items(text@) == Err::<Seq<ItemTree>, Seq<char>>(error_message(e)),
        },
{
    syn::parse_file(text).map(|f| f.items)
}

/// `Error::to_string` writes the message of an error.
#[verifier::external_body]
fn error_text(e: &syn::Error) -> (r: String)
    ensures
        r@ == error_message(*e),
{
    e.to_string()
}

// ---------------------------------------------------------------------------
// Expressions
// ---------------------------------------------------------------------------

/// The path that `syn` parsed, as plain values.
pub fn source_path(p: &syn::Path) -> (r: SourcePath)
    ensures
        r@ == path_tree(*p),
{
    open_path(p)
}

/// What an expression is made of is smaller than the expression.
proof fn lemma_smaller(t: ExprTree)
    ensures
        t is Field ==> decreases_to!(t => *t->Field_0),
        t is MethodCall ==> decreases_to!(t => *t->MethodCall_0),
        t is Call ==> decreases_to!(t => *t->Call_0),
{
}

/// The expression that `syn` parsed, as plain values.
pub fn source_expr(e: &syn::Expr) -> (r: SourceExpr)
    ensures
        tree_of(r) == expr_tree(*e),
    decreases expr_tree(*e),
{
    proof {
        lemma_smaller(expr_tree(*e));
    }
    match open_expr(e) {
        ExprNode::Path(p) => SourceExpr::Path(open_path(p)),
        ExprNode::Field(base, member) => SourceExpr::Field(Box::new(source_expr(base)), member),
        ExprNode::MethodCall(receiver, method) => SourceExpr::MethodCall(
            Box::new(source_expr(receiver)),
            method,
        ),
        ExprNode::Call(func) => SourceExpr::Call(Box::new(source_expr(func))),
        ExprNode::Other => SourceExpr::Other,
    }
}

// ---------------------------------------------------------------------------
// Functions of a list of items
// ---------------------------------------------------------------------------

/// The functions among the items of an implementation.
pub open spec fn impl_functions<B>(items: Seq<Option<SourceFn<B>>>) -> Seq<SourceFn<B>>
    decreases items.len(),
{
    if items.len() == 0 {
        Seq::empty()
    } else {
        match items.last() {
            Some(f) => impl_functions(items.drop_last()).push(f),
            None => impl_functions(items.drop_last()),
        }
    }
}

/// The functions of an item: a free function, the functions of an
/// implementation, and those inside a module that is written in place.
pub open spec fn item_functions<B>(i: SourceItem<B>) -> Seq<SourceFn<B>>
    decreases i,
{
    match i {
        SourceItem::Function(f) => seq![f],
        SourceItem::Impl(items) => impl_functions(items@),
        SourceItem::Module(Some(items)) => functions_in(items@),
        _ => Seq::empty(),
    }
}

/// The functions of a list of items, in order.
pub open spec fn functions_in<B>(items: Seq<SourceItem<B>>) -> Seq<SourceFn<B>>
    decreases items,
{
    if items.len() == 0 {
        Seq::empty()
    } else {
        functions_in(items.drop_last()) + item_functions(items.last())
    }
}

/// The names of the public free functions of an item.
pub open spec fn item_public_names<B>(i: SourceItem<B>) -> Seq<Seq<char>>
    decreases i,
{
    match i {
        SourceItem::Function(f) => if f.public {
            seq![f.name@]
        } else {
            Seq::empty()
        },
        SourceItem::Module(Some(items)) => public_names(items@),
        _ => Seq::empty(),
    }
}

/// The names of the public free functions of a list of items, in order.
pub open spec fn public_names<B>(items: Seq<SourceItem<B>>) -> Seq<Seq<char>>
    decreases items,
{
    if items.len() == 0 {
        Seq::empty()
    } else {
        public_names(items.drop_last()) + item_public_names(items.last())
    }
}

/// The items of a module are smaller than a list that holds the module.
proof fn lemma_module_smaller<B>(items: Seq<SourceItem<B>>, at: int)
    requires
        0 <= at < items.len(),
        items[at] is Module,
        items[at]->Module_0 is Some,
    ensures
        decreases_to!(items => items[at]->Module_0->0@),
{
    assert(decreases_to!(items => items[at]));
    assert(decreases_to!(items[at] => items[at]->Module_0));
    assert(decreases_to!(items[at]->Module_0 => items[at]->Module_0->0));
    assert(decreases_to!(items[at]->Module_0->0 => items[at]->Module_0->0@));
}

/// Appends the functions of an implementation.
fn visit_impl<B>(items: Vec<Option<SourceFn<B>>>, out: &mut Vec<SourceFn<B>>)
    ensures
        final(out)@ == old(out)@ + impl_functions(items@),
{
    let ghost before = out@;
    for x in it: items
        invariant
            it.seq() == items@,
            out@ == before + impl_functions(items@.take(it.index() as int)),
    {
        assert(items@.take(it.index() + 1).drop_last() =~= items@.take(it.index() as int));
        if let Some(f) = x {
            out.push(f);
        }
        assert(out@ =~= before + impl_functions(items@.take(it.index() + 1)));
    }
    assert(items@.take(items@.len() as int) =~= items@);
}

/// Appends the functions of a list of items.
fn walk_items<B>(items: Vec<SourceItem<B>>, out: &mut Vec<SourceFn<B>>)
    ensures
        final(out)@ == old(out)@ + functions_in(items@),
    decreases items@,
{
    let ghost before = out@;
    for x in it: items
        invariant
            it.seq() == items@,
            out@ == before + functions_in(items@.take(it.index() as int)),
    {
        let ghost so_far = out@;
        let ghost at = it.index() as int;
        let ghost item = x;
        assert(items@.take(at + 1).drop_last() =~= items@.take(at));
        match x {
            SourceItem::Function(f) => {
                out.push(f);
            },
            SourceItem::Impl(inner) => {
                visit_impl(inner, out);
            },
            SourceItem::Module(Some(inner)) => {
                proof {
                    lemma_module_smaller(items@, at);
                }
                walk_items(inner, out);
            },
            _ => {},
        }
        assert(out@ =~= so_far + item_functions(item));
        assert(out@ =~= before + functions_in(items@.take(at + 1)));
    }
    assert(items@.take(items@.len() as int) =~= items@);
}

/// The functions of a list of items: free functions and functions of
/// implementations, in the order in which they are written, those of modules
/// that are written in place among them.
pub fn functions_of<B>(items: Vec<SourceItem<B>>) -> (r: Vec<SourceFn<B>>)
    ensures
        r@ == functions_in(items@),
{
    let mut out: Vec<SourceFn<B>> = Vec::new();
    walk_items(items, &mut out);
    assert(out@ =~= functions_in(items@));
    out
}

/// Appends the names of the public free functions of a list of items.
fn collect_pub_fns<B>(items: &Vec<SourceItem<B>>, out: &mut Vec<String>)
    ensures
        crate::text::texts(final(out)@) == crate::text::texts(old(out)@) + public_names(items@),
    decreases items@,
{
    let ghost before = crate::text::texts(out@);
    let mut i: usize = 0;
    while i < items.len()
        invariant
            i <= items@.len(),
            crate::text::texts(out@) == before + public_names(items@.take(i as int)),
        decreases items@.len() - i,
    {
        let ghost so_far = crate::text::texts(out@);
        assert(items@.take(i + 1).drop_last() =~= items@.take(i as int));
        match &items[i] {
            SourceItem::Function(f) => {
                if f.public {
                    out.push(f.name.clone());
                    assert(crate::text::texts(out@) =~= so_far.push(f.name@));
                }
            },
            SourceItem::Module(Some(inner)) => {
                proof {
                    lemma_module_smaller(items@, i as int);
                }
                collect_pub_fns(inner, out);
            },
            _ => {},
        }
        assert(crate::text::texts(out@) =~= so_far + item_public_names(items@[i as int]));
        i += 1;
        assert(crate::text::texts(out@) =~= before + public_names(items@.take(i as int)));
    }
    assert(items@.take(i as int) =~= items@);
}

/// The names of the public free functions of a list of items, in order.
pub fn public_functions_of<B>(items: &Vec<SourceItem<B>>) -> (r: Vec<String>)
    ensures
        crate::text::texts(r@) == public_names(items@),
{
    let mut out: Vec<String> = Vec::new();
    collect_pub_fns(items, &mut out);
    assert(crate::text::texts(out@) =~= public_names(items@));
    out
}

// ---------------------------------------------------------------------------
// Source texts
// ---------------------------------------------------------------------------

proof fn lemma_source_trees(items: Seq<SourceItem<syn::Block>>)
    ensures
        source_trees(items).len() == items.len(),
        forall|i: int|
            0 <= i < items.len() ==> #[trigger] source_trees(items)[i] == source_tree(items[i]),
    decreases items.len(),
{
    if items.len() > 0 {
        lemma_source_trees(items.drop_last());
    }
}

/// The items of a module are smaller than a list that holds the module.
proof fn lemma_module_tree_smaller(items: Seq<ItemTree>, at: int)
    requires
        0 <= at < items.len(),
        items[at] is Module,
        items[at]->Module_0 is Some,
    ensures
        decreases_to!(items => items[at]->Module_0->0),
{
    assert(decreases_to!(items => items[at]));
    assert(decreases_to!(items[at] => items[at]->Module_0));
    assert(decreases_to!(items[at]->Module_0 => items[at]->Module_0->0));
}

/// The items of an implementation that `syn` parsed, as plain values.
fn source_impl_items(items: Vec<syn::ImplItem>) -> (r: Vec<Option<SourceFn<syn::Block>>>)
    ensures
        optional_fn_trees(r@) == impl_item_trees(items@),
{
    let mut out: Vec<Option<SourceFn<syn::Block>>> = Vec::new();
    for x in it: items
        invariant
            it.seq() == items@,
            out@.len() == it.index(),
            forall|j: int|
                0 <= j < it.index() ==> optional_fn_tree(#[trigger] out@[j]) == impl_item_tree(
                    items@[j],
                ),
    {
        out.push(open_impl_item(x));
    }
    assert(optional_fn_trees(out@) =~= impl_item_trees(items@));
    out
}

/// The items that `syn` parsed, as plain values.
fn source_items(items: Vec<syn::Item>) -> (r: Vec<SourceItem<syn::Block>>)
    ensures
        source_trees(r@) == item_trees(items@),
    decreases item_trees(items@),
{
    let ghost trees = item_trees(items@);
    let mut out: Vec<SourceItem<syn::Block>> = Vec::new();
    for x in it: items
        invariant
            it.seq() == items@,
            trees == item_trees(items@),
            out@.len() == it.index(),
            forall|j: int| 0 <= j < it.index() ==> source_tree(#[trigger] out@[j]) == trees[j],
    {
        let ghost at = it.index() as int;
        assert(trees[at] == item_tree(x));
        let item = match open_item(x) {
            ItemNode::Function(f) => SourceItem::Function(f),
            ItemNode::Impl(inner) => SourceItem::Impl(source_impl_items(inner)),
            ItemNode::Module(Some(inner)) => {
                proof {
                    lemma_module_tree_smaller(trees, at);
                }
                SourceItem::Module(Some(source_items(inner)))
            },
            ItemNode::Module(None) => SourceItem::Module(None),
            ItemNode::Other => SourceItem::Other,
        };
        assert(source_tree(item) == trees[at]);
        out.push(item);
    }
    proof {
        lemma_source_trees(out@);
        assert(source_trees(out@) =~= trees);
    }
    out
}

/// A source text is not Rust, for the reason that the message gives.
#[derive(Clone, Debug, PartialEq, Eq)]
pub struct SyntaxError {
    pub message: String,
}

/// The items of a source text, as plain values.
pub fn parse_source(text: &str) -> (r: Result<Vec<SourceItem<syn::Block>>, SyntaxError>)
    ensures
        match r {
            Ok(items) => parsed_items(text@) == Ok::<Seq<ItemTree>, Seq<char>>(
                source_trees(items@),
            ),
            Err(e) => parsed_items(text@) == Err::<Seq<ItemTree>, Seq<char>>(e.message@),
        },
{
    match parse_items(text) {
        Ok(items) => Ok(source_items(items)),
        Err(e) => Err(SyntaxError { message: error_text(&e) }),
    }
}

/// The functions among the trees of the items of an implementation.
pub open spec fn impl_tree_functions(items: Seq<Option<FnTree>>) -> Seq<FnTree>
    decreases items.len(),
{
    if items.len() == 0 {
        Seq::empty()
    } else {
        match items.last() {
            Some(f) => impl_tree_functions(items.drop_last()).push(f),
            None => impl_tree_functions(items.drop_last()),
        }
    }
}

/// The functions of the tree of an item.
pub open spec fn tree_functions(i: ItemTree) -> Seq<FnTree>
    decreases i,
{
    match i {
        ItemTree::Function(f) => seq![f],
        ItemTree::Impl(items) => impl_tree_functions(items),
        ItemTree::Module(Some(items)) => trees_functions(items),
        _ => Seq::empty(),
    }
}

/// The functions of trees, in order.
pub open spec fn trees_functions(items: Seq<ItemTree>) -> Seq<FnTree>
    decreases items,
{
    if items.len() == 0 {
        Seq::empty()
    } else {
        trees_functions(items.drop_last()) + tree_functions(items.last())
    }
}

proof fn lemma_impl_functions(items: Seq<Option<SourceFn<syn::Block>>>)
    ensures
        fn_trees(impl_functions(items)) == impl_tree_functions(optional_fn_trees(items)),
    decreases items.len(),
{
    let trees = optional_fn_trees(items);
    if items.len() > 0 {
        lemma_impl_functions(items.drop_last());
        assert(trees.drop_last() =~= optional_fn_trees(items.drop_last()));
        assert(trees.last() == optional_fn_tree(items.last()));
        if items.last() is Some {
            assert(fn_trees(impl_functions(items)) =~= fn_trees(
                impl_functions(items.drop_last()),
            ).push(fn_tree(items.last()->0)));
        }
    } else {
        assert(fn_trees(impl_functions(items)) =~= Seq::<FnTree>::empty());
    }
}

/// Items have the functions that their trees have.
proof fn lemma_functions(items: Seq<SourceItem<syn::Block>>)
    ensures
        fn_trees(functions_in(items)) == trees_functions(source_trees(items)),
    decreases items,
{
    if items.len() > 0 {
        let front = items.drop_last();
        let last = items.last();
        lemma_functions(front);
        let trees = source_trees(items);
        assert(trees.drop_last() =~= source_trees(front));
        assert(trees.last() == source_tree(last));
        match last {
            SourceItem::Function(f) => {
                assert(fn_trees(item_functions(last)) =~= seq![fn_tree(f)]);
            },
            SourceItem::Impl(inner) => {
                lemma_impl_functions(inner@);
            },
            SourceItem::Module(Some(inner)) => {
                lemma_module_smaller(items, items.len() - 1);
                lemma_functions(inner@);
                assert(trees.last() == ItemTree::Module(Some(source_trees(inner@))));
            },
            _ => {
                assert(fn_trees(item_functions(last)) =~= Seq::<FnTree>::empty());
            },
        }
        assert(fn_trees(item_functions(last)) == tree_functions(trees.last()));
        assert(fn_trees(functions_in(items)) =~= fn_trees(functions_in(front)) + fn_trees(
            item_functions(last),
        ));
    } else {
        assert(fn_trees(functions_in(items)) =~= Seq::<FnTree>::empty());
    }
}

/// The functions of a source text: those of its items.
pub fn source_functions(text: &str) -> (r: Result<Vec<SourceFn<syn::Block>>, SyntaxError>)
    ensures
        match r {
            Ok(fns) => parsed_items(text@) is Ok && fn_trees(fns@) == trees_functions(
                parsed_items(text@)->Ok_0,
            ),
            Err(e) => parsed_items(text@) == Err::<Seq<ItemTree>, Seq<char>>(e.message@),
        },
{
    match parse_source(text) {
        Ok(items) => {
            proof {
                lemma_functions(items@);
            }
            Ok(functions_of(items))
        },
        Err(e) => Err(e),
    }
}

/// The names of the public free functions among the trees of an item.
pub open spec fn tree_public_names(i: ItemTree) -> Seq<Seq<char>>
    decreases i,
{
    match i {
        ItemTree::Function(f) => if f.public {
            seq![f.name]
        } else {
            Seq::empty()
        },
        ItemTree::Module(Some(items)) => trees_public_names(items),
        _ => Seq::empty(),
    }
}

/// The names of the public free functions among trees, in order.
pub open spec fn trees_public_names(items: Seq<ItemTree>) -> Seq<Seq<char>>
    decreases items,
{
    if items.len() == 0 {
        Seq::empty()
    } else {
        trees_public_names(items.drop_last()) + tree_public_names(items.last())
    }
}

/// Items declare the names that their trees declare.
proof fn lemma_public_names(items: Seq<SourceItem<syn::Block>>)
    ensures
        public_names(items) == trees_public_names(source_trees(items)),
    decreases items,
{
    if items.len() > 0 {
        lemma_public_names(items.drop_last());
        let trees = source_trees(items);
        assert(trees.drop_last() =~= source_trees(items.drop_last()));
        assert(trees.last() == source_tree(items.last()));
        match items.last() {
            SourceItem::Module(Some(inner)) => {
                lemma_module_smaller(items, items.len() - 1);
                lemma_public_names(inner@);
                assert(trees.last() == ItemTree::Module(Some(source_trees(inner@))));
            },
            _ => {},
        }
        assert(item_public_names(items.last()) == tree_public_names(trees.last()));
    }
}

/// A name is that of a public free function in one of the texts that parse.
pub open spec fn is_public_name(texts: Seq<Seq<char>>, name: Seq<char>) -> bool {
    exists|i: int|
        0 <= i < texts.len() && parsed_items(#[trigger] texts[i]) is Ok && trees_public_names(
            parsed_items(texts[i])->Ok_0,
        ).contains(name)
}

/// The names of the public free functions in a list of source texts, each once,
/// in ascending order. A text that does not parse is passed over.
pub fn public_function_names(texts: &Vec<String>) -> (r: Vec<String>)
    ensures
        crate::order::ascending(crate::text::texts(r@), crate::order::text_order()),
        forall|name: Seq<char>| #[trigger]
            crate::text::texts(r@).contains(name) <==> is_public_name(
                crate::text::texts(texts@),
                name,
            ),
{
    let ghost given = crate::text::texts(texts@);
    let mut all: Vec<String> = Vec::new();
    let mut i: usize = 0;
    while i < texts.len()
        invariant
            given == crate::text::texts(texts@),
            i <= texts@.len(),
            forall|name: Seq<char>| #[trigger]
                crate::text::texts(all@).contains(name) <==> is_public_name(
                    given.take(i as int),
                    name,
                ),
        decreases texts@.len() - i,
    {
        let ghost before = crate::text::texts(all@);
        let ghost shown = given.take(i as int);
        let ghost next = given.take(i + 1);
        assert(next =~= shown.push(texts@[i as int]@));
        match parse_source(texts[i].as_str()) {
            Ok(items) => {
                collect_pub_fns(&items, &mut all);
                proof {
                    lemma_public_names(items@);
                }
            },
            Err(_) => {},
        }
        proof {
            let after = crate::text::texts(all@);
            assert forall|name: Seq<char>| #[trigger]
                after.contains(name) <==> is_public_name(next, name) by {
                lemma_next_text(shown, texts@[i as int]@, before, after, name);
            }
        }
        i += 1;
    }
    assert(given.take(i as int) =~= given);
    crate::order::distinct_texts(all)
}

/// One more text adds the names that it declares.
proof fn lemma_next_text(
    shown: Seq<Seq<char>>,
    text: Seq<char>,
    before: Seq<Seq<char>>,
    after: Seq<Seq<char>>,
    name: Seq<char>,
)
    requires
        before.contains(name) <==> is_public_name(shown, name),
        after == before + (match parsed_items(text) {
            Ok(items) => trees_public_names(items),
            Err(_) => Seq::empty(),
        }),
    ensures
        after.contains(name) <==> is_public_name(shown.push(text), name),
{
    let next = shown.push(text);
    let added = match parsed_items(text) {
        Ok(items) => trees_public_names(items),
        Err(_) => Seq::empty(),
    };
    if after.contains(name) {
        let k = choose|k: int| 0 <= k < after.len() && after[k] == name;
        if k < before.len() {
            assert(before[k] == name);
            let i = choose|i: int|
                0 <= i < shown.len() && parsed_items(#[trigger] shown[i]) is Ok
                    && trees_public_names(parsed_items(shown[i])->Ok_0).contains(name);
            assert(next[i] == shown[i]);
        } else {
            assert(added[k - before.len()] == name);
            assert(next[shown.len() as int] == text);
        }
        assert(is_public_name(next, name));
    }
    if is_public_name(next, name) {
        let i = choose|i: int|
            0 <= i < next.len() && parsed_items(#[trigger] next[i]) is Ok && trees_public_names(
                parsed_items(next[i])->Ok_0,
            ).contains(name);
        if i < shown.len() {
            assert(shown[i] == next[i]);
            assert(is_public_name(shown, name));
            let k = choose|k: int| 0 <= k < before.len() && before[k] == name;
            assert(after[k] == name);
        } else {
            let k = choose|k: int| 0 <= k < added.len() && added[k] == name;
            assert(after[before.len() + k] == name);
        }
    }
}

// ---------------------------------------------------------------------------
// Laws
// ---------------------------------------------------------------------------

/// Functions are found item by item, in order: a free function is one, an
/// implementation has those among its items, a module that is written in place
/// has those of its items, and nothing else has any.
pub proof fn functions_are_found_item_by_item<B>(
    items: Seq<SourceItem<B>>,
    item: SourceItem<B>,
    of_impl: Seq<Option<SourceFn<B>>>,
    f: SourceFn<B>,
)
    ensures
        functions_in(Seq::<SourceItem<B>>::empty()) == Seq::<SourceFn<B>>::empty(),
        functions_in(items.push(item)) == functions_in(items) + item_functions(item),
        item_functions(SourceItem::Function(f)) == seq![f],
        item is Impl ==> item_functions(item) == impl_functions(item->Impl_0@),
        item is Module && item->Module_0 is Some ==> item_functions(item) == functions_in(
            item->Module_0->0@,
        ),
        item is Module && item->Module_0 is None ==> item_functions(item).len() == 0,
        item is Other ==> item_functions(item).len() == 0,
        impl_functions(Seq::<Option<SourceFn<B>>>::empty()) == Seq::<SourceFn<B>>::empty(),
        impl_functions(of_impl.push(Some(f))) == impl_functions(of_impl).push(f),
        impl_functions(of_impl.push(None)) == impl_functions(of_impl),
{
    assert(items.push(item).drop_last() =~= items);
    assert(of_impl.push(Some(f)).drop_last() =~= of_impl);
    assert(of_impl.push(None).drop_last() =~= of_impl);
}

/// Functions of two lists of items together are those of the first and then those
/// of the second.
pub proof fn functions_follow_the_items<B>(x: Seq<SourceItem<B>>, y: Seq<SourceItem<B>>)
    ensures
        functions_in(x + y) == functions_in(x) + functions_in(y),
    decreases y.len(),
{
    if y.len() > 0 {
        functions_follow_the_items(x, y.drop_last());
        assert((x + y).drop_last() =~= x + y.drop_last());
        assert(functions_in(x + y) =~= functions_in(x) + functions_in(y));
    } else {
        assert(x + y =~= x);
        assert(functions_in(x) + functions_in(y) =~= functions_in(x));
    }
}

/// Helpers are the public free functions: one that is not public is no helper,
/// one of an implementation is none either, and one in a module that is written
/// in place is one like any other.
pub proof fn helpers_are_public_and_free<B>(
    items: Seq<SourceItem<B>>,
    item: SourceItem<B>,
    f: SourceFn<B>,
)
    ensures
        public_names(Seq::<SourceItem<B>>::empty()) == Seq::<Seq<char>>::empty(),
        public_names(items.push(item)) == public_names(items) + item_public_names(item),
        f.public ==> item_public_names(SourceItem::Function(f)) == seq![f.name@],
        !f.public ==> item_public_names(SourceItem::Function(f)).len() == 0,
        item is Impl ==> item_public_names(item).len() == 0,
        item is Other ==> item_public_names(item).len() == 0,
        item is Module && item->Module_0 is Some ==> item_public_names(item) == public_names(
            item->Module_0->0@,
        ),
        item is Module && item->Module_0 is None ==> item_public_names(item).len() == 0,
{
    assert(items.push(item).drop_last() =~= items);
}

/// Each name of a public free function is given once, in ascending order, however
/// many of the texts declare it; a text that is not Rust adds none.
pub proof fn helper_names_are_gathered(
    texts: &Vec<String>,
    r: Vec<String>,
    name: Seq<char>,
)
    requires
        call_ensures(public_function_names, (texts,), r),
    ensures
        (exists|k: int| 0 <= k < r@.len() && (#[trigger] r@[k])@ == name) <==> exists|i: int|
            0 <= i < texts@.len() && parsed_items((#[trigger] texts@[i])@) is Ok
                && trees_public_names(parsed_items(texts@[i]@)->Ok_0).contains(name),
        forall|k: int, l: int|
            0 <= k < l < r@.len() ==> crate::order::text_lt(
                (#[trigger] r@[k])@,
                (#[trigger] r@[l])@,
            ),
{
    let shown = crate::text::texts(r@);
    let given = crate::text::texts(texts@);
    let order = crate::order::text_order();
    crate::order::text_order_is_total();
    assert(shown.contains(name) <==> is_public_name(given, name));
    if exists|k: int| 0 <= k < r@.len() && (#[trigger] r@[k])@ == name {
        let k = choose|k: int| 0 <= k < r@.len() && (#[trigger] r@[k])@ == name;
        assert(shown[k] == name);
        let i = choose|i: int|
            0 <= i < given.len() && parsed_items(#[trigger] given[i]) is Ok && trees_public_names(
                parsed_items(given[i])->Ok_0,
            ).contains(name);
        assert(given[i] == texts@[i]@);
    }
    if exists|i: int|
        0 <= i < texts@.len() && parsed_items((#[trigger] texts@[i])@) is Ok && trees_public_names(
            parsed_items(texts@[i]@)->Ok_0,
        ).contains(name) {
        let i = choose|i: int|
            0 <= i < texts@.len() && parsed_items((#[trigger] texts@[i])@) is Ok
                && trees_public_names(parsed_items(texts@[i]@)->Ok_0).contains(name);
        assert(given[i] == texts@[i]@);
        assert(is_public_name(given, name));
        let k = choose|k: int| 0 <= k < shown.len() && shown[k] == name;
        assert(r@[k]@ == name);
    }
    assert forall|k: int, l: int| 0 <= k < l < r@.len() implies crate::order::text_lt(
        (#[trigger] r@[k])@,
        (#[trigger] r@[l])@,
    ) by {
        assert(order(shown[k], shown[l]) && !order(shown[l], shown[k]));
    }
}

/// What holds of items holds of their trees: the functions and helpers of a text
/// are those of the items that it is parsed into.
pub proof fn trees_tell_what_items_tell(
    items: Seq<ItemTree>,
    item: ItemTree,
    of_impl: Seq<Option<FnTree>>,
    f: FnTree,
)
    ensures
        trees_functions(Seq::empty()) == Seq::<FnTree>::empty(),
        trees_functions(items.push(item)) == trees_functions(items) + tree_functions(item),
        tree_functions(ItemTree::Function(f)) == seq![f],
        tree_functions(ItemTree::Impl(of_impl.push(Some(f)))) == tree_functions(
            ItemTree::Impl(of_impl),
        ).push(f),
        tree_functions(ItemTree::Impl(of_impl.push(None))) == tree_functions(
            ItemTree::Impl(of_impl),
        ),
        tree_functions(ItemTree::Impl(Seq::empty())).len() == 0,
        tree_functions(ItemTree::Module(Some(items))) == trees_functions(items),
        tree_functions(ItemTree::Module(None)).len() == 0,
        tree_functions(ItemTree::Other).len() == 0,
        trees_public_names(Seq::empty()) == Seq::<Seq<char>>::empty(),
        trees_public_names(items.push(item)) == trees_public_names(items) + tree_public_names(item),
        tree_public_names(ItemTree::Function(f)) == if f.public {
            seq![f.name]
        } else {
            Seq::empty()
        },
        tree_public_names(ItemTree::Impl(of_impl)).len() == 0,
        tree_public_names(ItemTree::Module(Some(items))) == trees_public_names(items),
        tree_public_names(ItemTree::Module(None)).len() == 0,
        tree_public_names(ItemTree::Other).len() == 0,
{
    assert(items.push(item).drop_last() =~= items);
    assert(of_impl.push(Some(f)).drop_last() =~= of_impl);
    assert(of_impl.push(None).drop_last() =~= of_impl);
}

} // verus!
