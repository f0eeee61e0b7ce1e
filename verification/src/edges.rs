//! Rows of the table of dependencies between functions.
use vstd::prelude::*;
use vstd::string::StringExecFns;

use crate::text::lists;
use crate::walker::{Edge, EdgeKind, WalkedFn};

verus! {

/// The kinds of function that a catalog lists.
#[derive(Clone, Copy, Debug, PartialEq, Eq, Structural)]
pub enum FunctionKind {
    Scalar,
    Aggregate,
    Table,
    Window,
}

impl FunctionKind {
    /// The name of the kind.
    pub open spec fn text(self) -> Seq<char> {
        match self {
            FunctionKind::Scalar => "scalar"@,
            FunctionKind::Aggregate => "aggregate"@,
            FunctionKind::Table => "table"@,
            FunctionKind::Window => "window"@,
        }
    }

    /// The name of the kind.
    pub fn as_str(self) -> (r: &'static str)
        ensures
            r@ == self.text(),
    {
        match self {
            FunctionKind::Scalar => "scalar",
            FunctionKind::Aggregate => "aggregate",
            FunctionKind::Table => "table",
            FunctionKind::Window => "window",
        }
    }

    /// The table that lists functions of the kind.
    pub open spec fn table_text(self) -> Seq<char> {
        match self {
            FunctionKind::Scalar => "scalars"@,
            FunctionKind::Aggregate => "aggregates"@,
            FunctionKind::Table => "table_functions"@,
            FunctionKind::Window => "window_functions"@,
        }
    }

    /// The table that lists functions of the kind.
    pub fn table(self) -> (r: &'static str)
        ensures
            r@ == self.table_text(),
    {
        match self {
            FunctionKind::Scalar => "scalars",
            FunctionKind::Aggregate => "aggregates",
            FunctionKind::Table => "table_functions",
            FunctionKind::Window => "window_functions",
        }
    }
}

/// The names of the functions that a catalog lists.
#[derive(Clone, Debug)]
pub struct KnownFunctions {
    pub scalars: Vec<String>,
    pub aggregates: Vec<String>,
    pub table_functions: Vec<String>,
    pub window_functions: Vec<String>,
}

impl KnownFunctions {
    /// The names of a kind.
    pub open spec fn names(&self, kind: FunctionKind) -> Seq<Seq<char>> {
        match kind {
            FunctionKind::Scalar => crate::text::texts(self.scalars@),
            FunctionKind::Aggregate => crate::text::texts(self.aggregates@),
            FunctionKind::Table => crate::text::texts(self.table_functions@),
            FunctionKind::Window => crate::text::texts(self.window_functions@),
        }
    }

    /// The kind of a function. A name of several kinds counts as the first of
    /// scalar, aggregate, table and window.
    pub open spec fn kind_of(&self, name: Seq<char>) -> Option<FunctionKind> {
        if self.names(FunctionKind::Scalar).contains(name) {
            Some(FunctionKind::Scalar)
        } else if self.names(FunctionKind::Aggregate).contains(name) {
            Some(FunctionKind::Aggregate)
        } else if self.names(FunctionKind::Table).contains(name) {
            Some(FunctionKind::Table)
        } else if self.names(FunctionKind::Window).contains(name) {
            Some(FunctionKind::Window)
        } else {
            None
        }
    }

    /// The kind of a function.
    pub fn kind(&self, name: &str) -> (r: Option<FunctionKind>)
        ensures
            r == self.kind_of(name@),
    {
        if lists(self.scalars.as_slice(), name) {
            Some(FunctionKind::Scalar)
        } else if lists(self.aggregates.as_slice(), name) {
            Some(FunctionKind::Aggregate)
        } else if lists(self.table_functions.as_slice(), name) {
            Some(FunctionKind::Table)
        } else if lists(self.window_functions.as_slice(), name) {
            Some(FunctionKind::Window)
        } else {
            None
        }
    }
}

/// One dependency between functions.
#[derive(Clone, Debug)]
pub struct EdgeRow {
    pub caller_name: String,
    pub caller_kind: &'static str,
    pub callee_name: String,
    pub callee_kind: &'static str,
    pub edge_kind: &'static str,
    pub source_hint: String,
}

/// An [`EdgeRow`], by its texts.
pub struct EdgeRowModel {
    pub caller_name: Seq<char>,
    pub caller_kind: Seq<char>,
    pub callee_name: Seq<char>,
    pub callee_kind: Seq<char>,
    pub edge_kind: Seq<char>,
    pub source_hint: Seq<char>,
}

impl View for EdgeRow {
    type V = EdgeRowModel;

    open spec fn view(&self) -> EdgeRowModel {
        EdgeRowModel {
            caller_name: self.caller_name@,
            caller_kind: self.caller_kind@,
            callee_name: self.callee_name@,
            callee_kind: self.callee_kind@,
            edge_kind: self.edge_kind@,
            source_hint: self.source_hint@,
        }
    }
}

/// Rows, by their texts.
pub open spec fn row_models(rows: Seq<EdgeRow>) -> Seq<EdgeRowModel> {
    rows.map_values(|r: EdgeRow| r@)
}

/// The kind under which a callee is listed: its kind in the catalog, or else
/// how it is reached.
pub open spec fn callee_kind_text(
    known: KnownFunctions,
    edge: crate::walker::EdgeModel,
) -> Seq<char> {
    match known.kind_of(edge.callee) {
        Some(kind) => kind.text(),
        None => match edge.kind {
            EdgeKind::Macro => "macro"@,
            EdgeKind::CallMethod => "method"@,
            EdgeKind::Indirect => "indirect"@,
            EdgeKind::Call => "indirect"@,
        },
    }
}

/// The row of one edge of a function of a kind.
pub open spec fn edge_row(
    known: KnownFunctions,
    caller: Seq<char>,
    kind: FunctionKind,
    edge: crate::walker::EdgeModel,
) -> EdgeRowModel {
    EdgeRowModel {
        caller_name: caller,
        caller_kind: kind.text(),
        callee_name: edge.callee,
        callee_kind: callee_kind_text(known, edge),
        edge_kind: edge.kind.text(),
        source_hint: edge.hint,
    }
}

/// The rows of a function: one for each of its edges if the catalog lists the
/// function, and none otherwise.
pub open spec fn function_rows(
    known: KnownFunctions,
    w: crate::walker::WalkedModel,
) -> Seq<EdgeRowModel> {
    match known.kind_of(w.name) {
        Some(kind) => w.edges.map_values(
            |e: crate::walker::EdgeModel| edge_row(known, w.name, kind, e),
        ),
        None => Seq::empty(),
    }
}

/// The rows of a list of functions, in order.
pub open spec fn call_rows(
    known: KnownFunctions,
    walked: Seq<crate::walker::WalkedModel>,
) -> Seq<EdgeRowModel>
    decreases walked.len(),
{
    if walked.len() == 0 {
        Seq::empty()
    } else {
        call_rows(known, walked.drop_last()) + function_rows(known, walked.last())
    }
}

fn callee_kind(known: &KnownFunctions, edge: &Edge) -> (r: &'static str)
    ensures
        r@ == callee_kind_text(*known, edge@),
{
    match known.kind(edge.callee_name.as_str()) {
        Some(kind) => kind.as_str(),
        None => match edge.edge_kind {
            EdgeKind::Macro => "macro",
            EdgeKind::CallMethod => "method",
            EdgeKind::Indirect => "indirect",
            EdgeKind::Call => "indirect",
        },
    }
}

/// Appends the rows of one function.
fn add_function_rows(known: &KnownFunctions, w: &WalkedFn, out: &mut Vec<EdgeRow>)
    ensures
        row_models(final(out)@) == row_models(old(out)@) + function_rows(*known, w@),
{
    let ghost before = row_models(out@);
    match known.kind(w.caller_name.as_str()) {
        Some(kind) => {
            let ghost edges = w@.edges;
            let ghost shown = function_rows(*known, w@);
            let mut i: usize = 0;
            while i < w.edges.len()
                invariant
                    known.kind_of(w@.name) == Some(kind),
                    edges == w@.edges,
                    shown == function_rows(*known, w@),
                    i <= w.edges@.len(),
                    row_models(out@) == before + shown.take(i as int),
                decreases w.edges@.len() - i,
            {
                let e = &w.edges[i];
                assert(edges[i as int] == e@);
                let ghost so_far = row_models(out@);
                let row = EdgeRow {
                    caller_name: w.caller_name.clone(),
                    caller_kind: kind.as_str(),
                    callee_name: e.callee_name.clone(),
                    callee_kind: callee_kind(known, e),
                    edge_kind: e.edge_kind.as_str(),
                    source_hint: e.source_hint.clone(),
                };
                let ghost added = row@;
                assert(added == shown[i as int]);
                out.push(row);
                assert(row_models(out@) =~= so_far.push(added));
                i += 1;
                assert(row_models(out@) =~= before + shown.take(i as int));
            }
            assert(shown.take(i as int) =~= shown);
        },
        None => {
            assert(row_models(out@) =~= before + function_rows(*known, w@));
        },
    }
}

/// The rows for the calls that were found in the sources. Only functions that
/// the catalog lists are callers.
pub fn call_edges(known: &KnownFunctions, walked: &Vec<WalkedFn>) -> (r: Vec<EdgeRow>)
    ensures
        row_models(r@) == call_rows(*known, crate::walker::walked_models(walked@)),
{
    let ghost models = crate::walker::walked_models(walked@);
    let mut out: Vec<EdgeRow> = Vec::new();
    assert(row_models(out@) =~= Seq::<EdgeRowModel>::empty());
    let mut i: usize = 0;
    while i < walked.len()
        invariant
            models == crate::walker::walked_models(walked@),
            i <= walked@.len(),
            row_models(out@) == call_rows(*known, models.take(i as int)),
        decreases walked@.len() - i,
    {
        assert(models.take(i + 1).drop_last() =~= models.take(i as int));
        assert(models.take(i + 1).last() == walked@[i as int]@);
        add_function_rows(known, &walked[i], &mut out);
        i += 1;
    }
    assert(models.take(i as int) =~= models);
    out
}

// ---------------------------------------------------------------------------
// Edges that the catalog itself shows
// ---------------------------------------------------------------------------

/// A statement that adds rows, with the function kind that it takes as its
/// second parameter, if any. The first parameter is the extension.
#[derive(Clone, Debug)]
pub struct DerivedEdges {
    pub sql: String,
    pub kind: Option<FunctionKind>,
}

/// The statement that adds an edge from each function of a table to the types
/// of its arguments.
pub open spec fn argument_edges_text(table: Seq<char>) -> Seq<char> {
    "INSERT OR IGNORE INTO function_dependencies (extension, caller_name, caller_kind, callee_extension, callee_name, callee_kind, edge_kind, source_hint) SELECT s.extension, s.name, ?2, s.extension, ct.type_name, 'type', 'type_arg', 'arg_index=' || jouter.key FROM "@
        + table
        + " s JOIN json_each(s.param_types_json) AS jouter ON 1=1 JOIN json_each(jouter.value) AS j ON 1=1 JOIN column_types ct ON ct.extension = s.extension AND ct.type_name = j.value WHERE j.type = 'text' AND s.extension = ?1"@
}

/// The statement that adds an edge from each scalar function to the type that
/// it returns.
pub open spec fn return_edges_text() -> Seq<char> {
    "INSERT OR IGNORE INTO function_dependencies (extension, caller_name, caller_kind, callee_extension, callee_name, callee_kind, edge_kind, source_hint) SELECT s.extension, s.name, 'scalar', s.extension, ct.type_name, 'type', 'type_return', 'return' FROM scalars s JOIN column_types ct ON ct.extension = s.extension AND ct.type_name = s.return_type WHERE s.extension = ?1"@
}

/// The statement that adds an edge from the function of each cast to the type
/// that it casts to.
pub open spec fn cast_edges_text() -> Seq<char> {
    "INSERT OR IGNORE INTO function_dependencies (extension, caller_name, caller_kind, callee_extension, callee_name, callee_kind, edge_kind, source_hint) SELECT cr.extension, cr.function_name, 'scalar', cr.extension, ct.type_name, 'type', 'cast_target', 'cast_from=' || cr.source_kind || '/' || cr.source_fn_hint FROM cast_rewrites cr JOIN column_types ct ON ct.extension = cr.extension AND ct.type_name = cr.target_type WHERE cr.extension = ?1"@
}

/// The statement that adds an edge from the function of each operator to the
/// operator.
pub open spec fn operator_edges_text() -> Seq<char> {
    "INSERT OR IGNORE INTO function_dependencies (extension, caller_name, caller_kind, callee_extension, callee_name, callee_kind, edge_kind, source_hint) SELECT o.extension, o.function_name, 'scalar', o.extension, o.symbol, 'operator', 'operator_bind', 'lhs=' || IFNULL(o.lhs_type_id,'') || ' rhs=' || IFNULL(o.rhs_type_id,'') FROM operators o WHERE o.extension = ?1"@
}

/// The statement of a kind of function, as a pair of its text and the kind.
pub open spec fn argument_statement(kind: FunctionKind) -> (Seq<char>, Option<FunctionKind>) {
    (argument_edges_text(kind.table_text()), Some(kind))
}

/// Every statement that derives edges from the catalog, in order.
pub open spec fn derived_statements() -> Seq<(Seq<char>, Option<FunctionKind>)> {
    seq![
        argument_statement(FunctionKind::Scalar),
        argument_statement(FunctionKind::Aggregate),
        argument_statement(FunctionKind::Table),
        argument_statement(FunctionKind::Window),
        (return_edges_text(), None),
        (cast_edges_text(), None),
        (operator_edges_text(), None),
    ]
}

fn argument_edges(kind: FunctionKind) -> (r: DerivedEdges)
    ensures
        (r.sql@, r.kind) == argument_statement(kind),
{
    let mut sql =
        "INSERT OR IGNORE INTO function_dependencies (extension, caller_name, caller_kind, callee_extension, callee_name, callee_kind, edge_kind, source_hint) SELECT s.extension, s.name, ?2, s.extension, ct.type_name, 'type', 'type_arg', 'arg_index=' || jouter.key FROM ".to_owned();
    sql.append(kind.table());
    sql.append(
        " s JOIN json_each(s.param_types_json) AS jouter ON 1=1 JOIN json_each(jouter.value) AS j ON 1=1 JOIN column_types ct ON ct.extension = s.extension AND ct.type_name = j.value WHERE j.type = 'text' AND s.extension = ?1",
    );
    DerivedEdges { sql, kind: Some(kind) }
}

/// The statements that derive edges from the catalog, in order.
pub fn derived_edges() -> (r: Vec<DerivedEdges>)
    ensures
        r@.len() == derived_statements().len(),
        forall|i: int|
            0 <= i < r@.len() ==> ((#[trigger] r@[i]).sql@, r@[i].kind) == derived_statements()[i],
{
    let r = vec![
        argument_edges(FunctionKind::Scalar),
        argument_edges(FunctionKind::Aggregate),
        argument_edges(FunctionKind::Table),
        argument_edges(FunctionKind::Window),
        DerivedEdges {
            sql:
                "INSERT OR IGNORE INTO function_dependencies (extension, caller_name, caller_kind, callee_extension, callee_name, callee_kind, edge_kind, source_hint) SELECT s.extension, s.name, 'scalar', s.extension, ct.type_name, 'type', 'type_return', 'return' FROM scalars s JOIN column_types ct ON ct.extension = s.extension AND ct.type_name = s.return_type WHERE s.extension = ?1".to_owned(),
            kind: None,
        },
        DerivedEdges {
            sql:
                "INSERT OR IGNORE INTO function_dependencies (extension, caller_name, caller_kind, callee_extension, callee_name, callee_kind, edge_kind, source_hint) SELECT cr.extension, cr.function_name, 'scalar', cr.extension, ct.type_name, 'type', 'cast_target', 'cast_from=' || cr.source_kind || '/' || cr.source_fn_hint FROM cast_rewrites cr JOIN column_types ct ON ct.extension = cr.extension AND ct.type_name = cr.target_type WHERE cr.extension = ?1".to_owned(),
            kind: None,
        },
        DerivedEdges {
            sql:
                "INSERT OR IGNORE INTO function_dependencies (extension, caller_name, caller_kind, callee_extension, callee_name, callee_kind, edge_kind, source_hint) SELECT o.extension, o.function_name, 'scalar', o.extension, o.symbol, 'operator', 'operator_bind', 'lhs=' || IFNULL(o.lhs_type_id,'') || ' rhs=' || IFNULL(o.rhs_type_id,'') FROM operators o WHERE o.extension = ?1".to_owned(),
            kind: None,
        },
    ];
    r
}

// ---------------------------------------------------------------------------
// Laws
// ---------------------------------------------------------------------------

/// A row stands for an edge of a function that the catalog lists.
pub open spec fn stands_for(
    known: KnownFunctions,
    w: crate::walker::WalkedModel,
    row: EdgeRowModel,
) -> bool {
    &&& known.kind_of(w.name) is Some
    &&& exists|j: int|
        0 <= j < w.edges.len() && row == edge_row(
            known,
            w.name,
            known.kind_of(w.name)->0,
            #[trigger] w.edges[j],
        )
}

/// The rows are exactly those of the edges of functions that the catalog lists;
/// calls inside other functions leave no row.
pub proof fn only_listed_functions_call(
    known: KnownFunctions,
    walked: Seq<crate::walker::WalkedModel>,
)
    ensures
        forall|row: EdgeRowModel| #[trigger]
            call_rows(known, walked).contains(row) <==> exists|i: int|
                0 <= i < walked.len() && stands_for(known, #[trigger] walked[i], row),
    decreases walked.len(),
{
    let rows = call_rows(known, walked);
    if walked.len() > 0 {
        let front = walked.drop_last();
        only_listed_functions_call(known, front);
        let before = call_rows(known, front);
        let added = function_rows(known, walked.last());
        assert forall|row: EdgeRowModel| #[trigger] rows.contains(row) <==> exists|i: int|
            0 <= i < walked.len() && stands_for(known, #[trigger] walked[i], row) by {
            if rows.contains(row) {
                let k = choose|k: int| 0 <= k < rows.len() && rows[k] == row;
                if k < before.len() {
                    assert(before[k] == row);
                    assert(before.contains(row));
                    let i = choose|i: int|
                        0 <= i < front.len() && stands_for(known, #[trigger] front[i], row);
                    assert(walked[i] == front[i]);
                } else {
                    let w = walked[walked.len() - 1];
                    assert(added[k - before.len()] == row);
                    assert(row == edge_row(
                        known,
                        w.name,
                        known.kind_of(w.name)->0,
                        w.edges[k - before.len()],
                    ));
                    assert(stands_for(known, walked[walked.len() - 1], row));
                }
            }
            if exists|i: int|
                0 <= i < walked.len() && stands_for(known, #[trigger] walked[i], row) {
                let i = choose|i: int|
                    0 <= i < walked.len() && stands_for(known, #[trigger] walked[i], row);
                if i < front.len() {
                    assert(front[i] == walked[i]);
                    assert(before.contains(row));
                    let k = choose|k: int| 0 <= k < before.len() && before[k] == row;
                    assert(rows[k] == row);
                } else {
                    let w = walked[i];
                    let j = choose|j: int|
                        0 <= j < w.edges.len() && row == edge_row(
                            known,
                            w.name,
                            known.kind_of(w.name)->0,
                            #[trigger] w.edges[j],
                        );
                    assert(added[j] == row);
                    assert(rows[before.len() + j] == row);
                }
            }
        }
    } else {
        assert forall|row: EdgeRowModel| !(#[trigger] rows.contains(row)) by {}
    }
}

/// Functions that are known by the same names make the same rows.
pub(crate) proof fn lemma_same_names(
    a: KnownFunctions,
    b: KnownFunctions,
    walked: Seq<crate::walker::WalkedModel>,
)
    requires
        forall|kind: FunctionKind| #[trigger] a.names(kind) == b.names(kind),
    ensures
        call_rows(a, walked) == call_rows(b, walked),
    decreases walked.len(),
{
    if walked.len() > 0 {
        lemma_same_names(a, b, walked.drop_last());
        assert forall|name: Seq<char>| #[trigger] a.kind_of(name) == b.kind_of(name) by {
            assert(a.names(FunctionKind::Scalar) == b.names(FunctionKind::Scalar));
            assert(a.names(FunctionKind::Aggregate) == b.names(FunctionKind::Aggregate));
            assert(a.names(FunctionKind::Table) == b.names(FunctionKind::Table));
            assert(a.names(FunctionKind::Window) == b.names(FunctionKind::Window));
        }
        assert(function_rows(a, walked.last()) =~= function_rows(b, walked.last()));
    }
}

/// A list holds a text.
pub open spec fn lists_name(list: Vec<String>, name: Seq<char>) -> bool {
    exists|i: int| 0 <= i < list@.len() && (#[trigger] list@[i])@ == name
}

proof fn lemma_lists_name(list: Vec<String>, name: Seq<char>)
    ensures
        lists_name(list, name) <==> crate::text::texts(list@).contains(name),
{
    if lists_name(list, name) {
        let i = choose|i: int| 0 <= i < list@.len() && (#[trigger] list@[i])@ == name;
        assert(crate::text::texts(list@)[i] == name);
    }
    if crate::text::texts(list@).contains(name) {
        let i = choose|i: int|
            0 <= i < crate::text::texts(list@).len() && crate::text::texts(list@)[i] == name;
        assert(list@[i]@ == name);
    }
}

/// A function is of the kind whose list holds it; of several kinds the first of
/// scalar, aggregate, table and window counts, and a name that no list holds is
/// of none.
pub proof fn kinds_are_those_of_the_lists(
    known: &KnownFunctions,
    name: &str,
    r: Option<FunctionKind>,
)
    requires
        call_ensures(KnownFunctions::kind, (known, name), r),
    ensures
        r == Some(FunctionKind::Scalar) <==> lists_name(known.scalars, name@),
        r == Some(FunctionKind::Aggregate) <==> lists_name(known.aggregates, name@) && !lists_name(
            known.scalars,
            name@,
        ),
        r == Some(FunctionKind::Table) <==> lists_name(known.table_functions, name@)
            && !lists_name(known.scalars, name@) && !lists_name(known.aggregates, name@),
        r == Some(FunctionKind::Window) <==> lists_name(known.window_functions, name@)
            && !lists_name(known.scalars, name@) && !lists_name(known.aggregates, name@)
            && !lists_name(known.table_functions, name@),
        r == known.kind_of(name@),
{
    lemma_lists_name(known.scalars, name@);
    lemma_lists_name(known.aggregates, name@);
    lemma_lists_name(known.table_functions, name@);
    lemma_lists_name(known.window_functions, name@);
}

/// A row records an edge of a function: caller and callee under their names, the
/// edge's own kind and hint, and the caller's kind in the catalog. The callee is
/// of its kind in the catalog; one that the catalog does not list is a macro, a
/// method, or indirect, as it is reached.
pub open spec fn records(
    row: EdgeRow,
    known: &KnownFunctions,
    w: WalkedFn,
    e: Edge,
) -> bool {
    &&& row.caller_name@ == w.caller_name@
    &&& row.callee_name@ == e.callee_name@
    &&& row.source_hint@ == e.source_hint@
    &&& row.edge_kind@ == e.edge_kind.text()
    &&& known.kind_of(w.caller_name@) is Some
    &&& row.caller_kind@ == known.kind_of(w.caller_name@)->0.text()
    &&& known.kind_of(e.callee_name@) is Some ==> row.callee_kind@ == known.kind_of(
        e.callee_name@,
    )->0.text()
    &&& known.kind_of(e.callee_name@) is None && e.edge_kind == EdgeKind::Macro
        ==> row.callee_kind@ == "macro"@
    &&& known.kind_of(e.callee_name@) is None && e.edge_kind == EdgeKind::CallMethod
        ==> row.callee_kind@ == "method"@
    &&& known.kind_of(e.callee_name@) is None && (e.edge_kind == EdgeKind::Call || e.edge_kind
        == EdgeKind::Indirect) ==> row.callee_kind@ == "indirect"@
}

/// How many edges the functions that the catalog lists have in all.
pub open spec fn listed_edges(known: &KnownFunctions, walked: Seq<WalkedFn>) -> nat
    decreases walked.len(),
{
    if walked.len() == 0 {
        0
    } else {
        listed_edges(known, walked.drop_last()) + if known.kind_of(walked.last().caller_name@) is Some {
            walked.last().edges@.len()
        } else {
            0
        }
    }
}

/// The rows are those of the edges of the functions that the catalog lists, one
/// for each, function by function and edge by edge.
pub proof fn every_edge_has_its_row(
    known: &KnownFunctions,
    walked: &Vec<WalkedFn>,
    r: Vec<EdgeRow>,
    i: int,
    j: int,
)
    requires
        call_ensures(call_edges, (known, walked), r),
    ensures
        r@.len() == listed_edges(known, walked@),
        0 <= i < walked@.len() && 0 <= j < walked@[i].edges@.len() && known.kind_of(
            walked@[i].caller_name@,
        ) is Some ==> listed_edges(known, walked@.take(i)) + j < r@.len() && records(
            r@[listed_edges(known, walked@.take(i)) + j],
            known,
            walked@[i],
            walked@[i].edges@[j],
        ),
{
    let models = crate::walker::walked_models(walked@);
    lemma_row_count(known, walked@);
    assert(row_models(r@).len() == r@.len());
    if 0 <= i < walked@.len() && 0 <= j < walked@[i].edges@.len() && known.kind_of(
        walked@[i].caller_name@,
    ) is Some {
        lemma_row_place(known, walked@, i, j);
        let at = listed_edges(known, walked@.take(i)) + j;
        assert(row_models(r@)[at] == r@[at]@);
        assert(r@[at]@.caller_name == r@[at].caller_name@);
        assert(walked@[i].edges@[j]@.callee == walked@[i].edges@[j].callee_name@);
    }
}

proof fn lemma_row_count(known: &KnownFunctions, walked: Seq<WalkedFn>)
    ensures
        call_rows(*known, crate::walker::walked_models(walked)).len() == listed_edges(
            known,
            walked,
        ),
    decreases walked.len(),
{
    let models = crate::walker::walked_models(walked);
    if walked.len() > 0 {
        lemma_row_count(known, walked.drop_last());
        assert(models.drop_last() =~= crate::walker::walked_models(walked.drop_last()));
        assert(models.last() == walked.last()@);
        assert(models.last().edges.len() == walked.last().edges@.len());
    }
}

proof fn lemma_row_place(known: &KnownFunctions, walked: Seq<WalkedFn>, i: int, j: int)
    requires
        0 <= i < walked.len(),
        0 <= j < walked[i].edges@.len(),
        known.kind_of(walked[i].caller_name@) is Some,
    ensures
        ({
            let rows = call_rows(*known, crate::walker::walked_models(walked));
            let at = listed_edges(known, walked.take(i)) + j;
            at < rows.len() && rows[at] == edge_row(
                *known,
                walked[i].caller_name@,
                known.kind_of(walked[i].caller_name@)->0,
                walked[i].edges@[j]@,
            )
        }),
    decreases walked.len(),
{
    let models = crate::walker::walked_models(walked);
    let front = walked.drop_last();
    let before = call_rows(*known, crate::walker::walked_models(front));
    assert(models.drop_last() =~= crate::walker::walked_models(front));
    assert(models.last() == walked.last()@);
    lemma_row_count(known, front);
    if i < walked.len() - 1 {
        lemma_row_place(known, front, i, j);
        assert(front.take(i) =~= walked.take(i));
        assert(front[i] == walked[i]);
    } else {
        assert(walked.take(i) =~= front);
        let added = function_rows(*known, models.last());
        assert(models.last().edges[j] == walked[i].edges@[j]@);
        assert(added[j] == edge_row(
            *known,
            walked[i].caller_name@,
            known.kind_of(walked[i].caller_name@)->0,
            walked[i].edges@[j]@,
        ));
    }
}

/// Kinds go by different names, and their functions lie in different tables: that
/// of a kind is named after it, in the plural or with its functions behind it.
pub proof fn kinds_have_their_own_tables(a: FunctionKind, b: FunctionKind)
    ensures
        a.text() == b.text() ==> a == b,
        a.table_text() == b.table_text() ==> a == b,
        a.table_text() == a.text() + "s"@ || a.table_text() == a.text() + "_functions"@,
        a.table_text() == a.text() + "s"@ <==> a is Scalar || a is Aggregate,
{
    reveal_strlit("scalar");
    reveal_strlit("aggregate");
    reveal_strlit("table");
    reveal_strlit("window");
    reveal_strlit("scalars");
    reveal_strlit("aggregates");
    reveal_strlit("table_functions");
    reveal_strlit("window_functions");
    reveal_strlit("s");
    reveal_strlit("_functions");
    assert("scalar"@.len() == 6 && "aggregate"@.len() == 9 && "table"@.len() == 5 && "window"@.len()
        == 6);
    assert("scalar"@[0] == 's' && "window"@[0] == 'w');
    assert("scalars"@ =~= "scalar"@ + "s"@);
    assert("aggregates"@ =~= "aggregate"@ + "s"@);
    assert("table_functions"@ =~= "table"@ + "_functions"@);
    assert("window_functions"@ =~= "window"@ + "_functions"@);
    assert("scalars"@.len() == 7 && "aggregates"@.len() == 10 && "table_functions"@.len() == 15
        && "window_functions"@.len() == 16);
    assert(("table"@ + "s"@).len() == 6 && ("window"@ + "s"@).len() == 7);
}

/// Whether the statements on arguments read `start + table + end`, each with the
/// table of its kind.
pub open spec fn differ_in_their_tables(
    statements: Seq<DerivedEdges>,
    start: Seq<char>,
    end: Seq<char>,
) -> bool {
    forall|k: int|
        0 <= k < statements.len() && (#[trigger] statements[k]).kind is Some
            ==> statements[k].sql@ == start + statements[k].kind->0.table_text() + end
}

/// Each kind of function has its own statement on arguments, and these statements
/// differ in the table that they read and in nothing else.
pub proof fn arguments_are_derived_alike(r: Vec<DerivedEdges>, kind: FunctionKind)
    requires
        call_ensures(derived_edges, (), r),
    ensures
        exists|k: int| 0 <= k < r@.len() && (#[trigger] r@[k]).kind == Some(kind),
        exists|start: Seq<char>, end: Seq<char>| #[trigger]
            differ_in_their_tables(r@, start, end),
        forall|k: int, l: int|
            0 <= k < l < r@.len() && (#[trigger] r@[k]).kind is Some ==> r@[k].kind != (
            #[trigger] r@[l]).kind,
{
    let all = derived_statements();
    let at: int = match kind {
        FunctionKind::Scalar => 0,
        FunctionKind::Aggregate => 1,
        FunctionKind::Table => 2,
        FunctionKind::Window => 3,
    };
    assert((r@[at].sql@, r@[at].kind) == all[at]);
    let start =
        "INSERT OR IGNORE INTO function_dependencies (extension, caller_name, caller_kind, callee_extension, callee_name, callee_kind, edge_kind, source_hint) SELECT s.extension, s.name, ?2, s.extension, ct.type_name, 'type', 'type_arg', 'arg_index=' || jouter.key FROM "@;
    let end =
        " s JOIN json_each(s.param_types_json) AS jouter ON 1=1 JOIN json_each(jouter.value) AS j ON 1=1 JOIN column_types ct ON ct.extension = s.extension AND ct.type_name = j.value WHERE j.type = 'text' AND s.extension = ?1"@;
    assert forall|k: int| 0 <= k < r@.len() && (#[trigger] r@[k]).kind is Some implies r@[k].sql@
        == start + r@[k].kind->0.table_text() + end by {
        assert((r@[k].sql@, r@[k].kind) == all[k]);
    }
    assert(differ_in_their_tables(r@, start, end));
}

/// What every statement that derives edges begins with: the table that it adds
/// rows to, and their columns.
pub open spec fn edge_insertion() -> Seq<char> {
    "INSERT OR IGNORE INTO function_dependencies (extension, caller_name, caller_kind, callee_extension, callee_name, callee_kind, edge_kind, source_hint) SELECT "@
}

/// Every statement that derives edges adds rows of the same columns to the same
/// table, and takes them from the extension that is asked for alone.
pub proof fn edges_are_added_alike(r: Vec<DerivedEdges>, i: int)
    requires
        call_ensures(derived_edges, (), r),
        0 <= i < r@.len(),
    ensures
        crate::report::begins_with(r@[i].sql@, edge_insertion()),
        crate::walker::ends_with(r@[i].sql@, ".extension = ?1"@),
{
    let all = derived_statements();
    assert((r@[i].sql@, r@[i].kind) == all[i]);
    if i < 4 {
        lemma_argument_statement(r@[i].kind->0.table_text());
    } else if i == 4 {
        lemma_return_statement();
    } else if i == 5 {
        lemma_cast_statement();
    } else {
        lemma_operator_statement();
    }
}

proof fn lemma_return_statement()
    ensures
        crate::report::begins_with(return_edges_text(), edge_insertion()),
        crate::walker::ends_with(return_edges_text(), ".extension = ?1"@),
{
    reveal_strlit("INSERT OR IGNORE INTO function_dependencies (extension, caller_name, caller_kind, callee_extension, callee_name, callee_kind, edge_kind, source_hint) SELECT ");
    reveal_strlit("INSERT OR IGNORE INTO function_dependencies (extension, caller_name, caller_kind, callee_extension, callee_name, callee_kind, edge_kind, source_hint) SELECT s.extension, s.name, 'scalar', s.extension, ct.type_name, 'type', 'type_return', 'return' FROM scalars s JOIN column_types ct ON ct.extension = s.extension AND ct.type_name = s.return_type WHERE s.extension = ?1");
    reveal_strlit(".extension = ?1");
    let text = return_edges_text();
    assert(text.take(edge_insertion().len() as int) =~= edge_insertion());
    let front = text.take(text.len() - 15);
    assert(text =~= front + ".extension = ?1"@);
}

proof fn lemma_cast_statement()
    ensures
        crate::report::begins_with(cast_edges_text(), edge_insertion()),
        crate::walker::ends_with(cast_edges_text(), ".extension = ?1"@),
{
    reveal_strlit("INSERT OR IGNORE INTO function_dependencies (extension, caller_name, caller_kind, callee_extension, callee_name, callee_kind, edge_kind, source_hint) SELECT ");
    reveal_strlit("INSERT OR IGNORE INTO function_dependencies (extension, caller_name, caller_kind, callee_extension, callee_name, callee_kind, edge_kind, source_hint) SELECT cr.extension, cr.function_name, 'scalar', cr.extension, ct.type_name, 'type', 'cast_target', 'cast_from=' || cr.source_kind || '/' || cr.source_fn_hint FROM cast_rewrites cr JOIN column_types ct ON ct.extension = cr.extension AND ct.type_name = cr.target_type WHERE cr.extension = ?1");
    reveal_strlit(".extension = ?1");
    let text = cast_edges_text();
    assert(text.take(edge_insertion().len() as int) =~= edge_insertion());
    let front = text.take(text.len() - 15);
    assert(text =~= front + ".extension = ?1"@);
}

proof fn lemma_operator_statement()
    ensures
        crate::report::begins_with(operator_edges_text(), edge_insertion()),
        crate::walker::ends_with(operator_edges_text(), ".extension = ?1"@),
{
    reveal_strlit("INSERT OR IGNORE INTO function_dependencies (extension, caller_name, caller_kind, callee_extension, callee_name, callee_kind, edge_kind, source_hint) SELECT ");
    reveal_strlit("INSERT OR IGNORE INTO function_dependencies (extension, caller_name, caller_kind, callee_extension, callee_name, callee_kind, edge_kind, source_hint) SELECT o.extension, o.function_name, 'scalar', o.extension, o.symbol, 'operator', 'operator_bind', 'lhs=' || IFNULL(o.lhs_type_id,'') || ' rhs=' || IFNULL(o.rhs_type_id,'') FROM operators o WHERE o.extension = ?1");
    reveal_strlit(".extension = ?1");
    let text = operator_edges_text();
    assert(text.take(edge_insertion().len() as int) =~= edge_insertion());
    let front = text.take(text.len() - 15);
    assert(text =~= front + ".extension = ?1"@);
}

proof fn lemma_argument_statement(table: Seq<char>)
    ensures
        crate::report::begins_with(argument_edges_text(table), edge_insertion()),
        crate::walker::ends_with(argument_edges_text(table), ".extension = ?1"@),
{
    reveal_strlit("INSERT OR IGNORE INTO function_dependencies (extension, caller_name, caller_kind, callee_extension, callee_name, callee_kind, edge_kind, source_hint) SELECT ");
    reveal_strlit("INSERT OR IGNORE INTO function_dependencies (extension, caller_name, caller_kind, callee_extension, callee_name, callee_kind, edge_kind, source_hint) SELECT s.extension, s.name, ?2, s.extension, ct.type_name, 'type', 'type_arg', 'arg_index=' || jouter.key FROM ");
    reveal_strlit(" s JOIN json_each(s.param_types_json) AS jouter ON 1=1 JOIN json_each(jouter.value) AS j ON 1=1 JOIN column_types ct ON ct.extension = s.extension AND ct.type_name = j.value WHERE j.type = 'text' AND s.extension = ?1");
    reveal_strlit(".extension = ?1");
    let text = argument_edges_text(table);
    let start = "INSERT OR IGNORE INTO function_dependencies (extension, caller_name, caller_kind, callee_extension, callee_name, callee_kind, edge_kind, source_hint) SELECT s.extension, s.name, ?2, s.extension, ct.type_name, 'type', 'type_arg', 'arg_index=' || jouter.key FROM "@;
    assert(start.take(edge_insertion().len() as int) =~= edge_insertion());
    assert(text.take(edge_insertion().len() as int) =~= start.take(edge_insertion().len() as int));
    let front = text.take(text.len() - 15);
    let tail = " s JOIN json_each(s.param_types_json) AS jouter ON 1=1 JOIN json_each(jouter.value) AS j ON 1=1 JOIN column_types ct ON ct.extension = s.extension AND ct.type_name = j.value WHERE j.type = 'text' AND s.extension = ?1"@;
    assert(tail.skip(tail.len() - 15) =~= ".extension = ?1"@);
    assert(text.skip(text.len() - 15) =~= tail.skip(tail.len() - 15));
    assert(text =~= front + text.skip(text.len() - 15));
}

} // verus!
