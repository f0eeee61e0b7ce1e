//! Registrations: the rows that a shim's functions, types, indexes and system
//! tables become.
//!
//! Types are handed in as the texts under which the shim shows them; the rows
//! hold them in lower case.
use vstd::prelude::*;
use vstd::string::StringExecFns;

use crate::json::{
    array_value, bool_value, natural_value, object_value, text_value, value_text,
};
use crate::text::{copies, lowercase};

verus! {

// ---------------------------------------------------------------------------
// Definitions
// ---------------------------------------------------------------------------

/// A function as a shim registers it. Each list of parameter types is one way
/// to call it.
#[derive(Clone, Debug)]
pub struct FunctionDef {
    pub name: String,
    pub param_types: Vec<Vec<String>>,
    pub aliases: Vec<String>,
}

/// A scalar function as a shim registers it.
#[derive(Clone, Debug)]
pub struct ScalarDef {
    pub function: FunctionDef,
    /// The type that it returns for its first list of parameter types.
    pub return_type: String,
    pub is_deterministic: bool,
    pub propagates_null: bool,
}

/// An aggregate function as a shim registers it.
#[derive(Clone, Debug)]
pub struct AggregateDef {
    pub function: FunctionDef,
    pub accepts_config: bool,
    pub config_arg_indices: Vec<u64>,
}

/// A column of a system table.
#[derive(Clone, Debug)]
pub struct SystemColumn {
    pub name: String,
    pub data_type: String,
    pub nullable: bool,
}

/// A system table.
#[derive(Clone, Debug)]
pub struct SystemTable {
    pub name: String,
    pub columns: Vec<SystemColumn>,
}

/// A spatial index that a shim publishes under one or more names.
#[derive(Clone, Debug)]
pub struct SpatialIndexMetadata {
    pub aliases: Vec<String>,
    pub knn: bool,
    pub within_distance: bool,
    pub within_distance_wkb: bool,
    pub update_after_build: bool,
}

// ---------------------------------------------------------------------------
// Rows
// ---------------------------------------------------------------------------

/// The row of a scalar function, and its aliases.
#[derive(Clone, Debug)]
pub struct ScalarInsert {
    pub name: String,
    pub param_types_json: String,
    pub return_type: String,
    pub is_deterministic: i32,
    pub propagates_null: i32,
    pub aliases: Vec<String>,
}

/// The row of an aggregate function, and its aliases.
#[derive(Clone, Debug)]
pub struct AggregateInsert {
    pub name: String,
    pub param_types_json: String,
    pub supports_grouped: i32,
    pub supports_partial: i32,
    pub is_order_sensitive: i32,
    pub accepts_config: i32,
    pub config_arg_indices_json: String,
    pub aliases: Vec<String>,
}

/// The row of a table or window function, and its aliases.
#[derive(Clone, Debug)]
pub struct SimpleInsert {
    pub name: String,
    pub param_types_json: String,
    pub aliases: Vec<String>,
}

/// The row of a window function, and the aggregate function that gives way to
/// it.
#[derive(Clone, Debug)]
pub struct WindowInsert {
    pub row: SimpleInsert,
    pub displaced: String,
}

/// The row of a column type.
#[derive(Clone, Debug)]
pub struct ColumnTypeInsert {
    pub type_id: i64,
    pub typename: String,
    pub storage_size: i64,
    pub cast_from_json: String,
    pub cast_to_json: String,
}

/// The row of a spatial index.
#[derive(Clone, Debug)]
pub struct SpatialIndexInsert {
    pub name: String,
    pub type_id: i64,
    pub capabilities_json: Option<String>,
}

/// The row of a system table.
#[derive(Clone, Debug)]
pub struct SystemTableInsert {
    pub catalog_name: String,
    pub table_name: String,
    pub columns_json: String,
}

// ---------------------------------------------------------------------------
// Parameters
// ---------------------------------------------------------------------------

/// Type names as a document: lower-case texts.
pub open spec fn type_names_document(names: Seq<String>) -> crate::json::Json {
    crate::json::Json::Array(
        names.map_values(|t: String| crate::json::Json::Text(crate::text::lowercased(t@))),
    )
}

/// Lists of parameter types as a document.
pub open spec fn param_types_document(lists: Seq<Vec<String>>) -> crate::json::Json {
    crate::json::Json::Array(lists.map_values(|l: Vec<String>| type_names_document(l@)))
}

/// Argument places as a document.
pub open spec fn indices_document(indices: Seq<u64>) -> crate::json::Json {
    crate::json::Json::Array(
        indices.map_values(|n: u64| crate::json::Json::Number(crate::text::decimal(n as nat))),
    )
}

/// The JSON text of a value.
fn written(v: &serde_json::Value) -> (r: String)
    ensures
        r@ == crate::json::json_text(crate::json::value_json(*v)),
{
    match value_text(v) {
        Ok(s) => s,
        Err(_) => "[]".to_owned(),
    }
}

fn type_names_value(names: &Vec<String>) -> (r: serde_json::Value)
    ensures
        crate::json::value_json(r) == type_names_document(names@),
{
    let mut items: Vec<serde_json::Value> = Vec::new();
    let mut i: usize = 0;
    while i < names.len()
        invariant
            i <= names@.len(),
            items@.len() == i,
            forall|j: int|
                0 <= j < i ==> crate::json::value_json(#[trigger] items@[j])
                    == crate::json::Json::Text(crate::text::lowercased(names@[j]@)),
        decreases names@.len() - i,
    {
        items.push(text_value(lowercase(names[i].as_str())));
        i += 1;
    }
    assert(crate::json::jsons(items@) =~= names@.map_values(
        |t: String| crate::json::Json::Text(crate::text::lowercased(t@)),
    ));
    array_value(items)
}

/// The JSON text of lists of parameter types, in lower case.
pub fn param_types_json(lists: &Vec<Vec<String>>) -> (r: String)
    ensures
        r@ == crate::json::json_text(param_types_document(lists@)),
{
    let mut items: Vec<serde_json::Value> = Vec::new();
    let mut i: usize = 0;
    while i < lists.len()
        invariant
            i <= lists@.len(),
            items@.len() == i,
            forall|j: int|
                0 <= j < i ==> crate::json::value_json(#[trigger] items@[j])
                    == type_names_document(lists@[j]@),
        decreases lists@.len() - i,
    {
        items.push(type_names_value(&lists[i]));
        i += 1;
    }
    assert(crate::json::jsons(items@) =~= lists@.map_values(
        |l: Vec<String>| type_names_document(l@),
    ));
    written(&array_value(items))
}

/// The JSON text of argument places.
pub fn config_arg_indices_json(indices: &Vec<u64>) -> (r: String)
    ensures
        r@ == crate::json::json_text(indices_document(indices@)),
{
    let mut items: Vec<serde_json::Value> = Vec::new();
    let mut i: usize = 0;
    while i < indices.len()
        invariant
            i <= indices@.len(),
            items@.len() == i,
            forall|j: int|
                0 <= j < i ==> crate::json::value_json(#[trigger] items@[j])
                    == crate::json::Json::Number(crate::text::decimal(indices@[j] as nat)),
        decreases indices@.len() - i,
    {
        items.push(natural_value(indices[i]));
        i += 1;
    }
    assert(crate::json::jsons(items@) =~= indices@.map_values(
        |n: u64| crate::json::Json::Number(crate::text::decimal(n as nat)),
    ));
    written(&array_value(items))
}

/// A flag as it is stored.
pub open spec fn flag(b: bool) -> i32 {
    if b {
        1
    } else {
        0
    }
}

fn stored_flag(b: bool) -> (r: i32)
    ensures
        r == flag(b),
{
    if b {
        1
    } else {
        0
    }
}

// ---------------------------------------------------------------------------
// Functions
// ---------------------------------------------------------------------------

/// The row of a scalar function.
pub fn register_scalar_function(def: &ScalarDef) -> (r: ScalarInsert)
    ensures
        r.name@ == def.function.name@,
        r.param_types_json@ == crate::json::json_text(
            param_types_document(def.function.param_types@),
        ),
        r.return_type@ == crate::text::lowercased(def.return_type@),
        r.is_deterministic == flag(def.is_deterministic),
        r.propagates_null == flag(def.propagates_null),
        crate::text::texts(r.aliases@) == crate::text::texts(def.function.aliases@),
{
    ScalarInsert {
        name: def.function.name.clone(),
        param_types_json: param_types_json(&def.function.param_types),
        return_type: lowercase(def.return_type.as_str()),
        is_deterministic: stored_flag(def.is_deterministic),
        propagates_null: stored_flag(def.propagates_null),
        aliases: copies(def.function.aliases.as_slice()),
    }
}

/// A row is that of a table or window function.
pub open spec fn is_simple_row(r: SimpleInsert, def: FunctionDef) -> bool {
    &&& r.name@ == def.name@
    &&& r.param_types_json@ == crate::json::json_text(param_types_document(def.param_types@))
    &&& crate::text::texts(r.aliases@) == crate::text::texts(def.aliases@)
}

/// The row of a table function.
pub fn register_table_function(def: &FunctionDef) -> (r: SimpleInsert)
    ensures
        is_simple_row(r, *def),
{
    SimpleInsert {
        name: def.name.clone(),
        param_types_json: param_types_json(&def.param_types),
        aliases: copies(def.aliases.as_slice()),
    }
}

/// The aggregate and window functions that are stored: their names, and the
/// aliases of the aggregates under the names that they stand for.
pub struct FunctionTables {
    pub aggregates: Set<Seq<char>>,
    pub aggregate_aliases: Set<(Seq<char>, Seq<char>)>,
    pub windows: Set<Seq<char>>,
}

/// A registration that the two kinds of function can get in each other's way
/// with.
pub enum Registration {
    Aggregate(Seq<char>, Seq<Seq<char>>),
    Window(Seq<char>),
}

/// What is stored after a registration. A name that is both counts as a window
/// function, whichever comes first.
pub open spec fn registered(t: FunctionTables, r: Registration) -> FunctionTables {
    match r {
        Registration::Aggregate(name, aliases) => if t.windows.contains(name) {
            t
        } else {
            FunctionTables {
                aggregates: t.aggregates.insert(name),
                aggregate_aliases: with_aliases(t.aggregate_aliases, name, aliases),
                ..t
            }
        },
        Registration::Window(name) => FunctionTables {
            aggregates: t.aggregates.remove(name),
            aggregate_aliases: without_aliases(t.aggregate_aliases, name),
            windows: t.windows.insert(name),
        },
    }
}

/// Aliases with those of one more name.
pub open spec fn with_aliases(
    stored: Set<(Seq<char>, Seq<char>)>,
    name: Seq<char>,
    aliases: Seq<Seq<char>>,
) -> Set<(Seq<char>, Seq<char>)>
    decreases aliases.len(),
{
    if aliases.len() == 0 {
        stored
    } else {
        with_aliases(stored, name, aliases.drop_last()).insert((name, aliases.last()))
    }
}

/// Aliases without those of a name.
pub open spec fn without_aliases(
    stored: Set<(Seq<char>, Seq<char>)>,
    name: Seq<char>,
) -> Set<(Seq<char>, Seq<char>)> {
    stored.filter(|p: (Seq<char>, Seq<char>)| p.0 != name)
}

/// What is stored after the row of an aggregate function was written, if there
/// is one.
pub open spec fn after_aggregate(t: FunctionTables, row: Option<AggregateInsert>) -> FunctionTables {
    match row {
        Some(r) => FunctionTables {
            aggregates: t.aggregates.insert(r.name@),
            aggregate_aliases: with_aliases(
                t.aggregate_aliases,
                r.name@,
                crate::text::texts(r.aliases@),
            ),
            ..t
        },
        None => t,
    }
}

/// What is stored after the row of a window function was written and the
/// aggregate function that gives way was deleted with its aliases.
pub open spec fn after_window(t: FunctionTables, row: WindowInsert) -> FunctionTables {
    FunctionTables {
        aggregates: t.aggregates.remove(row.displaced@),
        aggregate_aliases: without_aliases(t.aggregate_aliases, row.displaced@),
        windows: t.windows.insert(row.row.name@),
    }
}

/// The row of an aggregate function. There is none if a window function of the
/// same name is stored already.
pub fn register_aggregate_function(def: &AggregateDef, already_window: bool) -> (r: Option<
    AggregateInsert,
>)
    ensures
        r is None <==> already_window,
        r matches Some(row) ==> {
            &&& row.name@ == def.function.name@
            &&& row.param_types_json@ == crate::json::json_text(
                param_types_document(def.function.param_types@),
            )
            &&& row.supports_grouped == 1
            &&& row.supports_partial == 1
            &&& row.is_order_sensitive == 0
            &&& row.accepts_config == flag(def.accepts_config)
            &&& row.config_arg_indices_json@ == crate::json::json_text(
                indices_document(def.config_arg_indices@),
            )
            &&& crate::text::texts(row.aliases@) == crate::text::texts(def.function.aliases@)
        },
        forall|t: FunctionTables|
            already_window == t.windows.contains(def.function.name@) ==> #[trigger] after_aggregate(
                t,
                r,
            ) == registered(
                t,
                Registration::Aggregate(
                    def.function.name@,
                    crate::text::texts(def.function.aliases@),
                ),
            ),
{
    if already_window {
        return None;
    }
    Some(
        AggregateInsert {
            name: def.function.name.clone(),
            param_types_json: param_types_json(&def.function.param_types),
            supports_grouped: 1,
            supports_partial: 1,
            is_order_sensitive: 0,
            accepts_config: stored_flag(def.accepts_config),
            config_arg_indices_json: config_arg_indices_json(&def.config_arg_indices),
            aliases: copies(def.function.aliases.as_slice()),
        },
    )
}

/// The row of a window function. An aggregate function of the same name gives
/// way to it.
pub fn register_window_function(def: &FunctionDef) -> (r: WindowInsert)
    ensures
        is_simple_row(r.row, *def),
        r.displaced@ == def.name@,
        forall|t: FunctionTables| #[trigger]
            after_window(t, r) == registered(t, Registration::Window(def.name@)),
{
    WindowInsert {
        row: SimpleInsert {
            name: def.name.clone(),
            param_types_json: param_types_json(&def.param_types),
            aliases: copies(def.aliases.as_slice()),
        },
        displaced: def.name.clone(),
    }
}

// ---------------------------------------------------------------------------
// Types and indexes
// ---------------------------------------------------------------------------

/// The row of a column type. Its casts are not known when it is registered.
pub fn register_data_type(type_id: u32, typename: &str, storage_size: i64) -> (r: ColumnTypeInsert)
    ensures
        r.type_id == type_id,
        r.typename@ == typename@,
        r.storage_size == storage_size,
        r.cast_from_json@ == "[]"@,
        r.cast_to_json@ == "[]"@,
{
    ColumnTypeInsert {
        type_id: type_id as i64,
        typename: typename.to_owned(),
        storage_size,
        cast_from_json: "[]".to_owned(),
        cast_to_json: "[]".to_owned(),
    }
}

/// The row of an index that is registered for a type: it is named after the
/// type's id and says nothing of what it can do.
pub fn register_index_builder(type_id: u32) -> (r: SpatialIndexInsert)
    ensures
        r.name@ == "type_id="@ + crate::text::decimal(type_id as nat),
        r.type_id == type_id,
        r.capabilities_json is None,
{
    let mut name = "type_id=".to_owned();
    name.append(crate::text::decimal_of(type_id as u64).as_str());
    SpatialIndexInsert { name, type_id: type_id as i64, capabilities_json: None }
}

/// What a spatial index can do, as a document.
pub open spec fn capabilities_value_document(m: SpatialIndexMetadata) -> crate::json::Json {
    crate::json::Json::Object(
        seq![
            ("knn"@, crate::json::Json::Bool(m.knn)),
            ("update_after_build"@, crate::json::Json::Bool(m.update_after_build)),
            ("within_distance"@, crate::json::Json::Bool(m.within_distance)),
            ("within_distance_wkb"@, crate::json::Json::Bool(m.within_distance_wkb)),
        ],
    )
}

/// The keys of the capabilities are in ascending order.
proof fn lemma_capability_keys()
    ensures
        crate::order::text_lt("knn"@, "update_after_build"@),
        crate::order::text_lt("knn"@, "within_distance"@),
        crate::order::text_lt("knn"@, "within_distance_wkb"@),
        crate::order::text_lt("update_after_build"@, "within_distance"@),
        crate::order::text_lt("update_after_build"@, "within_distance_wkb"@),
        crate::order::text_lt("within_distance"@, "within_distance_wkb"@),
{
    reveal_strlit("knn");
    reveal_strlit("update_after_build");
    reveal_strlit("within_distance");
    reveal_strlit("within_distance_wkb");
    reveal_strlit("_wkb");
    assert("knn"@[0] == 'k' && "update_after_build"@[0] == 'u' && "within_distance"@[0] == 'w'
        && "within_distance_wkb"@[0] == 'w');
    assert("within_distance"@ + Seq::<char>::empty() =~= "within_distance"@);
    assert("within_distance"@ + "_wkb"@ =~= "within_distance_wkb"@);
    crate::order::common_prefix_keeps_order("within_distance"@, Seq::<char>::empty(), "_wkb"@);
    assert("within_distance"@.len() == 15 && "within_distance_wkb"@.len() == 19);
}

/// What a spatial index can do, as JSON text.
pub fn capabilities_json(m: &SpatialIndexMetadata) -> (r: String)
    ensures
        r@ == crate::json::json_text(capabilities_value_document(*m)),
{
    proof {
        lemma_capability_keys();
    }
    let mut map = serde_json::Map::<String, serde_json::Value>::new();
    map.insert("knn".to_owned(), bool_value(m.knn));
    let ghost one = crate::json::map_members(map);
    map.insert("update_after_build".to_owned(), bool_value(m.update_after_build));
    let ghost two = crate::json::map_members(map);
    assert(two =~= one.push(
        ("update_after_build"@, crate::json::Json::Bool(m.update_after_build)),
    ));
    map.insert("within_distance".to_owned(), bool_value(m.within_distance));
    let ghost three = crate::json::map_members(map);
    assert(three =~= two.push(("within_distance"@, crate::json::Json::Bool(m.within_distance))));
    map.insert("within_distance_wkb".to_owned(), bool_value(m.within_distance_wkb));
    assert(crate::json::Json::Object(crate::json::map_members(map)) == capabilities_value_document(
        *m,
    )) by {
        assert(crate::json::map_members(map) =~= seq![
            ("knn"@, crate::json::Json::Bool(m.knn)),
            ("update_after_build"@, crate::json::Json::Bool(m.update_after_build)),
            ("within_distance"@, crate::json::Json::Bool(m.within_distance)),
            ("within_distance_wkb"@, crate::json::Json::Bool(m.within_distance_wkb)),
        ]);
    }
    written(&object_value(map))
}

/// The rows of a spatial index that is published under aliases: one for each,
/// without the id of a type.
pub fn spatial_index_rows(m: &SpatialIndexMetadata) -> (r: Vec<SpatialIndexInsert>)
    ensures
        r@.len() == m.aliases@.len(),
        forall|i: int|
            0 <= i < r@.len() ==> (#[trigger] r@[i]).name@ == m.aliases@[i]@ && r@[i].type_id == 0
                && crate::text::text_option(r@[i].capabilities_json) == Some(
                crate::json::json_text(capabilities_value_document(*m)),
            ),
{
    let caps = capabilities_json(m);
    let mut out: Vec<SpatialIndexInsert> = Vec::new();
    let mut i: usize = 0;
    while i < m.aliases.len()
        invariant
            caps@ == crate::json::json_text(capabilities_value_document(*m)),
            i <= m.aliases@.len(),
            out@.len() == i,
            forall|j: int|
                0 <= j < i ==> (#[trigger] out@[j]).name@ == m.aliases@[j]@ && out@[j].type_id == 0
                    && crate::text::text_option(out@[j].capabilities_json) == Some(caps@),
        decreases m.aliases@.len() - i,
    {
        out.push(
            SpatialIndexInsert {
                name: m.aliases[i].clone(),
                type_id: 0,
                capabilities_json: Some(caps.clone()),
            },
        );
        i += 1;
    }
    out
}

// ---------------------------------------------------------------------------
// System tables
// ---------------------------------------------------------------------------

/// A column of a system table as a document.
pub open spec fn column_document(c: SystemColumn) -> crate::json::Json {
    crate::json::Json::Object(
        seq![
            ("data_type"@, crate::json::Json::Text(crate::text::lowercased(c.data_type@))),
            ("name"@, crate::json::Json::Text(c.name@)),
            ("nullable"@, crate::json::Json::Bool(c.nullable)),
        ],
    )
}

/// The columns of a system table as a document.
pub open spec fn columns_document(columns: Seq<SystemColumn>) -> crate::json::Json {
    crate::json::Json::Array(columns.map_values(|c: SystemColumn| column_document(c)))
}

/// The keys of a column are in ascending order.
proof fn lemma_column_keys()
    ensures
        crate::order::text_lt("data_type"@, "name"@),
        crate::order::text_lt("data_type"@, "nullable"@),
        crate::order::text_lt("name"@, "nullable"@),
{
    reveal_strlit("data_type");
    reveal_strlit("name");
    reveal_strlit("nullable");
    assert("data_type"@[0] == 'd' && "name"@[0] == 'n' && "nullable"@[0] == 'n');
    assert("name"@.drop_first()[0] == 'a' && "nullable"@.drop_first()[0] == 'u');
    reveal_with_fuel(crate::order::lex_le, 3);
}

fn column_value(c: &SystemColumn) -> (r: serde_json::Value)
    ensures
        crate::json::value_json(r) == column_document(*c),
{
    proof {
        lemma_column_keys();
    }
    let mut map = serde_json::Map::<String, serde_json::Value>::new();
    map.insert("data_type".to_owned(), text_value(lowercase(c.data_type.as_str())));
    let ghost one = crate::json::map_members(map);
    map.insert("name".to_owned(), text_value(c.name.clone()));
    let ghost two = crate::json::map_members(map);
    assert(two =~= one.push(("name"@, crate::json::Json::Text(c.name@))));
    map.insert("nullable".to_owned(), bool_value(c.nullable));
    assert(crate::json::map_members(map) =~= seq![
        ("data_type"@, crate::json::Json::Text(crate::text::lowercased(c.data_type@))),
        ("name"@, crate::json::Json::Text(c.name@)),
        ("nullable"@, crate::json::Json::Bool(c.nullable)),
    ]);
    object_value(map)
}

/// The columns of a system table as JSON text.
pub fn columns_json(columns: &Vec<SystemColumn>) -> (r: String)
    ensures
        r@ == crate::json::json_text(columns_document(columns@)),
{
    let mut items: Vec<serde_json::Value> = Vec::new();
    let mut i: usize = 0;
    while i < columns.len()
        invariant
            i <= columns@.len(),
            items@.len() == i,
            forall|j: int|
                0 <= j < i ==> crate::json::value_json(#[trigger] items@[j]) == column_document(
                    columns@[j],
                ),
        decreases columns@.len() - i,
    {
        items.push(column_value(&columns[i]));
        i += 1;
    }
    assert(crate::json::jsons(items@) =~= columns@.map_values(|c: SystemColumn| column_document(c)));
    written(&array_value(items))
}

/// The rows of the tables of a system catalog.
pub fn register_system_catalog_provider(catalog: &str, tables: &Vec<SystemTable>) -> (r: Vec<
    SystemTableInsert,
>)
    ensures
        r@.len() == tables@.len(),
        forall|i: int|
            0 <= i < r@.len() ==> (#[trigger] r@[i]).catalog_name@ == catalog@ && r@[i].table_name@
                == tables@[i].name@ && r@[i].columns_json@ == crate::json::json_text(
                columns_document(tables@[i].columns@),
            ),
{
    let mut out: Vec<SystemTableInsert> = Vec::new();
    let mut i: usize = 0;
    while i < tables.len()
        invariant
            i <= tables@.len(),
            out@.len() == i,
            forall|j: int|
                0 <= j < i ==> (#[trigger] out@[j]).catalog_name@ == catalog@ && out@[j].table_name@
                    == tables@[j].name@ && out@[j].columns_json@ == crate::json::json_text(
                    columns_document(tables@[j].columns@),
                ),
        decreases tables@.len() - i,
    {
        out.push(
            SystemTableInsert {
                catalog_name: catalog.to_owned(),
                table_name: tables[i].name.clone(),
                columns_json: columns_json(&tables[i].columns),
            },
        );
        i += 1;
    }
    out
}

// ---------------------------------------------------------------------------
// Laws
// ---------------------------------------------------------------------------

/// What is stored after a series of registrations, from nothing.
pub open spec fn registered_all(regs: Seq<Registration>) -> FunctionTables
    decreases regs.len(),
{
    if regs.len() == 0 {
        FunctionTables {
            aggregates: Set::empty(),
            aggregate_aliases: Set::empty(),
            windows: Set::empty(),
        }
    } else {
        registered(registered_all(regs.drop_last()), regs.last())
    }
}

/// A name is registered as a window function.
pub open spec fn names_window(regs: Seq<Registration>, name: Seq<char>) -> bool {
    exists|i: int| 0 <= i < regs.len() && #[trigger] regs[i] == Registration::Window(name)
}

/// A registration is one of an aggregate function of a name.
pub open spec fn is_aggregate(r: Registration, name: Seq<char>) -> bool {
    r is Aggregate && r->Aggregate_0 == name
}

/// A name is registered as an aggregate function.
pub open spec fn names_aggregate(regs: Seq<Registration>, name: Seq<char>) -> bool {
    exists|i: int| 0 <= i < regs.len() && is_aggregate(#[trigger] regs[i], name)
}

/// In whatever order functions are registered, a name that is registered as a
/// window function is stored as one and not as an aggregate, and every other
/// aggregate is stored as an aggregate.
pub proof fn window_wins_in_any_order(regs: Seq<Registration>, name: Seq<char>)
    ensures
        registered_all(regs).windows.contains(name) <==> names_window(regs, name),
        registered_all(regs).aggregates.contains(name) <==> names_aggregate(regs, name)
            && !names_window(regs, name),
    decreases regs.len(),
{
    if regs.len() > 0 {
        let front = regs.drop_last();
        let last = regs.last();
        window_wins_in_any_order(front, name);
        assert(names_window(regs, name) <==> names_window(front, name) || last
            == Registration::Window(name)) by {
            if names_window(front, name) {
                let i = choose|i: int|
                    0 <= i < front.len() && #[trigger] front[i] == Registration::Window(name);
                assert(regs[i] == Registration::Window(name));
            }
            if last == Registration::Window(name) {
                assert(regs[regs.len() - 1] == Registration::Window(name));
            }
            if names_window(regs, name) {
                let i = choose|i: int|
                    0 <= i < regs.len() && #[trigger] regs[i] == Registration::Window(name);
                if i < front.len() {
                    assert(front[i] == Registration::Window(name));
                }
            }
        }
        assert(names_aggregate(regs, name) <==> names_aggregate(front, name) || is_aggregate(
            last,
            name,
        )) by {
            if names_aggregate(front, name) {
                let i = choose|i: int|
                    0 <= i < front.len() && is_aggregate(#[trigger] front[i], name);
                assert(is_aggregate(regs[i], name));
            }
            if is_aggregate(last, name) {
                assert(is_aggregate(regs[regs.len() - 1], name));
            }
            if names_aggregate(regs, name) {
                let i = choose|i: int| 0 <= i < regs.len() && is_aggregate(#[trigger] regs[i], name);
                if i < front.len() {
                    assert(is_aggregate(front[i], name));
                }
            }
        }
    }
}

/// No function is stored as an aggregate and as a window function at once.
pub proof fn no_function_is_stored_twice(regs: Seq<Registration>)
    ensures
        registered_all(regs).aggregates.disjoint(registered_all(regs).windows),
{
    let t = registered_all(regs);
    assert forall|name: Seq<char>| !(#[trigger] t.aggregates.contains(name)
        && t.windows.contains(name)) by {
        window_wins_in_any_order(regs, name);
    }
}

proof fn lemma_with_aliases(
    stored: Set<(Seq<char>, Seq<char>)>,
    name: Seq<char>,
    aliases: Seq<Seq<char>>,
)
    ensures
        forall|p: (Seq<char>, Seq<char>)| #[trigger]
            with_aliases(stored, name, aliases).contains(p) ==> stored.contains(p) || p.0 == name,
    decreases aliases.len(),
{
    if aliases.len() > 0 {
        lemma_with_aliases(stored, name, aliases.drop_last());
        assert forall|p: (Seq<char>, Seq<char>)| #[trigger]
            with_aliases(stored, name, aliases).contains(p) implies stored.contains(p) || p.0
            == name by {
            if p != (name, aliases.last()) {
                assert(with_aliases(stored, name, aliases.drop_last()).contains(p));
            }
        }
    }
}

/// An alias of an aggregate function is stored only as long as the aggregate
/// function is.
pub proof fn aliases_go_with_their_function(regs: Seq<Registration>)
    ensures
        forall|p: (Seq<char>, Seq<char>)| #[trigger]
            registered_all(regs).aggregate_aliases.contains(p) ==> registered_all(
                regs,
            ).aggregates.contains(p.0),
    decreases regs.len(),
{
    if regs.len() > 0 {
        let t = registered_all(regs.drop_last());
        aliases_go_with_their_function(regs.drop_last());
        match regs.last() {
            Registration::Aggregate(name, aliases) => {
                lemma_with_aliases(t.aggregate_aliases, name, aliases);
            },
            Registration::Window(name) => {},
        }
    }
}

/// A stored flag is 1 if it is set and 0 if not.
pub proof fn flags_are_zero_or_one(b: bool)
    ensures
        b ==> flag(b) == 1,
        !b ==> flag(b) == 0,
{
}

/// Aliases are carried over one by one.
pub open spec fn carries_aliases(stored: Seq<String>, given: Seq<String>) -> bool {
    &&& stored.len() == given.len()
    &&& forall|i: int| 0 <= i < stored.len() ==> (#[trigger] stored[i])@ == given[i]@
}

proof fn lemma_carries(stored: Seq<String>, given: Seq<String>)
    requires
        crate::text::texts(stored) == crate::text::texts(given),
    ensures
        carries_aliases(stored, given),
{
    let x = crate::text::texts(stored);
    let y = crate::text::texts(given);
    assert(x.len() == stored.len() && y.len() == given.len());
    assert forall|i: int| 0 <= i < stored.len() implies (#[trigger] stored[i])@ == given[i]@ by {
        assert(x[i] == stored[i]@ && y[i] == given[i]@);
    }
}

/// The row of a scalar function says what the function says: its own name,
/// parameters, return type in lower case, flags and aliases.
pub proof fn scalar_rows_say_what_was_registered(
    def: &ScalarDef,
    params: String,
    r: ScalarInsert,
)
    requires
        call_ensures(register_scalar_function, (def,), r),
        call_ensures(param_types_json, (&def.function.param_types,), params),
    ensures
        r.name@ == def.function.name@,
        r.param_types_json@ == params@,
        r.return_type@ == crate::text::lowercased(def.return_type@),
        r.is_deterministic == 1 <==> def.is_deterministic,
        r.is_deterministic == 0 <==> !def.is_deterministic,
        r.propagates_null == 1 <==> def.propagates_null,
        r.propagates_null == 0 <==> !def.propagates_null,
        carries_aliases(r.aliases@, def.function.aliases@),
{
    lemma_carries(r.aliases@, def.function.aliases@);
}

/// The rows of table and window functions say what was registered, and a window
/// function displaces the aggregate function of its own name.
pub proof fn simple_rows_say_what_was_registered(
    def: &FunctionDef,
    params: String,
    table: SimpleInsert,
    window: WindowInsert,
)
    requires
        call_ensures(register_table_function, (def,), table),
        call_ensures(register_window_function, (def,), window),
        call_ensures(param_types_json, (&def.param_types,), params),
    ensures
        table.name@ == def.name@,
        table.param_types_json@ == params@,
        carries_aliases(table.aliases@, def.aliases@),
        window.row.name@ == def.name@,
        window.row.param_types_json@ == params@,
        carries_aliases(window.row.aliases@, def.aliases@),
        window.displaced@ == def.name@,
{
    lemma_carries(table.aliases@, def.aliases@);
    lemma_carries(window.row.aliases@, def.aliases@);
}

/// An aggregate function has a row unless a window function has its name. The row
/// says what was registered; every aggregate function can be grouped and run in
/// parts, and none depends on the order of its input.
pub proof fn aggregate_rows_say_what_was_registered(
    def: &AggregateDef,
    already_window: bool,
    params: String,
    places: String,
    r: Option<AggregateInsert>,
)
    requires
        call_ensures(register_aggregate_function, (def, already_window), r),
        call_ensures(param_types_json, (&def.function.param_types,), params),
        call_ensures(config_arg_indices_json, (&def.config_arg_indices,), places),
    ensures
        r is Some <==> !already_window,
        r is Some ==> {
            let row = r->0;
            &&& row.name@ == def.function.name@
            &&& row.param_types_json@ == params@
            &&& row.config_arg_indices_json@ == places@
            &&& (row.accepts_config == 1 <==> def.accepts_config)
            &&& (row.accepts_config == 0 <==> !def.accepts_config)
            &&& row.supports_grouped == 1
            &&& row.supports_partial == 1
            &&& row.is_order_sensitive == 0
            &&& carries_aliases(row.aliases@, def.function.aliases@)
        },
{
    if r is Some {
        lemma_carries(r->0.aliases@, def.function.aliases@);
    }
}

/// Parameters are stored as a list of lists of type names in lower case, in
/// order: two functions are stored with the same text exactly if they have the
/// same lists, up to case.
pub proof fn parameters_show_in_full(
    a: &Vec<Vec<String>>,
    b: &Vec<Vec<String>>,
    x: String,
    y: String,
)
    requires
        call_ensures(param_types_json, (a,), x),
        call_ensures(param_types_json, (b,), y),
    ensures
        x@ == y@ <==> a@.len() == b@.len() && forall|i: int|
            0 <= i < a@.len() ==> same_types(#[trigger] a@[i], b@[i]),
{
    let p = param_types_document(a@);
    let q = param_types_document(b@);
    lemma_param_numerals(a@);
    lemma_param_numerals(b@);
    crate::json::texts_tell_documents_apart(p, q);
    if p == q {
        assert(p->Array_0.len() == q->Array_0.len());
        assert forall|i: int| 0 <= i < a@.len() implies same_types(#[trigger] a@[i], b@[i]) by {
            assert(p->Array_0[i] == q->Array_0[i]);
            let s = type_names_document(a@[i]@);
            let t = type_names_document(b@[i]@);
            assert(s->Array_0.len() == t->Array_0.len());
            assert forall|j: int| 0 <= j < a@[i]@.len() implies crate::text::lowercased(
                (#[trigger] a@[i]@[j])@,
            ) == crate::text::lowercased(b@[i]@[j]@) by {
                assert(s->Array_0[j] == t->Array_0[j]);
            }
        }
    }
    if a@.len() == b@.len() && forall|i: int|
        0 <= i < a@.len() ==> same_types(#[trigger] a@[i], b@[i]) {
        assert forall|i: int| 0 <= i < a@.len() implies p->Array_0[i] == q->Array_0[i] by {
            assert(same_types(a@[i], b@[i]));
            let s = type_names_document(a@[i]@);
            let t = type_names_document(b@[i]@);
            assert forall|j: int| 0 <= j < a@[i]@.len() implies s->Array_0[j] == t->Array_0[j] by {
                assert(crate::text::lowercased(a@[i]@[j]@) == crate::text::lowercased(
                    b@[i]@[j]@,
                ));
            }
            assert(s->Array_0 =~= t->Array_0);
        }
        assert(p->Array_0 =~= q->Array_0);
    }
}

/// Two lists of types are the same up to case.
pub open spec fn same_types(a: Vec<String>, b: Vec<String>) -> bool {
    &&& a@.len() == b@.len()
    &&& forall|j: int|
        0 <= j < a@.len() ==> crate::text::lowercased((#[trigger] a@[j])@)
            == crate::text::lowercased(b@[j]@)
}

proof fn lemma_param_numerals(lists: Seq<Vec<String>>)
    ensures
        crate::json::holds_numerals(param_types_document(lists)),
{
    assert forall|i: int| 0 <= i < lists.len() implies crate::json::holds_numerals(
        #[trigger] param_types_document(lists)->Array_0[i],
    ) by {
        let doc = type_names_document(lists[i]@);
        assert(param_types_document(lists)->Array_0[i] == doc);
        assert forall|j: int| 0 <= j < lists[i]@.len() implies crate::json::holds_numerals(
            #[trigger] doc->Array_0[j],
        ) by {
            assert(doc->Array_0[j] == crate::json::Json::Text(
                crate::text::lowercased(lists[i]@[j]@),
            ));
        }
    }
}

/// Argument places are stored as a list of numbers, in order: two functions are
/// stored with the same text exactly if their places are the same.
pub proof fn places_show_in_full(a: &Vec<u64>, b: &Vec<u64>, x: String, y: String)
    requires
        call_ensures(config_arg_indices_json, (a,), x),
        call_ensures(config_arg_indices_json, (b,), y),
    ensures
        x@ == y@ <==> a@ == b@,
{
    let p = indices_document(a@);
    let q = indices_document(b@);
    crate::text::lemma_integer_numeral();
    assert forall|n: u64| crate::json::numeral(#[trigger] crate::text::decimal(n as nat)) by {
        assert(crate::text::integer_text(n as int) == crate::text::decimal(n as nat));
    }
    assert forall|i: int| 0 <= i < a@.len() implies crate::json::holds_numerals(
        #[trigger] p->Array_0[i],
    ) by {
        assert(p->Array_0[i] == crate::json::Json::Number(crate::text::decimal(a@[i] as nat)));
    }
    assert forall|i: int| 0 <= i < b@.len() implies crate::json::holds_numerals(
        #[trigger] q->Array_0[i],
    ) by {
        assert(q->Array_0[i] == crate::json::Json::Number(crate::text::decimal(b@[i] as nat)));
    }
    crate::json::texts_tell_documents_apart(p, q);
    if p == q {
        assert(p->Array_0.len() == q->Array_0.len());
        assert forall|i: int| 0 <= i < a@.len() implies a@[i] == b@[i] by {
            assert(p->Array_0[i] == q->Array_0[i]);
            assert(crate::text::integer_text(a@[i] as int) == crate::text::integer_text(
                b@[i] as int,
            ));
            crate::text::integer_texts_differ(a@[i] as int, b@[i] as int);
        }
        assert(a@ =~= b@);
    }
}

/// A type is stored as it is registered, without casts.
pub proof fn types_are_stored_as_registered(
    type_id: u32,
    typename: &str,
    storage_size: i64,
    r: ColumnTypeInsert,
)
    requires
        call_ensures(register_data_type, (type_id, typename, storage_size), r),
    ensures
        r.type_id == type_id,
        r.typename@ == typename@,
        r.storage_size == storage_size,
        r.cast_from_json@ == r.cast_to_json@,
        r.cast_from_json@ == crate::json::json_text(crate::json::Json::Array(Seq::empty())),
{
    reveal_strlit("[]");
    assert(crate::text::joined(Seq::empty(), seq![',']) =~= Seq::<char>::empty());
    assert(crate::json::json_texts(Seq::empty()) =~= Seq::<Seq<char>>::empty());
    assert("[]"@ =~= seq!['['] + Seq::<char>::empty() + seq![']']);
}

/// Indexes that are registered for different types go by different names, and
/// each holds the id of its own type.
pub proof fn indexes_go_by_their_type(
    a: u32,
    b: u32,
    x: SpatialIndexInsert,
    y: SpatialIndexInsert,
)
    requires
        call_ensures(register_index_builder, (a,), x),
        call_ensures(register_index_builder, (b,), y),
    ensures
        x.type_id == a,
        x.capabilities_json is None,
        x.name@ == y.name@ <==> a == b,
{
    if x.name@ == y.name@ {
        let n = "type_id="@.len() as int;
        assert(x.name@.skip(n) =~= crate::text::decimal(a as nat));
        assert(y.name@.skip(n) =~= crate::text::decimal(b as nat));
        assert(crate::text::integer_text(a as int) == crate::text::integer_text(b as int));
        crate::text::integer_texts_differ(a as int, b as int);
    }
}

proof fn lemma_capability_names()
    ensures
        "knn"@ != "update_after_build"@,
        "knn"@ != "within_distance"@,
        "knn"@ != "within_distance_wkb"@,
        "update_after_build"@ != "within_distance"@,
        "update_after_build"@ != "within_distance_wkb"@,
        "within_distance"@ != "within_distance_wkb"@,
{
    lemma_capability_keys();
}

/// Each capability of a spatial index is written under its own name, and there is
/// no other.
pub proof fn capabilities_go_by_their_names(m: SpatialIndexMetadata)
    ensures
        ({
            let members = capabilities_value_document(m)->Object_0;
            &&& capabilities_value_document(m) is Object
            &&& members.len() == 4
            &&& crate::json::member_value(members, "knn"@) == Some(crate::json::Json::Bool(m.knn))
            &&& crate::json::member_value(members, "within_distance"@) == Some(
                crate::json::Json::Bool(m.within_distance),
            )
            &&& crate::json::member_value(members, "within_distance_wkb"@) == Some(
                crate::json::Json::Bool(m.within_distance_wkb),
            )
            &&& crate::json::member_value(members, "update_after_build"@) == Some(
                crate::json::Json::Bool(m.update_after_build),
            )
        }),
{
    lemma_capability_names();
    reveal_with_fuel(crate::json::member_value, 5);
    let members = capabilities_value_document(m)->Object_0;
    let a = members.drop_last();
    let b = a.drop_last();
    let c = b.drop_last();
    assert(members.last() == ("within_distance_wkb"@, crate::json::Json::Bool(m.within_distance_wkb)));
    assert(a.last() == ("within_distance"@, crate::json::Json::Bool(m.within_distance)));
    assert(b.last() == ("update_after_build"@, crate::json::Json::Bool(m.update_after_build)));
    assert(c.last() == ("knn"@, crate::json::Json::Bool(m.knn)));
}

/// A spatial index has a row for each of its aliases, in order, without a type
/// and with all that it can do.
pub proof fn every_alias_has_its_index_row(
    m: &SpatialIndexMetadata,
    r: Vec<SpatialIndexInsert>,
    caps: String,
)
    requires
        call_ensures(spatial_index_rows, (m,), r),
        call_ensures(capabilities_json, (m,), caps),
    ensures
        r@.len() == m.aliases@.len(),
        forall|i: int| #![trigger r@[i]]
            0 <= i < r@.len() ==> r@[i].name@ == m.aliases@[i]@ && r@[i].type_id == 0
                && r@[i].capabilities_json is Some && r@[i].capabilities_json->0@ == caps@,
{
}

/// A column of a system table is written with its name as it is, its type in
/// lower case, and whether it may be null.
pub proof fn columns_go_by_their_names(c: SystemColumn)
    ensures
        ({
            let members = column_document(c)->Object_0;
            &&& column_document(c) is Object
            &&& members.len() == 3
            &&& crate::json::member_value(members, "name"@) == Some(
                crate::json::Json::Text(c.name@),
            )
            &&& crate::json::member_value(members, "data_type"@) == Some(
                crate::json::Json::Text(crate::text::lowercased(c.data_type@)),
            )
            &&& crate::json::member_value(members, "nullable"@) == Some(
                crate::json::Json::Bool(c.nullable),
            )
        }),
{
    lemma_column_keys();
    reveal_with_fuel(crate::json::member_value, 4);
    let members = column_document(c)->Object_0;
    let a = members.drop_last();
    let b = a.drop_last();
    assert(members.last() == ("nullable"@, crate::json::Json::Bool(c.nullable)));
    assert(a.last() == ("name"@, crate::json::Json::Text(c.name@)));
    assert(b.last() == (
        "data_type"@,
        crate::json::Json::Text(crate::text::lowercased(c.data_type@)),
    ));
}

/// Every table of a system catalog has its row, in order, under the catalog, with
/// its own columns.
pub proof fn every_system_table_has_its_row(
    catalog: &str,
    tables: &Vec<SystemTable>,
    r: Vec<SystemTableInsert>,
    i: int,
    columns: String,
)
    requires
        call_ensures(register_system_catalog_provider, (catalog, tables), r),
        0 <= i < tables@.len(),
        call_ensures(columns_json, (&tables@[i].columns,), columns),
    ensures
        r@.len() == tables@.len(),
        r@[i].catalog_name@ == catalog@,
        r@[i].table_name@ == tables@[i].name@,
        r@[i].columns_json@ == columns@,
{
}

/// The columns of a system table are written in order, one by one.
pub proof fn columns_are_written_in_order(columns: Seq<SystemColumn>, i: int)
    requires
        0 <= i < columns.len(),
    ensures
        columns_document(columns) is Array,
        columns_document(columns)->Array_0.len() == columns.len(),
        columns_document(columns)->Array_0[i] == column_document(columns[i]),
{
}

/// A registration stores an aggregate function with exactly its own aliases and
/// keeps all that was stored, unless a window function has the name; a window
/// function takes the name, and the aliases stored for it, from the aggregates
/// and keeps the rest.
pub proof fn registrations_change_their_name_alone(
    t: FunctionTables,
    name: Seq<char>,
    aliases: Seq<Seq<char>>,
    other: Seq<char>,
    alias: Seq<char>,
)
    ensures
        ({
            let a = registered(t, Registration::Aggregate(name, aliases));
            let w = registered(t, Registration::Window(name));
            &&& t.windows.contains(name) ==> a == t
            &&& a.windows == t.windows
            &&& !t.windows.contains(name) ==> a.aggregates.contains(name) && (
            a.aggregate_aliases.contains((name, alias)) <==> t.aggregate_aliases.contains(
                (name, alias),
            ) || aliases.contains(alias))
            &&& w.windows.contains(name)
            &&& !w.aggregates.contains(name)
            &&& !w.aggregate_aliases.contains((name, alias))
            &&& other != name ==> {
                &&& (a.aggregates.contains(other) <==> t.aggregates.contains(other))
                &&& (w.aggregates.contains(other) <==> t.aggregates.contains(other))
                &&& (w.windows.contains(other) <==> t.windows.contains(other))
                &&& (a.aggregate_aliases.contains((other, alias))
                    <==> t.aggregate_aliases.contains((other, alias)))
                &&& (w.aggregate_aliases.contains((other, alias))
                    <==> t.aggregate_aliases.contains((other, alias)))
            }
        }),
{
    lemma_aliases_added(t.aggregate_aliases, name, aliases, other, alias);
}

proof fn lemma_aliases_added(
    stored: Set<(Seq<char>, Seq<char>)>,
    name: Seq<char>,
    aliases: Seq<Seq<char>>,
    other: Seq<char>,
    alias: Seq<char>,
)
    ensures
        with_aliases(stored, name, aliases).contains((name, alias)) <==> stored.contains(
            (name, alias),
        ) || aliases.contains(alias),
        other != name ==> (with_aliases(stored, name, aliases).contains((other, alias))
            <==> stored.contains((other, alias))),
    decreases aliases.len(),
{
    if aliases.len() > 0 {
        let front = aliases.drop_last();
        lemma_aliases_added(stored, name, front, other, alias);
        if aliases.contains(alias) {
            let i = choose|i: int| 0 <= i < aliases.len() && aliases[i] == alias;
            if i < front.len() {
                assert(front[i] == alias);
            }
        }
        if front.contains(alias) {
            let i = choose|i: int| 0 <= i < front.len() && front[i] == alias;
            assert(aliases[i] == alias);
        }
        assert(aliases[aliases.len() - 1] == aliases.last());
    }
}

} // verus!
