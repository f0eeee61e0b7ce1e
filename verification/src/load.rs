//! From the rows of a database, or the lists of a TOML catalog, to the
//! entities of a [`Catalog`].
use vstd::prelude::*;
use vstd::string::StringExecFns;

use crate::catalog::{Catalog, Entity, Family, FamilyRows, FamilyTable, SourceKind};
use crate::order::{distinct_texts, stable_sort};
use crate::text::{integer_of, lists, option_clone};

verus! {

// ---------------------------------------------------------------------------
// Database rows
// ---------------------------------------------------------------------------

/// A row of a catalog table.
pub trait CatalogRow: Sized {
    /// The entity that the row stands for.
    spec fn entity(&self) -> crate::catalog::EntityModel;

    /// The entity that the row stands for.
    fn to_entity(&self) -> (r: Entity)
        ensures
            r@ == self.entity(),
    ;
}

/// A row of `scalars`, `aggregates`, `table_functions` or `window_functions`.
#[derive(Clone, Debug)]
pub struct NamedRow {
    pub extension: String,
    pub name: String,
    pub signature_hash: Option<String>,
}

impl CatalogRow for NamedRow {
    /// Keyed by extension and name.
    open spec fn entity(&self) -> crate::catalog::EntityModel {
        crate::catalog::EntityModel {
            pk: self.extension@ + "|"@ + self.name@,
            display: self.name@,
            signature_hash: crate::text::text_option(self.signature_hash),
        }
    }

    fn to_entity(&self) -> (r: Entity) {
        let mut pk = self.extension.clone();
        pk.append("|");
        pk.append(self.name.as_str());
        Entity {
            pk,
            display: self.name.clone(),
            signature_hash: option_clone(&self.signature_hash),
        }
    }
}

/// A row of `column_types`.
#[derive(Clone, Debug)]
pub struct ColumnTypeRow {
    pub extension: String,
    pub type_id: i64,
    pub typename: String,
    pub signature_hash: Option<String>,
}

impl CatalogRow for ColumnTypeRow {
    /// Keyed by extension, type id and type name.
    open spec fn entity(&self) -> crate::catalog::EntityModel {
        crate::catalog::EntityModel {
            pk: self.extension@ + "|"@ + crate::text::integer_text(self.type_id as int) + "|"@
                + self.typename@,
            display: self.typename@,
            signature_hash: crate::text::text_option(self.signature_hash),
        }
    }

    fn to_entity(&self) -> (r: Entity) {
        let mut pk = self.extension.clone();
        pk.append("|");
        pk.append(integer_of(self.type_id).as_str());
        pk.append("|");
        pk.append(self.typename.as_str());
        Entity {
            pk,
            display: self.typename.clone(),
            signature_hash: option_clone(&self.signature_hash),
        }
    }
}

/// A row of `operators`.
#[derive(Clone, Debug)]
pub struct OperatorRow {
    pub extension: String,
    pub symbol: String,
    pub lhs_type_id: Option<i64>,
    pub rhs_type_id: Option<i64>,
    pub function_name: String,
    pub signature_hash: Option<String>,
}

/// How an operand type is written: its id, or `null`.
pub open spec fn operand_text(id: Option<i64>) -> Seq<char> {
    match id {
        Some(i) => crate::text::integer_text(i as int),
        None => "null"@,
    }
}

/// How an operand type is written.
fn operand(id: Option<i64>) -> (r: String)
    ensures
        r@ == operand_text(id),
{
    match id {
        Some(i) => integer_of(i),
        None => "null".to_owned(),
    }
}

impl CatalogRow for OperatorRow {
    /// Keyed by extension, symbol and operand types.
    open spec fn entity(&self) -> crate::catalog::EntityModel {
        crate::catalog::EntityModel {
            pk: self.extension@ + "|"@ + self.symbol@ + "|"@ + operand_text(self.lhs_type_id)
                + "|"@ + operand_text(self.rhs_type_id),
            display: self.symbol@ + " ("@ + operand_text(self.lhs_type_id) + ","@ + operand_text(
                self.rhs_type_id,
            ) + ") -> "@ + self.function_name@,
            signature_hash: crate::text::text_option(self.signature_hash),
        }
    }

    fn to_entity(&self) -> (r: Entity) {
        let lhs = operand(self.lhs_type_id);
        let rhs = operand(self.rhs_type_id);
        let mut pk = self.extension.clone();
        pk.append("|");
        pk.append(self.symbol.as_str());
        pk.append("|");
        pk.append(lhs.as_str());
        pk.append("|");
        pk.append(rhs.as_str());
        let mut display = self.symbol.clone();
        display.append(" (");
        display.append(lhs.as_str());
        display.append(",");
        display.append(rhs.as_str());
        display.append(") -> ");
        display.append(self.function_name.as_str());
        Entity { pk, display, signature_hash: option_clone(&self.signature_hash) }
    }
}

/// A row of `cast_rewrites`.
#[derive(Clone, Debug)]
pub struct CastRewriteRow {
    pub extension: String,
    pub target_type: String,
    pub source_kind: String,
    pub source_fn_hint: String,
    pub source_type_id: i64,
    pub function_name: String,
    pub signature_hash: Option<String>,
}

impl CatalogRow for CastRewriteRow {
    /// Keyed by extension, target type and source.
    open spec fn entity(&self) -> crate::catalog::EntityModel {
        crate::catalog::EntityModel {
            pk: self.extension@ + "|"@ + self.target_type@ + "|"@ + self.source_kind@ + "|"@
                + self.source_fn_hint@ + "|"@ + crate::text::integer_text(
                self.source_type_id as int,
            ),
            display: self.target_type@ + " <- "@ + self.source_kind@ + "/"@ + self.source_fn_hint@
                + "#"@ + crate::text::integer_text(self.source_type_id as int) + " via "@
                + self.function_name@,
            signature_hash: crate::text::text_option(self.signature_hash),
        }
    }

    fn to_entity(&self) -> (r: Entity) {
        let source_type = integer_of(self.source_type_id);
        let mut pk = self.extension.clone();
        pk.append("|");
        pk.append(self.target_type.as_str());
        pk.append("|");
        pk.append(self.source_kind.as_str());
        pk.append("|");
        pk.append(self.source_fn_hint.as_str());
        pk.append("|");
        pk.append(source_type.as_str());
        let mut display = self.target_type.clone();
        display.append(" <- ");
        display.append(self.source_kind.as_str());
        display.append("/");
        display.append(self.source_fn_hint.as_str());
        display.append("#");
        display.append(source_type.as_str());
        display.append(" via ");
        display.append(self.function_name.as_str());
        Entity { pk, display, signature_hash: option_clone(&self.signature_hash) }
    }
}

/// A row of `spatial_indexes`.
#[derive(Clone, Debug)]
pub struct SpatialIndexRow {
    pub extension: String,
    pub name: String,
    pub type_id: i64,
    pub signature_hash: Option<String>,
}

impl CatalogRow for SpatialIndexRow {
    /// Keyed by extension, name and type id.
    open spec fn entity(&self) -> crate::catalog::EntityModel {
        crate::catalog::EntityModel {
            pk: self.extension@ + "|"@ + self.name@ + "|"@ + crate::text::integer_text(
                self.type_id as int,
            ),
            display: self.name@,
            signature_hash: crate::text::text_option(self.signature_hash),
        }
    }

    fn to_entity(&self) -> (r: Entity) {
        let mut pk = self.extension.clone();
        pk.append("|");
        pk.append(self.name.as_str());
        pk.append("|");
        pk.append(integer_of(self.type_id).as_str());
        Entity {
            pk,
            display: self.name.clone(),
            signature_hash: option_clone(&self.signature_hash),
        }
    }
}

/// A row of `preprocessor_patterns`.
#[derive(Clone, Debug)]
pub struct PreprocessorPatternRow {
    pub extension: String,
    pub op_token: String,
    pub function_name: String,
    pub signature_hash: Option<String>,
}

impl CatalogRow for PreprocessorPatternRow {
    /// Keyed by extension and operator token.
    open spec fn entity(&self) -> crate::catalog::EntityModel {
        crate::catalog::EntityModel {
            pk: self.extension@ + "|"@ + self.op_token@,
            display: self.op_token@ + " -> "@ + self.function_name@,
            signature_hash: crate::text::text_option(self.signature_hash),
        }
    }

    fn to_entity(&self) -> (r: Entity) {
        let mut pk = self.extension.clone();
        pk.append("|");
        pk.append(self.op_token.as_str());
        let mut display = self.op_token.clone();
        display.append(" -> ");
        display.append(self.function_name.as_str());
        Entity { pk, display, signature_hash: option_clone(&self.signature_hash) }
    }
}

/// The entities that the rows of a table stand for.
pub open spec fn row_entities<R: CatalogRow>(rows: Seq<R>) -> Seq<crate::catalog::EntityModel> {
    rows.map_values(|r: R| r.entity())
}

/// Some entity carries a signature hash.
pub open spec fn any_hash(entities: Seq<crate::catalog::EntityModel>) -> bool {
    exists|i: int| 0 <= i < entities.len() && (#[trigger] entities[i]).signature_hash is Some
}

/// Turns the rows of a table into entities, sorted by key, and tells whether
/// any of them carries a signature hash.
fn load_rows<R: CatalogRow>(rows: &Vec<R>) -> (r: (Vec<Entity>, bool))
    ensures
        crate::catalog::entity_models(r.0@) == crate::order::stable_sorted(
            row_entities(rows@),
            crate::catalog::pk_order(),
        ),
        r.1 == any_hash(row_entities(rows@)),
{
    let mut entities: Vec<Entity> = Vec::new();
    let mut hashed = false;
    let mut i: usize = 0;
    while i < rows.len()
        invariant
            i <= rows@.len(),
            entities@.len() == i,
            forall|k: int| 0 <= k < i ==> (#[trigger] entities@[k])@ == rows@[k].entity(),
            hashed == exists|k: int|
                0 <= k < i && (#[trigger] row_entities(rows@)[k]).signature_hash is Some,
        decreases rows@.len() - i,
    {
        let entity = rows[i].to_entity();
        assert(row_entities(rows@)[i as int] == entity@);
        if entity.signature_hash.is_some() {
            hashed = true;
        }
        entities.push(entity);
        i += 1;
    }
    let ghost unsorted = entities@;
    let sorted = stable_sort(entities);
    proof {
        let f = |e: Entity| e@;
        assert(unsorted.map_values(f) =~= row_entities(rows@));
        crate::order::sorting_commutes_with_map(
            unsorted,
            crate::order::rank_order::<Entity>(),
            f,
            crate::catalog::pk_order(),
        );
    }
    (sorted, hashed)
}

/// Loads a table of functions. Hashes count as unavailable if the table has no
/// column for them, or if they are expected and no row has one.
pub fn load_simple_named(rows: &Vec<NamedRow>, has_hash: bool, expect_hash: bool) -> (r: FamilyRows)
    ensures
        r.models() == crate::order::stable_sorted(row_entities(rows@), crate::catalog::pk_order()),
        r.signatures_unavailable == (!has_hash || (expect_hash && !any_hash(row_entities(rows@)))),
{
    let (rows, hashed) = load_rows(rows);
    FamilyRows { rows, signatures_unavailable: !has_hash || (expect_hash && !hashed) }
}

/// Loads `column_types`.
pub fn load_column_types(rows: &Vec<ColumnTypeRow>, has_hash: bool) -> (r: FamilyRows)
    ensures
        r.models() == crate::order::stable_sorted(row_entities(rows@), crate::catalog::pk_order()),
        r.signatures_unavailable == (!has_hash || !any_hash(row_entities(rows@))),
{
    let (rows, hashed) = load_rows(rows);
    FamilyRows { rows, signatures_unavailable: !has_hash || !hashed }
}

/// Loads `operators`.
pub fn load_operators(rows: &Vec<OperatorRow>, has_hash: bool) -> (r: FamilyRows)
    ensures
        r.models() == crate::order::stable_sorted(row_entities(rows@), crate::catalog::pk_order()),
        r.signatures_unavailable == (!has_hash || !any_hash(row_entities(rows@))),
{
    let (rows, hashed) = load_rows(rows);
    FamilyRows { rows, signatures_unavailable: !has_hash || !hashed }
}

/// Loads `cast_rewrites`.
pub fn load_cast_rewrites(rows: &Vec<CastRewriteRow>, has_hash: bool) -> (r: FamilyRows)
    ensures
        r.models() == crate::order::stable_sorted(row_entities(rows@), crate::catalog::pk_order()),
        r.signatures_unavailable == (!has_hash || !any_hash(row_entities(rows@))),
{
    let (rows, hashed) = load_rows(rows);
    FamilyRows { rows, signatures_unavailable: !has_hash || !hashed }
}

/// Loads `spatial_indexes`.
pub fn load_spatial_indexes(rows: &Vec<SpatialIndexRow>, has_hash: bool) -> (r: FamilyRows)
    ensures
        r.models() == crate::order::stable_sorted(row_entities(rows@), crate::catalog::pk_order()),
        r.signatures_unavailable == (!has_hash || !any_hash(row_entities(rows@))),
{
    let (rows, hashed) = load_rows(rows);
    FamilyRows { rows, signatures_unavailable: !has_hash || !hashed }
}

/// Loads `preprocessor_patterns`.
pub fn load_preprocessor_patterns(
    rows: &Vec<PreprocessorPatternRow>,
    has_hash: bool,
) -> (r: FamilyRows)
    ensures
        r.models() == crate::order::stable_sorted(row_entities(rows@), crate::catalog::pk_order()),
        r.signatures_unavailable == (!has_hash || !any_hash(row_entities(rows@))),
{
    let (rows, hashed) = load_rows(rows);
    FamilyRows { rows, signatures_unavailable: !has_hash || !hashed }
}

/// Whether a list of column names has `column`.
pub fn column_exists(columns: &[String], column: &str) -> (r: bool)
    ensures
        r == crate::text::texts(columns@).contains(column@),
{
    lists(columns, column)
}

/// `PRAGMA table_info` for a table, with its name quoted.
pub fn table_info_sql(table: &str) -> (r: String)
    ensures
        r@ == "PRAGMA table_info(\""@ + crate::text::quotes_doubled(table@) + "\")"@,
{
    let mut out = "PRAGMA table_info(\"".to_owned();
    out.append(crate::text::double_quotes(table).as_str());
    out.append("\")");
    out
}

/// The columns that are read of a family's table, before the hash.
pub open spec fn columns_text(fam: Family) -> Seq<char> {
    match fam {
        Family::ColumnTypes => "extension, type_id, type_name"@,
        Family::Operators => "extension, symbol, lhs_type_id, rhs_type_id, function_name"@,
        Family::CastRewrites
            => "extension, target_type, source_kind, source_fn_hint, source_type_id, function_name"@,
        Family::SpatialIndexes => "extension, name, type_id"@,
        Family::PreprocessorPatterns => "extension, op_token, function_name"@,
        _ => "extension, name"@,
    }
}

/// The statement that reads the rows of a family. Where the table has no
/// column for the hash, null stands in for it.
pub fn select_sql(fam: Family, has_hash: bool) -> (r: String)
    ensures
        r@ == "SELECT "@ + columns_text(fam) + (if has_hash {
            ", signature_hash FROM "@
        } else {
            ", NULL AS signature_hash FROM "@
        }) + fam.slug_text(),
{
    let columns = match fam {
        Family::ColumnTypes => "extension, type_id, type_name",
        Family::Operators => "extension, symbol, lhs_type_id, rhs_type_id, function_name",
        Family::CastRewrites
            => "extension, target_type, source_kind, source_fn_hint, source_type_id, function_name",
        Family::SpatialIndexes => "extension, name, type_id",
        Family::PreprocessorPatterns => "extension, op_token, function_name",
        _ => "extension, name",
    };
    let mut out = "SELECT ".to_owned();
    out.append(columns);
    if has_hash {
        out.append(", signature_hash FROM ");
    } else {
        out.append(", NULL AS signature_hash FROM ");
    }
    out.append(fam.slug());
    out
}

/// `cat` is labelled by its extension and version.
pub open spec fn is_labelled(cat: Catalog) -> bool {
    cat.display_label@ == cat.extension@ + "@"@ + cat.version@
}

/// The label of a catalog.
fn display_label(extension: &str, version: &str) -> (r: String)
    ensures
        r@ == extension@ + "@"@ + version@,
{
    let mut out = extension.to_owned();
    out.append("@");
    out.append(version);
    out
}

/// A catalog out of a database.
pub fn sqlite_catalog(
    extension: String,
    version: String,
    user_version: u32,
    source_path: String,
    families: FamilyTable,
) -> (r: Catalog)
    ensures
        is_labelled(r),
        r.extension@ == extension@,
        r.version@ == version@,
        r.schema_version == Some(user_version),
        r.source_path@ == source_path@,
        r.source_kind is Sqlite,
        r.families == families,
{
    Catalog {
        display_label: display_label(extension.as_str(), version.as_str()),
        extension,
        version,
        schema_version: Some(user_version),
        source_path,
        source_kind: SourceKind::Sqlite,
        families,
    }
}

// ---------------------------------------------------------------------------
// TOML catalogs
// ---------------------------------------------------------------------------

/// What a comparison reads of a TOML catalog.
#[derive(Clone, Debug)]
pub struct CatalogToml {
    pub meta: TomlMeta,
    pub types: Vec<TomlType>,
    pub leaves: Vec<TomlLeaf>,
}

/// The `[meta]` table.
#[derive(Clone, Debug)]
pub struct TomlMeta {
    pub extension: Option<String>,
    pub version: Option<String>,
}

/// One of the `[[types]]`.
#[derive(Clone, Debug)]
pub struct TomlType {
    pub name: String,
    pub kind: Option<String>,
}

/// One of the `[[leaves]]`: the names it declares in each family.
#[derive(Clone, Debug)]
pub struct TomlLeaf {
    pub scalars: Vec<String>,
    pub aggregates: Vec<String>,
    pub table_functions: Vec<String>,
    pub window_functions: Vec<String>,
    pub operators: Vec<String>,
    pub casts: Vec<String>,
    pub preprocessor_patterns: Vec<String>,
    pub spatial_indexes: Vec<String>,
}

impl TomlLeaf {
    /// The names that the leaf declares in a family.
    pub open spec fn names(self, fam: Family) -> Seq<Seq<char>> {
        match fam {
            Family::Scalars => crate::text::texts(self.scalars@),
            Family::Aggregates => crate::text::texts(self.aggregates@),
            Family::TableFunctions => crate::text::texts(self.table_functions@),
            Family::WindowFunctions => crate::text::texts(self.window_functions@),
            Family::ColumnTypes => Seq::empty(),
            Family::Operators => crate::text::texts(self.operators@),
            Family::CastRewrites => crate::text::texts(self.casts@),
            Family::SpatialIndexes => crate::text::texts(self.spatial_indexes@),
            Family::PreprocessorPatterns => crate::text::texts(self.preprocessor_patterns@),
        }
    }
}

impl CatalogToml {
    /// The document declares `name` in a family: a leaf does, or, for a type,
    /// the list of types does.
    pub open spec fn declares(self, fam: Family, name: Seq<char>) -> bool {
        match fam {
            Family::ColumnTypes => exists|i: int|
                0 <= i < self.types@.len() && (#[trigger] self.types@[i]).name@ == name,
            _ => exists|i: int|
                0 <= i < self.leaves@.len() && (#[trigger] self.leaves@[i]).names(fam).contains(
                    name,
                ),
        }
    }

    /// The extension the document is about.
    pub open spec fn extension_text(self) -> Seq<char> {
        match self.meta.extension {
            Some(e) => e@,
            None => "<unknown-extension>"@,
        }
    }

    /// The version of that extension.
    pub open spec fn version_text(self) -> Seq<char> {
        match self.meta.version {
            Some(v) => v@,
            None => "<unknown-version>"@,
        }
    }
}

/// What entities are shown as.
pub open spec fn displays(rows: Seq<Entity>) -> Seq<Seq<char>> {
    rows.map_values(|e: Entity| e.display@)
}

/// `rows` lists each name that the document declares in the family once, in
/// ascending order, without signature hashes.
pub open spec fn are_toml_rows(rows: FamilyRows, doc: CatalogToml, fam: Family) -> bool {
    &&& rows.signatures_unavailable
    &&& crate::order::ascending(displays(rows.rows@), crate::order::text_order())
    &&& forall|name: Seq<char>| #[trigger]
        displays(rows.rows@).contains(name) <==> doc.declares(fam, name)
    &&& forall|i: int|
        0 <= i < rows.rows@.len() ==> (#[trigger] rows.rows@[i]).pk@ == doc.extension_text() + "|"@
            + rows.rows@[i].display@ && rows.rows@[i].signature_hash is None
}

impl TomlLeaf {
    /// The names that the leaf declares in a family; `None` for types, which
    /// no leaf declares.
    fn list(&self, fam: Family) -> (r: Option<&Vec<String>>)
        ensures
            match r {
                Some(names) => crate::text::texts(names@) == self.names(fam) && !(
                fam is ColumnTypes),
                None => fam is ColumnTypes,
            },
    {
        match fam {
            Family::Scalars => Some(&self.scalars),
            Family::Aggregates => Some(&self.aggregates),
            Family::TableFunctions => Some(&self.table_functions),
            Family::WindowFunctions => Some(&self.window_functions),
            Family::ColumnTypes => None,
            Family::Operators => Some(&self.operators),
            Family::CastRewrites => Some(&self.casts),
            Family::SpatialIndexes => Some(&self.spatial_indexes),
            Family::PreprocessorPatterns => Some(&self.preprocessor_patterns),
        }
    }
}

/// Appends copies of the strings of `more`.
fn push_all(list: &mut Vec<String>, more: &Vec<String>)
    ensures
        crate::text::texts(final(list)@) == crate::text::texts(old(list)@) + crate::text::texts(
            more@,
        ),
{
    let ghost start = list@;
    let mut i: usize = 0;
    while i < more.len()
        invariant
            i <= more@.len(),
            list@.len() == start.len() + i,
            forall|k: int| 0 <= k < start.len() ==> list@[k] == start[k],
            forall|k: int| 0 <= k < i ==> (#[trigger] list@[start.len() + k])@ == more@[k]@,
        decreases more@.len() - i,
    {
        list.push(more[i].clone());
        i += 1;
    }
    proof {
        let joined = crate::text::texts(start) + crate::text::texts(more@);
        assert forall|k: int| 0 <= k < joined.len() implies crate::text::texts(list@)[k]
            == joined[k] by {
            if k >= start.len() {
                assert(list@[start.len() + (k - start.len())]@ == more@[k - start.len()]@);
            }
        }
        assert(crate::text::texts(list@) =~= joined);
    }
}

/// The names that a document declares in a family.
fn declared_names(doc: &CatalogToml, fam: Family) -> (r: Vec<String>)
    ensures
        forall|name: Seq<char>| #[trigger]
            crate::text::texts(r@).contains(name) <==> doc.declares(fam, name),
{
    let mut names: Vec<String> = Vec::new();
    if fam == Family::ColumnTypes {
        let mut i: usize = 0;
        while i < doc.types.len()
            invariant
                i <= doc.types@.len(),
                names@.len() == i,
                forall|k: int| 0 <= k < i ==> (#[trigger] names@[k])@ == doc.types@[k].name@,
            decreases doc.types@.len() - i,
        {
            names.push(doc.types[i].name.clone());
            i += 1;
        }
        assert forall|name: Seq<char>| #[trigger]
            crate::text::texts(names@).contains(name) <==> doc.declares(fam, name) by {
            if crate::text::texts(names@).contains(name) {
                let k = choose|k: int|
                    0 <= k < crate::text::texts(names@).len() && crate::text::texts(names@)[k]
                        == name;
                assert(doc.types@[k].name@ == name);
            }
            if doc.declares(fam, name) {
                let k = choose|k: int|
                    0 <= k < doc.types@.len() && (#[trigger] doc.types@[k]).name@ == name;
                assert(names@[k]@ == name);
                assert(crate::text::texts(names@)[k] == name);
            }
        }
    } else {
        let mut i: usize = 0;
        while i < doc.leaves.len()
            invariant
                i <= doc.leaves@.len(),
                !(fam is ColumnTypes),
                forall|name: Seq<char>| #[trigger]
                    crate::text::texts(names@).contains(name) <==> exists|k: int|
                        0 <= k < i && (#[trigger] doc.leaves@[k]).names(fam).contains(name),
            decreases doc.leaves@.len() - i,
        {
            let ghost before = crate::text::texts(names@);
            let ghost leaf = doc.leaves@[i as int].names(fam);
            if let Some(list) = doc.leaves[i].list(fam) {
                push_all(&mut names, list);
            }
            proof {
                let after = crate::text::texts(names@);
                assert(after == before + leaf);
                assert forall|name: Seq<char>| #[trigger]
                    after.contains(name) <==> exists|k: int|
                        0 <= k < i + 1 && (#[trigger] doc.leaves@[k]).names(fam).contains(
                            name,
                        ) by {
                    if after.contains(name) {
                        let p = choose|p: int| 0 <= p < after.len() && after[p] == name;
                        if p < before.len() {
                            assert(before[p] == name);
                            assert(before.contains(name));
                        } else {
                            assert(leaf[p - before.len()] == name);
                            assert(doc.leaves@[i as int].names(fam).contains(name));
                        }
                    }
                    if before.contains(name) {
                        let p = choose|p: int| 0 <= p < before.len() && before[p] == name;
                        assert(after[p] == name);
                    }
                    if leaf.contains(name) {
                        let p = choose|p: int| 0 <= p < leaf.len() && leaf[p] == name;
                        assert(after[before.len() + p] == name);
                    }
                }
            }
            i += 1;
        }
    }
    names
}

/// The rows of one family of a TOML catalog.
fn toml_rows(doc: &CatalogToml, extension: &str, fam: Family) -> (r: FamilyRows)
    requires
        extension@ == doc.extension_text(),
    ensures
        are_toml_rows(r, *doc, fam),
{
    let names = distinct_texts(declared_names(doc, fam));
    let mut rows: Vec<Entity> = Vec::new();
    let mut i: usize = 0;
    while i < names.len()
        invariant
            i <= names@.len(),
            rows@.len() == i,
            extension@ == doc.extension_text(),
            forall|k: int| #![trigger rows@[k]]
                0 <= k < i ==> rows@[k].display@ == names@[k]@ && rows@[k].pk@
                    == doc.extension_text() + "|"@ + rows@[k].display@
                    && rows@[k].signature_hash is None,
        decreases names@.len() - i,
    {
        let mut pk = extension.to_owned();
        pk.append("|");
        pk.append(names[i].as_str());
        rows.push(Entity { pk, display: names[i].clone(), signature_hash: None });
        i += 1;
    }
    assert(displays(rows@) =~= crate::text::texts(names@));
    FamilyRows { rows, signatures_unavailable: true }
}

/// A catalog out of a TOML document. It carries no signature hashes.
pub fn toml_catalog(doc: &CatalogToml, source_path: String) -> (r: Catalog)
    ensures
        is_labelled(r),
        r.extension@ == doc.extension_text(),
        r.version@ == doc.version_text(),
        r.schema_version is None,
        r.source_path@ == source_path@,
        r.source_kind is Toml,
        forall|fam: Family| are_toml_rows(#[trigger] r.families.of(fam), *doc, fam),
{
    let extension = match &doc.meta.extension {
        Some(e) => e.clone(),
        None => "<unknown-extension>".to_owned(),
    };
    let version = match &doc.meta.version {
        Some(v) => v.clone(),
        None => "<unknown-version>".to_owned(),
    };
    let families = FamilyTable {
        scalars: toml_rows(doc, extension.as_str(), Family::Scalars),
        aggregates: toml_rows(doc, extension.as_str(), Family::Aggregates),
        table_functions: toml_rows(doc, extension.as_str(), Family::TableFunctions),
        window_functions: toml_rows(doc, extension.as_str(), Family::WindowFunctions),
        column_types: toml_rows(doc, extension.as_str(), Family::ColumnTypes),
        operators: toml_rows(doc, extension.as_str(), Family::Operators),
        cast_rewrites: toml_rows(doc, extension.as_str(), Family::CastRewrites),
        spatial_indexes: toml_rows(doc, extension.as_str(), Family::SpatialIndexes),
        preprocessor_patterns: toml_rows(doc, extension.as_str(), Family::PreprocessorPatterns),
    };
    Catalog {
        display_label: display_label(extension.as_str(), version.as_str()),
        extension,
        version,
        schema_version: None,
        source_path,
        source_kind: SourceKind::Toml,
        families,
    }
}

// ---------------------------------------------------------------------------
// Laws
// ---------------------------------------------------------------------------

/// The rows that a table is loaded into are sorted by key.
pub proof fn loaded_rows_are_sorted<R: CatalogRow>(rows: Seq<R>)
    ensures
        crate::order::sorted(
            crate::order::stable_sorted(row_entities(rows), crate::catalog::pk_order()),
            crate::catalog::pk_order(),
        ),
        crate::order::stable_sorted(
            row_entities(rows),
            crate::catalog::pk_order(),
        ).to_multiset() == row_entities(rows).to_multiset(),
{
    crate::order::text_order_is_total();
    crate::order::stable_sorted_is_a_sort(row_entities(rows), crate::catalog::pk_order());
}

/// The rows of a TOML catalog are sorted by key, and no key occurs twice.
pub proof fn toml_rows_are_sorted(rows: FamilyRows, doc: CatalogToml, fam: Family)
    requires
        are_toml_rows(rows, doc, fam),
    ensures
        crate::order::ascending(rows.models(), crate::catalog::pk_order()),
{
    let order = crate::catalog::pk_order();
    let shown = displays(rows.rows@);
    let prefix = doc.extension_text() + "|"@;
    assert forall|i: int, j: int| 0 <= i < j < rows.models().len() implies order(
        #[trigger] rows.models()[i],
        #[trigger] rows.models()[j],
    ) && !order(rows.models()[j], rows.models()[i]) by {
        assert(crate::order::text_order()(shown[i], shown[j]) && !crate::order::text_order()(
            shown[j],
            shown[i],
        ));
        assert(rows.rows@[i].pk@ == prefix + shown[i]);
        assert(rows.rows@[j].pk@ == prefix + shown[j]);
        crate::order::common_prefix_keeps_order(prefix, shown[i], shown[j]);
        crate::order::common_prefix_keeps_order(prefix, shown[j], shown[i]);
    }
}

/// A TOML catalog never takes part in a comparison of hashes.
pub proof fn toml_comparison_is_by_name(
    doc: CatalogToml,
    fam: Family,
    toml: FamilyRows,
    other: FamilyRows,
    d: crate::diff::FamilyDelta,
)
    requires
        are_toml_rows(toml, doc, fam),
        crate::diff::is_delta(d, fam, toml, other) || crate::diff::is_delta(d, fam, other, toml),
    ensures
        d.hash_compare_skipped,
        d.signature_changed@.len() == 0,
{
    if crate::diff::is_delta(d, fam, toml, other) {
        crate::diff::skipped_comparison_reports_no_change(fam, toml, other, d);
    } else {
        crate::diff::skipped_comparison_reports_no_change(fam, other, toml, d);
    }
}

/// A list holds a text.
pub open spec fn holds(list: Seq<String>, name: Seq<char>) -> bool {
    exists|k: int| 0 <= k < list.len() && (#[trigger] list[k])@ == name
}

/// Some entity is shown as a text.
pub open spec fn shows(rows: FamilyRows, name: Seq<char>) -> bool {
    exists|k: int| 0 <= k < rows.rows@.len() && (#[trigger] rows.rows@[k]).display@ == name
}

proof fn lemma_holds(list: Seq<String>, name: Seq<char>)
    ensures
        holds(list, name) <==> crate::text::texts(list).contains(name),
{
    if holds(list, name) {
        let k = choose|k: int| 0 <= k < list.len() && (#[trigger] list[k])@ == name;
        assert(crate::text::texts(list)[k] == name);
    }
    if crate::text::texts(list).contains(name) {
        let k = choose|k: int|
            0 <= k < crate::text::texts(list).len() && crate::text::texts(list)[k] == name;
        assert(list[k]@ == name);
    }
}

proof fn lemma_shows(rows: FamilyRows, name: Seq<char>)
    ensures
        shows(rows, name) <==> displays(rows.rows@).contains(name),
{
    if shows(rows, name) {
        let k = choose|k: int| 0 <= k < rows.rows@.len() && (#[trigger] rows.rows@[k]).display@ == name;
        assert(displays(rows.rows@)[k] == name);
    }
    if displays(rows.rows@).contains(name) {
        let k = choose|k: int|
            0 <= k < displays(rows.rows@).len() && displays(rows.rows@)[k] == name;
        assert(rows.rows@[k].display@ == name);
    }
}

proof fn lemma_declared_in_a_leaf(
    doc: CatalogToml,
    fam: Family,
    rows: FamilyRows,
    list: spec_fn(TomlLeaf) -> Vec<String>,
    name: Seq<char>,
)
    requires
        are_toml_rows(rows, doc, fam),
        !(fam is ColumnTypes),
        forall|leaf: TomlLeaf| #[trigger] leaf.names(fam) == crate::text::texts(list(leaf)@),
    ensures
        shows(rows, name) <==> exists|i: int|
            0 <= i < doc.leaves@.len() && holds(list(#[trigger] doc.leaves@[i])@, name),
{
    lemma_shows(rows, name);
    if shows(rows, name) {
        let i = choose|i: int|
            0 <= i < doc.leaves@.len() && (#[trigger] doc.leaves@[i]).names(fam).contains(name);
        lemma_holds(list(doc.leaves@[i])@, name);
    }
    if exists|i: int| 0 <= i < doc.leaves@.len() && holds(list(#[trigger] doc.leaves@[i])@, name) {
        let i = choose|i: int|
            0 <= i < doc.leaves@.len() && holds(list(#[trigger] doc.leaves@[i])@, name);
        lemma_holds(list(doc.leaves@[i])@, name);
        assert(doc.leaves@[i].names(fam).contains(name));
    }
}

/// Each list of a TOML document is read under its own family: what is shown in a
/// family are exactly the strings of the lists that the leaves hold for it, and
/// the types are those of the list of types.
pub proof fn lists_are_read_under_their_family(
    doc: &CatalogToml,
    source_path: String,
    r: Catalog,
    name: Seq<char>,
)
    requires
        call_ensures(toml_catalog, (doc, source_path), r),
    ensures
        shows(r.families.scalars, name) <==> exists|i: int|
            0 <= i < doc.leaves@.len() && holds((#[trigger] doc.leaves@[i]).scalars@, name),
        shows(r.families.aggregates, name) <==> exists|i: int|
            0 <= i < doc.leaves@.len() && holds((#[trigger] doc.leaves@[i]).aggregates@, name),
        shows(r.families.table_functions, name) <==> exists|i: int|
            0 <= i < doc.leaves@.len() && holds((#[trigger] doc.leaves@[i]).table_functions@, name),
        shows(r.families.window_functions, name) <==> exists|i: int|
            0 <= i < doc.leaves@.len() && holds(
                (#[trigger] doc.leaves@[i]).window_functions@,
                name,
            ),
        shows(r.families.operators, name) <==> exists|i: int|
            0 <= i < doc.leaves@.len() && holds((#[trigger] doc.leaves@[i]).operators@, name),
        shows(r.families.cast_rewrites, name) <==> exists|i: int|
            0 <= i < doc.leaves@.len() && holds((#[trigger] doc.leaves@[i]).casts@, name),
        shows(r.families.spatial_indexes, name) <==> exists|i: int|
            0 <= i < doc.leaves@.len() && holds((#[trigger] doc.leaves@[i]).spatial_indexes@, name),
        shows(r.families.preprocessor_patterns, name) <==> exists|i: int|
            0 <= i < doc.leaves@.len() && holds(
                (#[trigger] doc.leaves@[i]).preprocessor_patterns@,
                name,
            ),
        shows(r.families.column_types, name) <==> exists|i: int|
            0 <= i < doc.types@.len() && (#[trigger] doc.types@[i]).name@ == name,
{
    let f = r.families;
    assert(are_toml_rows(f.of(Family::Scalars), *doc, Family::Scalars));
    assert(are_toml_rows(f.of(Family::Aggregates), *doc, Family::Aggregates));
    assert(are_toml_rows(f.of(Family::TableFunctions), *doc, Family::TableFunctions));
    assert(are_toml_rows(f.of(Family::WindowFunctions), *doc, Family::WindowFunctions));
    assert(are_toml_rows(f.of(Family::ColumnTypes), *doc, Family::ColumnTypes));
    assert(are_toml_rows(f.of(Family::Operators), *doc, Family::Operators));
    assert(are_toml_rows(f.of(Family::CastRewrites), *doc, Family::CastRewrites));
    assert(are_toml_rows(f.of(Family::SpatialIndexes), *doc, Family::SpatialIndexes));
    assert(are_toml_rows(f.of(Family::PreprocessorPatterns), *doc, Family::PreprocessorPatterns));
    lemma_declared_in_a_leaf(*doc, Family::Scalars, f.scalars, |l: TomlLeaf| l.scalars, name);
    lemma_declared_in_a_leaf(
        *doc,
        Family::Aggregates,
        f.aggregates,
        |l: TomlLeaf| l.aggregates,
        name,
    );
    lemma_declared_in_a_leaf(
        *doc,
        Family::TableFunctions,
        f.table_functions,
        |l: TomlLeaf| l.table_functions,
        name,
    );
    lemma_declared_in_a_leaf(
        *doc,
        Family::WindowFunctions,
        f.window_functions,
        |l: TomlLeaf| l.window_functions,
        name,
    );
    lemma_declared_in_a_leaf(*doc, Family::Operators, f.operators, |l: TomlLeaf| l.operators, name);
    lemma_declared_in_a_leaf(*doc, Family::CastRewrites, f.cast_rewrites, |l: TomlLeaf| l.casts, name);
    lemma_declared_in_a_leaf(
        *doc,
        Family::SpatialIndexes,
        f.spatial_indexes,
        |l: TomlLeaf| l.spatial_indexes,
        name,
    );
    lemma_declared_in_a_leaf(
        *doc,
        Family::PreprocessorPatterns,
        f.preprocessor_patterns,
        |l: TomlLeaf| l.preprocessor_patterns,
        name,
    );
    lemma_shows(f.column_types, name);
}

/// A family of a TOML catalog as it is loaded: each entity is keyed by the
/// extension and the name that it is shown as, none carries a hash, none occurs
/// twice, and hashes do not count.
pub open spec fn is_loaded_by_name(rows: FamilyRows, extension: Seq<char>) -> bool {
    &&& rows.signatures_unavailable
    &&& forall|k: int| #![trigger rows.rows@[k]]
        0 <= k < rows.rows@.len() ==> rows.rows@[k].pk@ == crate::text::joined(
            seq![extension, rows.rows@[k].display@],
            "|"@,
        ) && rows.rows@[k].signature_hash is None
    &&& forall|k: int, l: int|
        0 <= k < l < rows.rows@.len() ==> crate::order::text_lt(
            (#[trigger] rows.rows@[k]).display@,
            (#[trigger] rows.rows@[l]).display@,
        )
}

/// Every family of a TOML catalog is loaded by name. The catalog is labelled by
/// the extension and the version of the document, or by placeholders where the
/// document is silent.
pub proof fn toml_catalogs_are_loaded_by_name(
    doc: &CatalogToml,
    source_path: String,
    r: Catalog,
)
    requires
        call_ensures(toml_catalog, (doc, source_path), r),
    ensures
        forall|fam: Family| #[trigger] is_loaded_by_name(r.families.of(fam), r.extension@),
        doc.meta.extension is Some ==> r.extension@ == doc.meta.extension->0@,
        doc.meta.extension is None ==> r.extension@ == "<unknown-extension>"@,
        doc.meta.version is Some ==> r.version@ == doc.meta.version->0@,
        doc.meta.version is None ==> r.version@ == "<unknown-version>"@,
        r.display_label@ == crate::text::joined(seq![r.extension@, r.version@], "@"@),
        r.schema_version is None,
        r.source_path@ == source_path@,
        r.source_kind is Toml,
{
    crate::order::text_order_is_total();
    lemma_two_joined(r.extension@, r.version@, "@"@);
    assert forall|fam: Family| #[trigger] is_loaded_by_name(r.families.of(fam), r.extension@) by {
        let rows = r.families.of(fam);
        assert(are_toml_rows(rows, *doc, fam));
        assert forall|k: int| #![trigger rows.rows@[k]] 0 <= k < rows.rows@.len() implies rows.rows@[k].pk@
            == crate::text::joined(seq![r.extension@, rows.rows@[k].display@], "|"@) by {
            lemma_two_joined(r.extension@, rows.rows@[k].display@, "|"@);
        }
        assert forall|k: int, l: int| 0 <= k < l < rows.rows@.len() implies crate::order::text_lt(
            (#[trigger] rows.rows@[k]).display@,
            (#[trigger] rows.rows@[l]).display@,
        ) by {
            let shown = displays(rows.rows@);
            let order = crate::order::text_order();
            assert(order(shown[k], shown[l]) && !order(shown[l], shown[k]));
        }
    }
}

proof fn lemma_two_joined(a: Seq<char>, b: Seq<char>, sep: Seq<char>)
    ensures
        crate::text::joined(seq![a, b], sep) == a + sep + b,
{
    let parts = seq![a, b];
    assert(parts.drop_last() =~= seq![a]);
    reveal_with_fuel(crate::text::joined, 2);
}

proof fn lemma_one_more(parts: Seq<Seq<char>>, b: Seq<char>, sep: Seq<char>)
    requires
        parts.len() > 0,
    ensures
        crate::text::joined(parts.push(b), sep) == crate::text::joined(parts, sep) + sep + b,
{
    assert(parts.push(b).drop_last() =~= parts);
}

/// A row of functions stands for the function that it names: keyed by extension
/// and name, shown by its name, with its own hash.
pub proof fn named_rows_stand_for_themselves(row: NamedRow)
    ensures
        row.entity().pk == crate::text::joined(seq![row.extension@, row.name@], "|"@),
        row.entity().display == row.name@,
        row.signature_hash is None ==> row.entity().signature_hash is None,
        row.signature_hash is Some ==> row.entity().signature_hash == Some(row.signature_hash->0@),
{
    lemma_two_joined(row.extension@, row.name@, "|"@);
}

/// A row of types is keyed by extension, type id and name, in this order.
pub proof fn type_rows_stand_for_themselves(row: ColumnTypeRow)
    ensures
        row.entity().pk == crate::text::joined(
            seq![row.extension@, crate::text::integer_text(row.type_id as int), row.typename@],
            "|"@,
        ),
        row.entity().display == row.typename@,
        row.signature_hash is None ==> row.entity().signature_hash is None,
        row.signature_hash is Some ==> row.entity().signature_hash == Some(row.signature_hash->0@),
{
    let id = crate::text::integer_text(row.type_id as int);
    lemma_two_joined(row.extension@, id, "|"@);
    lemma_one_more(seq![row.extension@, id], row.typename@, "|"@);
    assert(seq![row.extension@, id].push(row.typename@) =~= seq![row.extension@, id, row.typename@]);
}

/// An operand type is written as its number, or as null where there is none.
pub proof fn operands_are_written(id: Option<i64>)
    ensures
        id is None <==> operand_text(id) == "null"@,
        id is Some ==> operand_text(id) == crate::text::integer_text(id->0 as int),
{
    reveal_strlit("null");
    if id is Some {
        crate::text::lemma_integer_numeral();
        assert(crate::json::numeral(crate::text::integer_text(id->0 as int)));
        assert(crate::json::number_char(crate::text::integer_text(id->0 as int)[0]));
    }
}

/// An operator is keyed by extension, symbol and operand types, in this order:
/// what it is bound to is no part of the key, and shows behind an arrow.
pub proof fn operator_rows_stand_for_themselves(row: OperatorRow)
    ensures
        row.entity().pk == crate::text::joined(
            seq![
                row.extension@,
                row.symbol@,
                operand_text(row.lhs_type_id),
                operand_text(row.rhs_type_id),
            ],
            "|"@,
        ),
        row.entity().display == crate::text::joined(
            seq![
                row.symbol@,
                "("@ + operand_text(row.lhs_type_id) + ","@ + operand_text(row.rhs_type_id) + ")"@,
                "->"@,
                row.function_name@,
            ],
            " "@,
        ),
        row.signature_hash is None ==> row.entity().signature_hash is None,
        row.signature_hash is Some ==> row.entity().signature_hash == Some(row.signature_hash->0@),
{
    let l = operand_text(row.lhs_type_id);
    let r = operand_text(row.rhs_type_id);
    lemma_two_joined(row.extension@, row.symbol@, "|"@);
    lemma_one_more(seq![row.extension@, row.symbol@], l, "|"@);
    lemma_one_more(seq![row.extension@, row.symbol@, l], r, "|"@);
    assert(seq![row.extension@, row.symbol@].push(l) =~= seq![row.extension@, row.symbol@, l]);
    assert(seq![row.extension@, row.symbol@, l].push(r) =~= seq![
        row.extension@,
        row.symbol@,
        l,
        r,
    ]);
    let operands = "("@ + l + ","@ + r + ")"@;
    lemma_two_joined(row.symbol@, operands, " "@);
    lemma_one_more(seq![row.symbol@, operands], "->"@, " "@);
    lemma_one_more(seq![row.symbol@, operands, "->"@], row.function_name@, " "@);
    assert(seq![row.symbol@, operands].push("->"@) =~= seq![row.symbol@, operands, "->"@]);
    assert(seq![row.symbol@, operands, "->"@].push(row.function_name@) =~= seq![
        row.symbol@,
        operands,
        "->"@,
        row.function_name@,
    ]);
    reveal_strlit(" ");
    reveal_strlit("(");
    reveal_strlit(" (");
    reveal_strlit(")");
    reveal_strlit("->");
    reveal_strlit(") -> ");
    assert(row.entity().display =~= row.symbol@ + " "@ + operands + " "@ + "->"@ + " "@
        + row.function_name@);
}

/// A cast is keyed by extension, target type and source, in this order: what it
/// is rewritten to is no part of the key, and shows at the end.
pub proof fn cast_rows_stand_for_themselves(row: CastRewriteRow)
    ensures
        row.entity().pk == crate::text::joined(
            seq![
                row.extension@,
                row.target_type@,
                row.source_kind@,
                row.source_fn_hint@,
                crate::text::integer_text(row.source_type_id as int),
            ],
            "|"@,
        ),
        row.entity().display == crate::text::joined(
            seq![
                row.target_type@,
                "<-"@,
                row.source_kind@ + "/"@ + row.source_fn_hint@ + "#"@ + crate::text::integer_text(
                    row.source_type_id as int,
                ),
                "via"@,
                row.function_name@,
            ],
            " "@,
        ),
        row.signature_hash is None ==> row.entity().signature_hash is None,
        row.signature_hash is Some ==> row.entity().signature_hash == Some(row.signature_hash->0@),
{
    let id = crate::text::integer_text(row.source_type_id as int);
    let one = seq![row.extension@, row.target_type@];
    let two = one.push(row.source_kind@);
    let three = two.push(row.source_fn_hint@);
    lemma_two_joined(row.extension@, row.target_type@, "|"@);
    lemma_one_more(one, row.source_kind@, "|"@);
    lemma_one_more(two, row.source_fn_hint@, "|"@);
    lemma_one_more(three, id, "|"@);
    assert(three.push(id) =~= seq![
        row.extension@,
        row.target_type@,
        row.source_kind@,
        row.source_fn_hint@,
        id,
    ]);
    let source = row.source_kind@ + "/"@ + row.source_fn_hint@ + "#"@ + id;
    let first = seq![row.target_type@, "<-"@];
    let second = first.push(source);
    let third = second.push("via"@);
    lemma_two_joined(row.target_type@, "<-"@, " "@);
    lemma_one_more(first, source, " "@);
    lemma_one_more(second, "via"@, " "@);
    lemma_one_more(third, row.function_name@, " "@);
    assert(third.push(row.function_name@) =~= seq![
        row.target_type@,
        "<-"@,
        source,
        "via"@,
        row.function_name@,
    ]);
    reveal_strlit(" ");
    reveal_strlit("<-");
    reveal_strlit(" <- ");
    reveal_strlit("via");
    reveal_strlit(" via ");
    assert(row.entity().display =~= row.target_type@ + " "@ + "<-"@ + " "@ + source + " "@ + "via"@
        + " "@ + row.function_name@);
}

/// A spatial index is keyed by extension, name and type id, in this order.
pub proof fn index_rows_stand_for_themselves(row: SpatialIndexRow)
    ensures
        row.entity().pk == crate::text::joined(
            seq![row.extension@, row.name@, crate::text::integer_text(row.type_id as int)],
            "|"@,
        ),
        row.entity().display == row.name@,
        row.signature_hash is None ==> row.entity().signature_hash is None,
        row.signature_hash is Some ==> row.entity().signature_hash == Some(row.signature_hash->0@),
{
    let id = crate::text::integer_text(row.type_id as int);
    lemma_two_joined(row.extension@, row.name@, "|"@);
    lemma_one_more(seq![row.extension@, row.name@], id, "|"@);
    assert(seq![row.extension@, row.name@].push(id) =~= seq![row.extension@, row.name@, id]);
}

/// A preprocessor pattern is keyed by extension and token: what it is rewritten
/// to is no part of the key, and shows behind an arrow.
pub proof fn pattern_rows_stand_for_themselves(row: PreprocessorPatternRow)
    ensures
        row.entity().pk == crate::text::joined(seq![row.extension@, row.op_token@], "|"@),
        row.entity().display == crate::text::joined(
            seq![row.op_token@, row.function_name@],
            " -> "@,
        ),
        row.signature_hash is None ==> row.entity().signature_hash is None,
        row.signature_hash is Some ==> row.entity().signature_hash == Some(row.signature_hash->0@),
{
    lemma_two_joined(row.extension@, row.op_token@, "|"@);
    lemma_two_joined(row.op_token@, row.function_name@, " -> "@);
}

/// A table is loaded: its entities are those that its rows stand for, each as
/// often as it occurs, in ascending order of their keys, and those of one key in
/// the order of their rows.
pub open spec fn is_loaded<R: CatalogRow>(r: FamilyRows, rows: Seq<R>) -> bool {
    &&& r.rows@.len() == rows.len()
    &&& crate::catalog::entity_models(r.rows@).to_multiset() == rows.map_values(
        |x: R| x.entity(),
    ).to_multiset()
    &&& forall|i: int, j: int|
        0 <= i < j < r.rows@.len() ==> crate::order::text_le(
            (#[trigger] r.rows@[i]).pk@,
            (#[trigger] r.rows@[j]).pk@,
        )
    &&& forall|pk: Seq<char>|
        crate::catalog::entity_models(r.rows@).filter(#[trigger] has_key(pk)) == rows.map_values(
            |x: R| x.entity(),
        ).filter(has_key(pk))
}

/// An entity has a key.
pub open spec fn has_key(pk: Seq<char>) -> spec_fn(crate::catalog::EntityModel) -> bool {
    |m: crate::catalog::EntityModel| m.pk == pk
}

proof fn lemma_is_loaded<R: CatalogRow>(r: FamilyRows, rows: Seq<R>)
    requires
        r.models() == crate::order::stable_sorted(row_entities(rows), crate::catalog::pk_order()),
    ensures
        is_loaded(r, rows),
{
    broadcast use vstd::seq_lib::group_to_multiset_ensures;

    loaded_rows_are_sorted(rows);
    assert(row_entities(rows) =~= rows.map_values(|x: R| x.entity()));
    assert(r.models().to_multiset().len() == row_entities(rows).to_multiset().len());
    assert forall|i: int, j: int| 0 <= i < j < r.rows@.len() implies crate::order::text_le(
        (#[trigger] r.rows@[i]).pk@,
        (#[trigger] r.rows@[j]).pk@,
    ) by {
        assert(crate::catalog::pk_order()(r.models()[i], r.models()[j]));
    }
    crate::order::text_order_is_total();
    assert forall|pk: Seq<char>| r.models().filter(#[trigger] has_key(pk)) == row_entities(
        rows,
    ).filter(has_key(pk)) by {
        crate::order::equal_ranks_keep_their_order(
            row_entities(rows),
            crate::catalog::pk_order(),
            has_key(pk),
        );
    }
}

/// A table of functions is loaded as it is. Its hashes count where the table has
/// a column for them and, if they are expected, some row fills it.
pub proof fn function_tables_are_loaded(
    rows: &Vec<NamedRow>,
    has_hash: bool,
    expect_hash: bool,
    r: FamilyRows,
)
    requires
        call_ensures(load_simple_named, (rows, has_hash, expect_hash), r),
    ensures
        is_loaded(r, rows@),
        !r.signatures_unavailable <==> has_hash && (expect_hash ==> exists|k: int|
            0 <= k < rows@.len() && (#[trigger] rows@[k]).signature_hash is Some),
{
    lemma_is_loaded(r, rows@);
    let all = row_entities(rows@);
    assert forall|k: int| 0 <= k < rows@.len() implies (all[k].signature_hash is Some
        <==> #[trigger] rows@[k].signature_hash is Some) by {}
    if any_hash(all) {
        let k = choose|k: int| 0 <= k < all.len() && (#[trigger] all[k]).signature_hash is Some;
        assert(rows@[k].signature_hash is Some);
    }
    if exists|k: int| 0 <= k < rows@.len() && (#[trigger] rows@[k]).signature_hash is Some {
        let k = choose|k: int|
            0 <= k < rows@.len() && (#[trigger] rows@[k]).signature_hash is Some;
        assert(all[k].signature_hash is Some);
    }
}

/// The other tables are loaded as they are. Their hashes count where the table
/// has a column for them and some row fills it.
pub proof fn other_tables_are_loaded(
    types: &Vec<ColumnTypeRow>,
    operators: &Vec<OperatorRow>,
    casts: &Vec<CastRewriteRow>,
    indexes: &Vec<SpatialIndexRow>,
    patterns: &Vec<PreprocessorPatternRow>,
    has_hash: bool,
    r: FamilyRows,
)
    ensures
        call_ensures(load_column_types, (types, has_hash), r) ==> is_loaded(r, types@) && (
        !r.signatures_unavailable <==> has_hash && exists|k: int|
            0 <= k < types@.len() && (#[trigger] types@[k]).signature_hash is Some),
        call_ensures(load_operators, (operators, has_hash), r) ==> is_loaded(r, operators@) && (
        !r.signatures_unavailable <==> has_hash && exists|k: int|
            0 <= k < operators@.len() && (#[trigger] operators@[k]).signature_hash is Some),
        call_ensures(load_cast_rewrites, (casts, has_hash), r) ==> is_loaded(r, casts@) && (
        !r.signatures_unavailable <==> has_hash && exists|k: int|
            0 <= k < casts@.len() && (#[trigger] casts@[k]).signature_hash is Some),
        call_ensures(load_spatial_indexes, (indexes, has_hash), r) ==> is_loaded(r, indexes@) && (
        !r.signatures_unavailable <==> has_hash && exists|k: int|
            0 <= k < indexes@.len() && (#[trigger] indexes@[k]).signature_hash is Some),
        call_ensures(load_preprocessor_patterns, (patterns, has_hash), r) ==> is_loaded(
            r,
            patterns@,
        ) && (!r.signatures_unavailable <==> has_hash && exists|k: int|
            0 <= k < patterns@.len() && (#[trigger] patterns@[k]).signature_hash is Some),
{
    if call_ensures(load_column_types, (types, has_hash), r) {
        lemma_is_loaded(r, types@);
        let all = row_entities(types@);
        assert forall|k: int| 0 <= k < types@.len() implies (
        #[trigger] all[k].signature_hash is Some <==> types@[k].signature_hash is Some) by {}
        if exists|k: int| 0 <= k < types@.len() && (#[trigger] types@[k]).signature_hash is Some {
            let k = choose|k: int|
                0 <= k < types@.len() && (#[trigger] types@[k]).signature_hash is Some;
            assert(all[k].signature_hash is Some);
        }
    }
    if call_ensures(load_operators, (operators, has_hash), r) {
        lemma_is_loaded(r, operators@);
        let all = row_entities(operators@);
        assert forall|k: int| 0 <= k < operators@.len() implies (
        #[trigger] all[k].signature_hash is Some <==> operators@[k].signature_hash is Some) by {}
        if exists|k: int|
            0 <= k < operators@.len() && (#[trigger] operators@[k]).signature_hash is Some {
            let k = choose|k: int|
                0 <= k < operators@.len() && (#[trigger] operators@[k]).signature_hash is Some;
            assert(all[k].signature_hash is Some);
        }
    }
    if call_ensures(load_cast_rewrites, (casts, has_hash), r) {
        lemma_is_loaded(r, casts@);
        let all = row_entities(casts@);
        assert forall|k: int| 0 <= k < casts@.len() implies (
        #[trigger] all[k].signature_hash is Some <==> casts@[k].signature_hash is Some) by {}
        if exists|k: int| 0 <= k < casts@.len() && (#[trigger] casts@[k]).signature_hash is Some {
            let k = choose|k: int|
                0 <= k < casts@.len() && (#[trigger] casts@[k]).signature_hash is Some;
            assert(all[k].signature_hash is Some);
        }
    }
    if call_ensures(load_spatial_indexes, (indexes, has_hash), r) {
        lemma_is_loaded(r, indexes@);
        let all = row_entities(indexes@);
        assert forall|k: int| 0 <= k < indexes@.len() implies (
        #[trigger] all[k].signature_hash is Some <==> indexes@[k].signature_hash is Some) by {}
        if exists|k: int|
            0 <= k < indexes@.len() && (#[trigger] indexes@[k]).signature_hash is Some {
            let k = choose|k: int|
                0 <= k < indexes@.len() && (#[trigger] indexes@[k]).signature_hash is Some;
            assert(all[k].signature_hash is Some);
        }
    }
    if call_ensures(load_preprocessor_patterns, (patterns, has_hash), r) {
        lemma_is_loaded(r, patterns@);
        let all = row_entities(patterns@);
        assert forall|k: int| 0 <= k < patterns@.len() implies (
        #[trigger] all[k].signature_hash is Some <==> patterns@[k].signature_hash is Some) by {}
        if exists|k: int|
            0 <= k < patterns@.len() && (#[trigger] patterns@[k]).signature_hash is Some {
            let k = choose|k: int|
                0 <= k < patterns@.len() && (#[trigger] patterns@[k]).signature_hash is Some;
            assert(all[k].signature_hash is Some);
        }
    }
}

/// A catalog out of a database says what it was given, and is labelled by
/// extension and version.
pub proof fn databases_are_labelled(
    extension: String,
    version: String,
    user_version: u32,
    source_path: String,
    families: FamilyTable,
    r: Catalog,
)
    requires
        call_ensures(
            sqlite_catalog,
            (extension, version, user_version, source_path, families),
            r,
        ),
    ensures
        r.extension@ == extension@,
        r.version@ == version@,
        r.display_label@ == crate::text::joined(seq![extension@, version@], "@"@),
        r.schema_version == Some(user_version),
        r.source_path@ == source_path@,
        r.source_kind is Sqlite,
        r.families == families,
{
    lemma_two_joined(extension@, version@, "@"@);
}

/// The statement that reads a family reads its table. It asks for the extension
/// first and the hash last, and for null in place of a hash that the table does
/// not have.
pub proof fn families_are_read_from_their_tables(fam: Family, has_hash: bool, sql: String)
    requires
        call_ensures(select_sql, (fam, has_hash), sql),
    ensures
        exists|columns: Seq<char>|
            sql@ == #[trigger] (("SELECT "@ + "extension, "@) + columns) + (if has_hash {
                ", signature_hash"@
            } else {
                ", NULL AS signature_hash"@
            }) + " FROM "@ + fam.slug_text(),
{
    reveal_strlit("extension, ");
    reveal_strlit("extension, name");
    reveal_strlit("extension, type_id, type_name");
    reveal_strlit("extension, symbol, lhs_type_id, rhs_type_id, function_name");
    reveal_strlit(
        "extension, target_type, source_kind, source_fn_hint, source_type_id, function_name",
    );
    reveal_strlit("extension, name, type_id");
    reveal_strlit("extension, op_token, function_name");
    reveal_strlit(", signature_hash FROM ");
    reveal_strlit(", NULL AS signature_hash FROM ");
    reveal_strlit(", signature_hash");
    reveal_strlit(", NULL AS signature_hash");
    reveal_strlit(" FROM ");
    let columns = columns_text(fam).skip(11);
    assert("extension, "@ + columns =~= columns_text(fam));
    assert(", signature_hash"@ + " FROM "@ =~= ", signature_hash FROM "@);
    assert(", NULL AS signature_hash"@ + " FROM "@ =~= ", NULL AS signature_hash FROM "@);
    assert(sql@ =~= (("SELECT "@ + "extension, "@) + columns) + (if has_hash {
        ", signature_hash"@
    } else {
        ", NULL AS signature_hash"@
    }) + " FROM "@ + fam.slug_text());
}

/// Which columns a family is read by does not depend on whether its table has
/// hashes, and families of functions are read alike.
pub proof fn functions_are_read_alike(
    fam: Family,
    other: Family,
    sql: String,
    of_other: String,
    without: String,
)
    requires
        fam is Scalars || fam is Aggregates || fam is TableFunctions || fam is WindowFunctions,
        other is Scalars || other is Aggregates || other is TableFunctions
            || other is WindowFunctions,
        call_ensures(select_sql, (fam, true), sql),
        call_ensures(select_sql, (other, true), of_other),
        call_ensures(select_sql, (fam, false), without),
    ensures
        sql@ == "SELECT "@ + "extension, name"@ + ", signature_hash FROM "@ + fam.slug_text(),
        of_other@ == "SELECT "@ + "extension, name"@ + ", signature_hash FROM "@
            + other.slug_text(),
        without@ == "SELECT "@ + "extension, name"@ + ", NULL AS signature_hash FROM "@
            + fam.slug_text(),
{
}

/// The other families are read by the columns of their rows, in the order of the
/// rows' fields.
pub proof fn rows_are_read_column_by_column(fam: Family, has_hash: bool, sql: String)
    requires
        call_ensures(select_sql, (fam, has_hash), sql),
    ensures
        fam is ColumnTypes ==> crate::report::begins_with(
            sql@,
            "SELECT "@ + "extension, type_id, type_name"@,
        ),
        fam is Operators ==> crate::report::begins_with(
            sql@,
            "SELECT "@ + "extension, symbol, lhs_type_id, rhs_type_id, function_name"@,
        ),
        fam is CastRewrites ==> crate::report::begins_with(
            sql@,
            "SELECT "@
                + "extension, target_type, source_kind, source_fn_hint, source_type_id, function_name"@,
        ),
        fam is SpatialIndexes ==> crate::report::begins_with(
            sql@,
            "SELECT "@ + "extension, name, type_id"@,
        ),
        fam is PreprocessorPatterns ==> crate::report::begins_with(
            sql@,
            "SELECT "@ + "extension, op_token, function_name"@,
        ),
{
    let start = "SELECT "@ + columns_text(fam);
    assert(sql@.take(start.len() as int) =~= start);
}

/// A TOML catalog is that of the extension and the version that the document
/// names, and its keys are those of that extension; what the document leaves out
/// is told as unknown.
pub proof fn documents_name_their_extension(
    doc: &CatalogToml,
    path: String,
    r: Catalog,
    fam: Family,
    i: int,
)
    requires
        call_ensures(toml_catalog, (doc, path), r),
    ensures
        doc.meta.extension is Some ==> r.extension@ == doc.meta.extension->0@,
        doc.meta.extension is None ==> r.extension@ == "<unknown-extension>"@,
        doc.meta.version is Some ==> r.version@ == doc.meta.version->0@,
        doc.meta.version is None ==> r.version@ == "<unknown-version>"@,
        r.source_path@ == path@,
        r.schema_version is None,
        r.source_kind is Toml,
        0 <= i < r.families.of(fam).rows@.len() ==> r.families.of(fam).rows@[i].pk@
            == r.extension@ + "|"@ + r.families.of(fam).rows@[i].display@,
{
    assert(are_toml_rows(r.families.of(fam), *doc, fam));
}

} // verus!
