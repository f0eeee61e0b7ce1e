//! Rows of an extraction, stamps, edges, and schema versions.
use shim_interface_core::edges::{call_edges, derived_edges, FunctionKind, KnownFunctions};
use shim_interface_core::extract::{
    cast_rows, drain_postgis_metadata, extract_shim, print_summary, summary_line, ExtensionCounts,
    ExtractedCast, ExtractedOperator, ExtractedPreprocessor, ShimSnapshot, SqlMetadata,
};
use shim_interface_core::hashes::{
    implementation_hash, scalar_signature_hash, window_function_signature_hash, ScalarSig,
    SimpleFnSig,
};
use shim_interface_core::migrations::{apply, Migration};
use shim_interface_core::registry::{
    capabilities_json, register_aggregate_function, register_data_type, register_index_builder,
    register_scalar_function, register_system_catalog_provider, register_table_function,
    register_window_function, AggregateDef, FunctionDef, ScalarDef, SpatialIndexMetadata,
    SystemColumn, SystemTable,
};
use shim_interface_core::stamp::{
    extract_source_metadata, interface_hashes, interface_lookup, resolve_iface_and_impl,
    stamp_scalar_rows, stamp_sql, upstream_row, AggregateRow, FunctionRows, InterfaceHash,
    InterfaceOwner, Release, ScalarRow, SimpleFnRow, StampSource,
};
use shim_interface_core::version::{
    ensure_schema, open_fresh, open_or_migrate, write_user_version, Preparation, SCHEMA_VERSION,
};
use shim_interface_core::walker::{Edge, EdgeKind, WalkedFn};

fn s(t: &str) -> String {
    t.to_string()
}

fn function(name: &str) -> FunctionDef {
    FunctionDef {
        name: s(name),
        param_types: vec![vec![s("Geometry"), s("Float64")], vec![]],
        aliases: vec![s("other")],
    }
}

#[test]
fn scalars_become_rows() {
    let row = register_scalar_function(&ScalarDef {
        function: function("st_area"),
        return_type: s("Custom(ÄGeo)"),
        is_deterministic: true,
        propagates_null: false,
    });
    assert_eq!(row.name, "st_area");
    assert_eq!(row.param_types_json, "[[\"geometry\",\"float64\"],[]]");
    assert_eq!(row.return_type, "custom(ägeo)");
    assert_eq!((row.is_deterministic, row.propagates_null), (1, 0));
    assert_eq!(row.aliases, vec!["other"]);
}

#[test]
fn window_functions_win_over_aggregates() {
    let def = AggregateDef {
        function: function("st_cluster"),
        accepts_config: true,
        config_arg_indices: vec![0, 18446744073709551615],
    };
    assert!(register_aggregate_function(&def, true).is_none());
    let row = register_aggregate_function(&def, false).unwrap();
    assert_eq!(row.config_arg_indices_json, "[0,18446744073709551615]");
    assert_eq!(
        (row.supports_grouped, row.supports_partial, row.is_order_sensitive, row.accepts_config),
        (1, 1, 0, 1)
    );
    let w = register_window_function(&def.function);
    assert_eq!(w.displaced, "st_cluster");
    assert_eq!(w.row.name, "st_cluster");
    assert_eq!(w.row.param_types_json, row.param_types_json);
    assert_eq!(register_table_function(&def.function).aliases, vec!["other"]);
}

#[test]
fn types_indexes_and_system_tables_become_rows() {
    let t = register_data_type(5, "geometry", -1);
    assert_eq!((t.type_id, t.typename.as_str(), t.storage_size), (5, "geometry", -1));
    assert_eq!((t.cast_from_json.as_str(), t.cast_to_json.as_str()), ("[]", "[]"));
    let i = register_index_builder(42);
    assert_eq!((i.name.as_str(), i.type_id), ("type_id=42", 42));
    assert!(i.capabilities_json.is_none());
    let tables = vec![SystemTable {
        name: s("spatial_ref_sys"),
        columns: vec![SystemColumn { name: s("Srid"), data_type: s("Int32"), nullable: false }],
    }];
    let rows = register_system_catalog_provider("public", &tables);
    assert_eq!(rows.len(), 1);
    assert_eq!(rows[0].catalog_name, "public");
    assert_eq!(rows[0].table_name, "spatial_ref_sys");
    assert_eq!(
        rows[0].columns_json,
        "[{\"data_type\":\"int32\",\"name\":\"Srid\",\"nullable\":false}]"
    );
}

fn metadata() -> SqlMetadata {
    SqlMetadata {
        casts: vec![
            ExtractedCast {
                target_type: s("geometry"),
                source_kind: s("any"),
                function_name: s("f"),
                source_fn_hint: s("h"),
                source_type_id: None,
            },
            ExtractedCast {
                target_type: s("box"),
                source_kind: s("k"),
                function_name: s("g"),
                source_fn_hint: s(""),
                source_type_id: Some(4294967295),
            },
        ],
        operators: vec![ExtractedOperator {
            symbol: s("&&"),
            lhs_type_id: Some(4294967295),
            rhs_type_id: None,
            function_name: s("overlaps"),
        }],
        preprocessors: vec![ExtractedPreprocessor {
            operator_token: s("<->"),
            function_name: s("st_distance"),
        }],
    }
}

#[test]
fn drained_metadata_is_counted() {
    let (rows, counts) = drain_postgis_metadata(Some(&metadata())).unwrap();
    assert_eq!((counts.casts, counts.operators, counts.preprocessors), (2, 1, 1));
    assert_eq!(rows.casts[0].source_type_id, 0);
    assert_eq!(rows.casts[1].source_type_id, 4294967295);
    assert_eq!(rows.operators[0].lhs_type_id, Some(4294967295));
    assert_eq!(rows.operators[0].rhs_type_id, None);
    assert_eq!(rows.preprocessors[0].op_token, "<->");
    assert!(drain_postgis_metadata(None).is_none());
    assert_eq!(cast_rows(&Vec::new()).len(), 0);
}

fn index() -> SpatialIndexMetadata {
    SpatialIndexMetadata {
        aliases: vec![s("gist"), s("rtree")],
        knn: true,
        within_distance: false,
        within_distance_wkb: true,
        update_after_build: false,
    }
}

#[test]
fn a_shim_becomes_rows() {
    let shim = ShimSnapshot {
        name: s("postgis"),
        version: s("3.4.2"),
        wasm_path: s("/x.wasm"),
        wasm: b"wasm".to_vec(),
        sql: metadata(),
        spatial_index: Some(index()),
    };
    let rows = extract_shim(&shim);
    let hash = blake3::hash(b"wasm").to_hex().to_string();
    assert_eq!(rows.extension.name, "postgis");
    assert_eq!(rows.extension.api_version, "3.4.2");
    assert_eq!(rows.extension.wasm_path, "/x.wasm");
    assert_eq!(rows.extension.wasm_blake3, hash);
    assert_eq!(rows.summary.blake3, hash);
    assert_eq!(rows.summary.version, "3.4.2");
    assert_eq!(rows.sql.casts.len(), 2);
    let names: Vec<&str> = rows.spatial_indexes.iter().map(|i| i.name.as_str()).collect();
    assert_eq!(names, vec!["gist", "rtree"]);
    assert_eq!(rows.spatial_indexes[0].type_id, 0);
    assert_eq!(
        rows.spatial_indexes[1].capabilities_json.as_deref(),
        Some("{\"knn\":true,\"update_after_build\":false,\"within_distance\":false,\"within_distance_wkb\":true}")
    );
    assert_eq!(
        capabilities_json(&index()),
        rows.spatial_indexes[0].capabilities_json.clone().unwrap()
    );
    let plain = ShimSnapshot { spatial_index: None, ..shim };
    assert_eq!(extract_shim(&plain).spatial_indexes.len(), 0);
}

#[test]
fn the_summary_lines_up() {
    let counts = ExtensionCounts {
        extension: s("postgis"),
        version: s("3.4.2"),
        scalars: 512,
        aggregates: 12,
        table_functions: 3,
        window_functions: 0,
        column_types: 2,
        operators: 43,
        cast_rewrites: 39,
        preprocessor_patterns: 5,
        system_catalog_tables: 1234567890,
        spatial_indexes: -1,
    };
    let lines = print_summary(&vec![counts.clone()]);
    assert_eq!(lines.len(), 3);
    assert_eq!(lines[0], "");
    assert_eq!(
        lines[1],
        format!(
            "{:14} {:8} {:>8} {:>5} {:>5} {:>7} {:>6} {:>6} {:>6} {:>6} {:>7} {:>7}",
            "extension", "version", "scalars", "agg", "udtf", "window", "types", "ops", "casts",
            "preps", "catalog", "idx"
        )
    );
    assert_eq!(
        lines[2],
        format!(
            "{:14} {:8} {:>8} {:>5} {:>5} {:>7} {:>6} {:>6} {:>6} {:>6} {:>7} {:>7}",
            "postgis", "3.4.2", 512, 12, 3, 0, 2, 43, 39, 5, 1234567890, -1
        )
    );
    let wide = ExtensionCounts { extension: s("ein_langer_näme_hier"), ..counts };
    assert!(summary_line(&wide).starts_with("ein_langer_näme_hier 3.4.2         512    12 "));
}

fn scalar_row(name: &str, interface: Option<&str>) -> ScalarRow {
    ScalarRow {
        name: s(name),
        param_types_json: s("[]"),
        return_type: s("double"),
        is_deterministic: 2,
        propagates_null: 0,
        interface: interface.map(|i| i.to_string()),
        first_seen: None,
    }
}

fn function_rows() -> FunctionRows {
    FunctionRows {
        scalars: vec![scalar_row("st_area", Some("measure")), scalar_row("st_x", Some("unknown"))],
        aggregates: vec![AggregateRow {
            name: s("st_extent"),
            param_types_json: s("[]"),
            supports_grouped: 1,
            supports_partial: 1,
            is_order_sensitive: 0,
            accepts_config: 0,
            config_arg_indices_json: s("[]"),
            interface: None,
            first_seen: Some(s("3.0")),
        }],
        table_functions: vec![SimpleFnRow {
            name: s("st_dump"),
            param_types_json: s("[]"),
            interface: None,
            first_seen: None,
        }],
        window_functions: vec![SimpleFnRow {
            name: s("st_cluster"),
            param_types_json: s("[]"),
            interface: Some(s("measure")),
            first_seen: None,
        }],
    }
}

fn walked() -> Vec<WalkedFn> {
    let edge = |callee: &str, kind: EdgeKind| Edge {
        callee_name: s(callee),
        edge_kind: kind,
        source_hint: format!("hint of {callee}"),
    };
    vec![
        WalkedFn {
            caller_module: s("m"),
            caller_name: s("internal"),
            edges: vec![edge("st_area", EdgeKind::Call)],
        },
        WalkedFn {
            caller_module: s("m"),
            caller_name: s("st_area"),
            edges: vec![
                edge("st_extent", EdgeKind::Call),
                edge("st_dump", EdgeKind::CallMethod),
                edge("st_cluster", EdgeKind::Macro),
                edge("println", EdgeKind::Macro),
                edge("len", EdgeKind::CallMethod),
                edge("helper", EdgeKind::Call),
                edge("<expr>", EdgeKind::Indirect),
            ],
        },
    ]
}

fn release() -> Release<'static> {
    Release {
        extension: "postgis",
        version: "3.4.2",
        released_at: Some("2026-01-01T00:00:00Z"),
        commit: None,
    }
}

#[test]
fn a_release_is_recorded_with_its_counts() {
    let row = upstream_row(&release(), &function_rows());
    assert_eq!((row.extension.as_str(), row.version.as_str()), ("postgis", "3.4.2"));
    assert_eq!(row.released_at.as_deref(), Some("2026-01-01T00:00:00Z"));
    assert_eq!(row.ingested_from_commit, None);
    assert_eq!(
        (
            row.scalar_count,
            row.aggregate_count,
            row.table_function_count,
            row.window_function_count
        ),
        (2, 1, 1, 1)
    );
    assert_eq!(row.notes, None);
}

#[test]
fn the_source_tree_stamps_every_function() {
    let helpers = [7u8; 32];
    let owners = vec![
        InterfaceOwner { interface: s("measure"), owner: Some(b"old".to_vec()) },
        InterfaceOwner { interface: s("measure"), owner: Some(b"owner".to_vec()) },
        InterfaceOwner { interface: s("bare"), owner: None },
    ];
    let up = extract_source_metadata(&function_rows(), &owners, &helpers, &release(), Some(&walked()));
    let owned = implementation_hash(Some(b"owner"), &helpers);
    let unowned = implementation_hash(None, &helpers);
    let interfaces = interface_hashes(&owners, &helpers);
    assert_eq!(interfaces.len(), 3);
    assert_eq!(interfaces[1].hash, owned);
    assert_eq!(interfaces[2].hash, unowned);
    assert_eq!(up.scalars[0].name, "st_area");
    assert_eq!(up.scalars[0].interface.as_deref(), Some("measure"));
    assert_eq!(up.scalars[0].implementation_hash, owned);
    assert_eq!(
        up.scalars[0].signature_hash,
        scalar_signature_hash(&ScalarSig {
            name: "st_area",
            param_types_json: "[]",
            return_type: "double",
            is_deterministic: true,
            propagates_null: false,
        })
    );
    assert_eq!(up.scalars[1].interface.as_deref(), Some("unknown"));
    assert_eq!(up.scalars[1].implementation_hash, unowned);
    assert_eq!(up.aggregates[0].interface, None);
    assert_eq!(up.aggregates[0].implementation_hash, unowned);
    assert_eq!((up.scalars[0].first_seen.as_str(), up.scalars[0].last_seen.as_str()), ("3.4.2", "3.4.2"));
    assert_eq!(
        (up.aggregates[0].first_seen.as_str(), up.aggregates[0].last_seen.as_str()),
        ("3.0", "3.4.2")
    );
    assert_eq!(up.table_functions[0].name, "st_dump");
    assert_eq!(
        up.window_functions[0].signature_hash,
        window_function_signature_hash(&SimpleFnSig { name: "st_cluster", param_types_json: "[]" })
    );
    assert_ne!(up.table_functions[0].signature_hash, up.window_functions[0].signature_hash);

    let kinds: Vec<(&str, &str, &str, &str)> = up
        .edges
        .iter()
        .map(|e| (e.caller_kind, e.callee_name.as_str(), e.callee_kind, e.edge_kind))
        .collect();
    assert_eq!(
        kinds,
        vec![
            ("scalar", "st_extent", "aggregate", "call"),
            ("scalar", "st_dump", "table", "call_method"),
            ("scalar", "st_cluster", "window", "macro"),
            ("scalar", "println", "macro", "macro"),
            ("scalar", "len", "method", "call_method"),
            ("scalar", "helper", "indirect", "call"),
            ("scalar", "<expr>", "indirect", "indirect"),
        ]
    );
    assert!(up.edges.iter().all(|e| e.caller_name == "st_area"));
    assert_eq!(up.edges[0].source_hint, "hint of st_extent");
    let skipped = extract_source_metadata(&function_rows(), &owners, &helpers, &release(), None);
    assert_eq!(skipped.edges.len(), 0);
    assert_eq!(format!("{:?}", skipped.scalars), format!("{:?}", up.scalars));
    assert_eq!(format!("{:?}", skipped.aggregates), format!("{:?}", up.aggregates));
    assert_eq!(format!("{:?}", skipped.table_functions), format!("{:?}", up.table_functions));
    assert_eq!(format!("{:?}", skipped.window_functions), format!("{:?}", up.window_functions));
    assert_eq!(format!("{:?}", skipped.upstream), format!("{:?}", up.upstream));
}

#[test]
fn a_name_of_several_kinds_counts_as_the_first() {
    let known = KnownFunctions {
        scalars: vec![s("a")],
        aggregates: vec![s("a"), s("b")],
        table_functions: vec![s("b"), s("c")],
        window_functions: vec![s("c"), s("d")],
    };
    assert_eq!(known.kind("a"), Some(FunctionKind::Scalar));
    assert_eq!(known.kind("b"), Some(FunctionKind::Aggregate));
    assert_eq!(known.kind("c"), Some(FunctionKind::Table));
    assert_eq!(known.kind("d"), Some(FunctionKind::Window));
    assert_eq!(known.kind("e"), None);
    assert_eq!(call_edges(&known, &walked()).len(), 0);
}

#[test]
fn interfaces_resolve_to_hashes() {
    let hashes = vec![
        InterfaceHash { interface: s("a"), hash: s("1") },
        InterfaceHash { interface: s("a"), hash: s("2") },
    ];
    assert_eq!(interface_lookup(&hashes, "a"), None);
    assert_eq!(resolve_iface_and_impl(Some("a"), None, &hashes, "h"), (Some(s("a")), s("2")));
    assert_eq!(resolve_iface_and_impl(None, Some("a"), &hashes, "h"), (Some(s("a")), s("2")));
    assert_eq!(resolve_iface_and_impl(Some("b"), Some("a"), &hashes, "h"), (Some(s("b")), s("h")));
    assert_eq!(resolve_iface_and_impl(None, None, &hashes, "h"), (None, s("h")));
    assert_eq!(interface_hashes(&Vec::new(), &[0; 32]).len(), 0);
}

#[test]
fn edges_are_derived_by_seven_statements() {
    let all = derived_edges();
    assert_eq!(all.len(), 7);
    let kinds: Vec<Option<FunctionKind>> = all.iter().map(|d| d.kind).collect();
    assert_eq!(
        kinds,
        vec![
            Some(FunctionKind::Scalar),
            Some(FunctionKind::Aggregate),
            Some(FunctionKind::Table),
            Some(FunctionKind::Window),
            None,
            None,
            None,
        ]
    );
    assert!(all[2].sql.contains(" FROM table_functions s JOIN json_each(s.param_types_json)"));
    assert!(all[4].sql.contains("'type_return'"));
    assert!(all[5].sql.contains("'cast_target'"));
    assert!(all[6].sql.contains("'operator_bind'"));
    assert_eq!(
        stamp_sql(FunctionKind::Window),
        "UPDATE window_functions SET interface = ?3, first_seen_upstream_version = ?4, \
         last_seen_upstream_version = ?5, signature_hash = ?6, implementation_hash = ?7 \
         WHERE extension = ?1 AND name = ?2"
    );
}

#[test]
fn migrations_follow_each_other() {
    let both = vec![Migration::V1ToV2, Migration::V2ToV3];
    let plan = apply(0, 2);
    assert_eq!((plan.steps, plan.outcome), (vec![Migration::V1ToV2], Ok(())));
    let plan = apply(1, 3);
    assert_eq!((plan.steps, plan.outcome), (both.clone(), Ok(())));
    let plan = apply(0, 1);
    assert_eq!((plan.steps, plan.outcome), (vec![Migration::V1ToV2], Ok(())));
    let plan = apply(2, 3);
    assert_eq!((plan.steps, plan.outcome), (vec![Migration::V2ToV3], Ok(())));
    let plan = apply(1, 4);
    assert_eq!(
        (plan.steps, plan.outcome),
        (both, Err(s("no migration path from schema v3; update shim-interface-core")))
    );
    let plan = apply(5, 3);
    assert_eq!((plan.steps, plan.outcome), (vec![], Err(s("cannot migrate downwards (5 -> 3)"))));
    let plan = apply(3, 3);
    assert_eq!((plan.steps, plan.outcome), (vec![], Ok(())));
}

#[test]
fn older_databases_are_upgraded_and_newer_ones_refused() {
    assert_eq!(SCHEMA_VERSION, 3);
    for v in 0..2 {
        let plan = ensure_schema(v);
        assert_eq!(
            (plan.steps, plan.outcome),
            (vec![Migration::V1ToV2, Migration::V2ToV3], Ok(()))
        );
    }
    let plan = ensure_schema(2);
    assert_eq!((plan.steps, plan.outcome), (vec![Migration::V2ToV3], Ok(())));
    let plan = ensure_schema(3);
    assert_eq!((plan.steps, plan.outcome), (vec![], Ok(())));
    let plan = ensure_schema(4);
    assert_eq!(
        (plan.steps, plan.outcome),
        (
            vec![],
            Err(s("DB schema v4 is newer than tool schema v3; upgrade shim-interface-core"))
        )
    );
    assert_eq!(write_user_version(3), "PRAGMA user_version = 3");
    assert_eq!(write_user_version(4294967295), "PRAGMA user_version = 4294967295");
}

#[test]
fn databases_are_prepared() {
    assert_eq!(open_or_migrate(0), Preparation::CreateSchema);
    assert_eq!(open_or_migrate(1), Preparation::EnsureSchema);
    let path = |c: &[&str]| -> Vec<Vec<u8>> { c.iter().map(|p| p.as_bytes().to_vec()).collect() };
    assert!(open_fresh(&path(&["/", "x.db"]), true));
    assert!(!open_fresh(&path(&["/", "x.db"]), false));
    assert!(!open_fresh(&path(&[":memory:"]), true));
    assert!(open_fresh(&path(&["d", ":memory:"]), true));
}

#[test]
fn stamping_again_keeps_the_first_release() {
    let hashes = vec![InterfaceHash { interface: s("measure"), hash: s("h") }];
    let source = |version: &'static str| StampSource {
        upstream_version: version,
        hashes: &hashes,
        helpers_only: "helpers",
    };
    let once = stamp_scalar_rows(&vec![scalar_row("f", Some("measure"))], &source("1.0"));
    assert_eq!((once[0].first_seen.as_str(), once[0].last_seen.as_str()), ("1.0", "1.0"));
    let mut stored = scalar_row("f", once[0].interface.as_deref());
    stored.first_seen = Some(once[0].first_seen.clone());
    let twice = stamp_scalar_rows(&vec![stored.clone()], &source("2.0"));
    assert_eq!((twice[0].first_seen.as_str(), twice[0].last_seen.as_str()), ("1.0", "2.0"));
    assert_eq!(twice[0].interface.as_deref(), Some("measure"));
    assert_eq!(twice[0].implementation_hash, "h");
    assert_eq!(twice[0].signature_hash, once[0].signature_hash);
    let again = stamp_scalar_rows(&vec![stored], &source("1.0"));
    assert_eq!(format!("{:?}", again), format!("{:?}", once));
}
