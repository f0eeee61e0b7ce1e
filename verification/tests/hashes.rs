//! Signature and implementation hashes.
use shim_interface_core::digest::{blake3_hex, to_hex};
use shim_interface_core::hashes::{
    aggregate_signature_hash, aggregate_values, canonical_json_bytes, cast_rewrite_signature_hash,
    column_type_signature_hash, column_type_values, document_hash, helpers_hash,
    implementation_hash, operator_signature_hash, operator_values,
    preprocessor_pattern_signature_hash, recanonicalize_json_str, recanonicalize_parsed,
    scalar_signature_hash, scalar_values, spatial_index_signature_hash,
    table_function_signature_hash, window_function_signature_hash, AggregateSig, CastRewriteSig,
    ColumnTypeSig, HelpersCache, OperatorSig, PreprocessorPatternSig, ScalarSig, SimpleFnSig,
    SpatialIndexSig,
};
use shim_interface_core::sources::{HelperFile, SourceEntry};

fn hex_of(json: &str) -> String {
    blake3::hash(json.as_bytes()).to_hex().to_string()
}

#[test]
fn scalar_signature_hash_is_stable() {
    let a = ScalarSig {
        name: "st_area",
        param_types_json: "[[\"geometry\"]]",
        return_type: "double",
        is_deterministic: true,
        propagates_null: true,
    };
    let b = ScalarSig {
        name: "st_area",
        param_types_json: "[[ \"geometry\" ]]",
        return_type: "double",
        is_deterministic: true,
        propagates_null: true,
    };
    assert_eq!(scalar_signature_hash(&a), scalar_signature_hash(&b));
}

#[test]
fn scalar_signature_hash_reflects_determinism() {
    let a = ScalarSig {
        name: "st_area",
        param_types_json: "[[\"geometry\"]]",
        return_type: "double",
        is_deterministic: true,
        propagates_null: true,
    };
    let b = ScalarSig { is_deterministic: false, ..a };
    assert_ne!(scalar_signature_hash(&a), scalar_signature_hash(&b));
}

#[test]
fn aggregate_signature_hash_reflects_config() {
    let a = AggregateSig {
        name: "st_extent",
        param_types_json: "[[\"geometry\"]]",
        supports_grouped: true,
        supports_partial: true,
        is_order_sensitive: false,
        accepts_config: false,
        config_arg_indices_json: "[]",
    };
    let b = AggregateSig { accepts_config: true, ..a };
    assert_ne!(aggregate_signature_hash(&a), aggregate_signature_hash(&b));
}

#[test]
fn helpers_hash_missing_dir_is_empty_blake3() {
    let h = helpers_hash(Vec::new());
    assert_eq!(h, *blake3::Hasher::new().finalize().as_bytes());
}

#[test]
fn column_type_hash_reflects_storage_size() {
    let a = ColumnTypeSig {
        typename: "geometry",
        storage_size: -1,
        cast_from_json: "[]",
        cast_to_json: "[]",
    };
    let b = ColumnTypeSig { storage_size: 128, ..a };
    assert_ne!(column_type_signature_hash(&a), column_type_signature_hash(&b));
}

#[test]
fn column_type_hash_is_stable_across_whitespace() {
    let a = ColumnTypeSig {
        typename: "geometry",
        storage_size: -1,
        cast_from_json: "[\"text\"]",
        cast_to_json: "[]",
    };
    let b = ColumnTypeSig { cast_from_json: "[ \"text\" ]", ..a };
    assert_eq!(column_type_signature_hash(&a), column_type_signature_hash(&b));
}

#[test]
fn operator_hash_reflects_backing_function() {
    let a = OperatorSig {
        symbol: "&&",
        lhs_type_id: Some(1),
        rhs_type_id: Some(1),
        backing_function: "geometry_overlaps",
    };
    let b = OperatorSig { backing_function: "st_intersects", ..a };
    assert_ne!(operator_signature_hash(&a), operator_signature_hash(&b));
}

#[test]
fn operator_hash_handles_null_sides() {
    let both_null = OperatorSig {
        symbol: "!",
        lhs_type_id: None,
        rhs_type_id: None,
        backing_function: "st_not",
    };
    let lhs_typed = OperatorSig { lhs_type_id: Some(0), ..both_null };
    assert_ne!(operator_signature_hash(&both_null), operator_signature_hash(&lhs_typed));
}

#[test]
fn cast_rewrite_hash_reflects_rewrite_target() {
    let a = CastRewriteSig {
        source_type_id: 0,
        target_type: "geometry",
        source_kind: "any",
        source_fn_hint: "",
        rewrite_target: "st_geomfromwkb",
    };
    let b = CastRewriteSig { rewrite_target: "st_geomfromtext", ..a };
    assert_ne!(cast_rewrite_signature_hash(&a), cast_rewrite_signature_hash(&b));
}

#[test]
fn spatial_index_hash_treats_empty_caps_as_empty_object() {
    let a = SpatialIndexSig { method: "gist_geometry_ops_2d", capabilities_json: "" };
    let b = SpatialIndexSig { method: "gist_geometry_ops_2d", capabilities_json: "{}" };
    assert_eq!(spatial_index_signature_hash(&a), spatial_index_signature_hash(&b));
}

#[test]
fn spatial_index_hash_reflects_method() {
    let a = SpatialIndexSig { method: "gist_geometry_ops_2d", capabilities_json: "{}" };
    let b = SpatialIndexSig { method: "spgist_geometry_ops_2d", capabilities_json: "{}" };
    assert_ne!(spatial_index_signature_hash(&a), spatial_index_signature_hash(&b));
}

#[test]
fn preprocessor_pattern_hash_reflects_function() {
    let a = PreprocessorPatternSig { op_token: "<->", function_name: "st_distance" };
    let b = PreprocessorPatternSig { op_token: "<->", function_name: "st_maxdistance" };
    assert_ne!(preprocessor_pattern_signature_hash(&a), preprocessor_pattern_signature_hash(&b));
}

#[test]
fn scalar_hash_is_that_of_the_canonical_array() {
    let s = ScalarSig {
        name: "st_area",
        param_types_json: " [ [\"geometry\"] ] ",
        return_type: "double",
        is_deterministic: true,
        propagates_null: false,
    };
    assert_eq!(
        scalar_signature_hash(&s),
        hex_of("[\"st_area\",[[\"geometry\"]],\"double\",true,false]")
    );
}

#[test]
fn aggregate_hash_is_that_of_the_canonical_array() {
    let a = AggregateSig {
        name: "st_extent",
        param_types_json: "[[\"geometry\"]]",
        supports_grouped: true,
        supports_partial: false,
        is_order_sensitive: false,
        accepts_config: true,
        config_arg_indices_json: "[ 1, 2 ]",
    };
    assert_eq!(
        aggregate_signature_hash(&a),
        hex_of("[\"st_extent\",[[\"geometry\"]],true,false,false,true,[1,2]]")
    );
}

#[test]
fn table_and_window_functions_are_tagged() {
    let t = SimpleFnSig { name: "st_dump", param_types_json: "[[\"geometry\"]]" };
    assert_eq!(
        table_function_signature_hash(&t),
        hex_of("[\"table_function\",\"st_dump\",[[\"geometry\"]]]")
    );
    assert_eq!(
        window_function_signature_hash(&t),
        hex_of("[\"window_function\",\"st_dump\",[[\"geometry\"]]]")
    );
    assert_ne!(table_function_signature_hash(&t), window_function_signature_hash(&t));
}

#[test]
fn column_type_hash_is_that_of_the_canonical_array() {
    let t = ColumnTypeSig {
        typename: "geometry",
        storage_size: -1,
        cast_from_json: "[\"text\"]",
        cast_to_json: "not json",
    };
    assert_eq!(
        column_type_signature_hash(&t),
        hex_of("[\"column_type\",\"geometry\",-1,[\"text\"],\"not json\"]")
    );
}

#[test]
fn operator_hash_is_that_of_the_canonical_array() {
    let o = OperatorSig {
        symbol: "&&",
        lhs_type_id: Some(7),
        rhs_type_id: None,
        backing_function: "overlaps",
    };
    assert_eq!(operator_signature_hash(&o), hex_of("[\"operator\",\"&&\",7,null,\"overlaps\"]"));
}

#[test]
fn cast_rewrite_hash_is_that_of_the_canonical_array() {
    let c = CastRewriteSig {
        source_type_id: 12,
        target_type: "geometry",
        source_kind: "any",
        source_fn_hint: "h",
        rewrite_target: "f",
    };
    assert_eq!(
        cast_rewrite_signature_hash(&c),
        hex_of("[\"cast_rewrite\",12,\"geometry\",\"any\",\"h\",\"f\"]")
    );
}

#[test]
fn spatial_index_hash_sorts_the_capabilities() {
    let s = SpatialIndexSig { method: "gist", capabilities_json: "{\"b\": {\"d\":1,\"c\":2}, \"a\":0}" };
    assert_eq!(
        spatial_index_signature_hash(&s),
        hex_of("[\"spatial_index\",\"gist\",{\"a\":0,\"b\":{\"c\":2,\"d\":1}}]")
    );
}

#[test]
fn preprocessor_pattern_hash_is_that_of_the_canonical_array() {
    let p = PreprocessorPatternSig { op_token: "<->", function_name: "st_distance" };
    assert_eq!(
        preprocessor_pattern_signature_hash(&p),
        hex_of("[\"preprocessor_pattern\",\"<->\",\"st_distance\"]")
    );
}

#[test]
fn member_order_leaves_no_trace() {
    let a = SpatialIndexSig { method: "m", capabilities_json: "{\"x\":1,\"y\":[{\"p\":1,\"q\":2}]}" };
    let b = SpatialIndexSig {
        method: "m",
        capabilities_json: "{ \"y\": [ {\"q\":2, \"p\":1} ], \"x\": 1 }",
    };
    assert_eq!(spatial_index_signature_hash(&a), spatial_index_signature_hash(&b));
}

#[test]
fn element_order_does_show() {
    let a = SpatialIndexSig { method: "m", capabilities_json: "[1,2]" };
    let b = SpatialIndexSig { method: "m", capabilities_json: "[2,1]" };
    assert_ne!(spatial_index_signature_hash(&a), spatial_index_signature_hash(&b));
}

#[test]
fn a_text_that_does_not_parse_stands_for_itself() {
    assert_eq!(
        recanonicalize_json_str("{broken"),
        serde_json::Value::String("{broken".to_string())
    );
    assert_eq!(recanonicalize_json_str(" [1 , 2] ").to_string(), "[1,2]");
    assert_eq!(
        recanonicalize_parsed("raw", None),
        serde_json::Value::String("raw".to_string())
    );
    let parsed: serde_json::Value = serde_json::from_str("{\"b\":1,\"a\":2}").unwrap();
    assert_eq!(recanonicalize_parsed("raw", Some(parsed)).to_string(), "{\"a\":2,\"b\":1}");
}

#[test]
fn canonical_bytes_keep_the_order_of_the_values() {
    let values: Vec<serde_json::Value> = vec![
        serde_json::from_str("{\"z\":1,\"a\":[{\"d\":true,\"c\":null}]}").unwrap(),
        serde_json::Value::String("x\"y".to_string()),
    ];
    let bytes = canonical_json_bytes(&values).unwrap();
    assert_eq!(
        String::from_utf8(bytes).unwrap(),
        "[{\"a\":[{\"c\":null,\"d\":true}],\"z\":1},\"x\\\"y\"]"
    );
    assert_eq!(canonical_json_bytes(&[]).unwrap(), b"[]".to_vec());
}

#[test]
fn values_of_a_signature_come_in_order() {
    let s = ScalarSig {
        name: "f",
        param_types_json: "",
        return_type: "t",
        is_deterministic: false,
        propagates_null: true,
    };
    let v = scalar_values(&s, serde_json::Value::Null);
    assert_eq!(serde_json::Value::Array(v.clone()).to_string(), "[\"f\",null,\"t\",false,true]");
    assert_eq!(document_hash(&v), hex_of("[\"f\",null,\"t\",false,true]"));

    let a = AggregateSig {
        name: "g",
        param_types_json: "",
        supports_grouped: true,
        supports_partial: false,
        is_order_sensitive: true,
        accepts_config: false,
        config_arg_indices_json: "",
    };
    let v = aggregate_values(&a, serde_json::Value::Null, serde_json::Value::Bool(true));
    assert_eq!(
        serde_json::Value::Array(v).to_string(),
        "[\"g\",null,true,false,true,false,true]"
    );

    let t = ColumnTypeSig { typename: "t", storage_size: i64::MIN, cast_from_json: "", cast_to_json: "" };
    let v = column_type_values(&t, serde_json::Value::Null, serde_json::Value::Null);
    assert_eq!(
        serde_json::Value::Array(v).to_string(),
        "[\"column_type\",\"t\",-9223372036854775808,null,null]"
    );

    let o = OperatorSig { symbol: "+", lhs_type_id: None, rhs_type_id: Some(i64::MAX), backing_function: "p" };
    assert_eq!(
        serde_json::Value::Array(operator_values(&o)).to_string(),
        "[\"operator\",\"+\",null,9223372036854775807,\"p\"]"
    );
}

#[test]
fn same_columns_of_other_kinds_hash_differently() {
    let t = SimpleFnSig { name: "a", param_types_json: "\"b\"" };
    let p = PreprocessorPatternSig { op_token: "a", function_name: "b" };
    let s = SpatialIndexSig { method: "a", capabilities_json: "\"b\"" };
    let hashes = vec![
        table_function_signature_hash(&t),
        window_function_signature_hash(&t),
        preprocessor_pattern_signature_hash(&p),
        spatial_index_signature_hash(&s),
    ];
    for i in 0..hashes.len() {
        for j in 0..i {
            assert_ne!(hashes[i], hashes[j]);
        }
    }
}

fn helper(path: &[&str], bytes: &[u8]) -> HelperFile {
    HelperFile {
        entry: SourceEntry {
            components: path.iter().map(|c| c.as_bytes().to_vec()).collect(),
            name: path.last().map(|c| c.as_bytes().to_vec()).unwrap_or_default(),
            is_file: true,
        },
        rel: path.join("/"),
        bytes: bytes.to_vec(),
    }
}

#[test]
fn helpers_are_hashed_in_the_order_of_their_paths() {
    let expected = *blake3::hash(b"a/z.rs\x00ONEa.rs\x00TWOb.rs\x00").as_bytes();
    let one = || helper(&["a", "z.rs"], b"ONE");
    let two = || helper(&["a.rs"], b"TWO");
    let three = || helper(&["b.rs"], b"");
    assert_eq!(helpers_hash(vec![one(), two(), three()]), expected);
    assert_eq!(helpers_hash(vec![three(), two(), one()]), expected);
    assert_eq!(helpers_hash(vec![two(), three(), one()]), expected);
    let notes = helper(&["notes.md"], b"text");
    let mut folder = helper(&["folder.rs"], b"");
    folder.entry.is_file = false;
    assert_eq!(helpers_hash(vec![notes, one(), folder, two(), three()]), expected);
}

#[test]
fn implementation_hash_folds_the_helpers_in() {
    let helpers = helpers_hash(vec![helper(&["a.rs"], b"x")]);
    let mut owner = b"fn f() {}".to_vec();
    let with_owner = implementation_hash(Some(&owner), &helpers);
    owner.extend_from_slice(&helpers);
    assert_eq!(with_owner, blake3::hash(&owner).to_hex().to_string());
    assert_eq!(implementation_hash(None, &helpers), blake3::hash(&helpers).to_hex().to_string());
    assert_ne!(implementation_hash(Some(b""), &helpers), with_owner);
    assert_eq!(implementation_hash(Some(b""), &helpers), implementation_hash(None, &helpers));
}

#[test]
fn hexadecimal_is_lower_case() {
    assert_eq!(to_hex(&[0, 1, 15, 16, 171, 255]), "00010f10abff");
    assert_eq!(to_hex(&[]), "");
    assert_eq!(
        blake3_hex(b""),
        "af1349b9f5f9a1a6a0404dea36dcc9499bcb25c9adc112b7cc9a93cae41f3262"
    );
}

#[test]
fn the_first_digest_of_a_directory_stays() {
    let mut cache = HelpersCache::new();
    assert_eq!(cache.get(b"/a"), None);
    assert_eq!(cache.remember(b"/a".to_vec(), [1; 32]), [1; 32]);
    assert_eq!(cache.remember(b"/b".to_vec(), [2; 32]), [2; 32]);
    assert_eq!(cache.remember(b"/a".to_vec(), [3; 32]), [1; 32]);
    assert_eq!(cache.get(b"/a"), Some([1; 32]));
    assert_eq!(cache.get(b"/b"), Some([2; 32]));
    assert_eq!(cache.get(b"/"), None);
}

#[test]
fn strings_are_escaped_in_the_hashed_text() {
    let p = PreprocessorPatternSig { op_token: "a\"b\\c\n\u{1}é", function_name: "" };
    assert_eq!(
        preprocessor_pattern_signature_hash(&p),
        hex_of("[\"preprocessor_pattern\",\"a\\\"b\\\\c\\n\\u0001é\",\"\"]")
    );
}

#[test]
fn every_escape_has_its_form() {
    let written = |s: &str| {
        let bytes = canonical_json_bytes(&[serde_json::Value::String(s.to_string())]).unwrap();
        String::from_utf8(bytes).unwrap()
    };
    assert_eq!(written("\u{8}\t\n\u{c}\r"), r#"["\b\t\n\f\r"]"#);
    assert_eq!(written("\u{0}\u{b}\u{1f}"), r#"["\u0000\u000b\u001f"]"#);
    assert_eq!(written("\"\\/ \u{7f}\u{2028}"), "[\"\\\"\\\\/ \u{7f}\u{2028}\"]");
}

#[test]
fn numbers_are_written_as_numerals() {
    let written = |raw: &str| {
        let bytes = canonical_json_bytes(&[recanonicalize_json_str(raw)]).unwrap();
        String::from_utf8(bytes).unwrap()
    };
    assert_eq!(written(" -12 "), "[-12]");
    assert_eq!(written("1.50"), "[1.5]");
    for raw in ["-0", "1e300", "1E-300", "18446744073709551616", "0.1", "-2.5e+10"] {
        let text = written(raw);
        assert!(text[1..text.len() - 1].chars().all(|c| c.is_ascii_digit() || "-+.e".contains(c)));
    }
    assert_eq!(written("1e999"), "[\"1e999\"]");
}

#[test]
fn bytes_tell_documents_apart() {
    let texts = [
        "null", "true", "false", "1", "12", "\"1\"", "[]", "[[]]", "[1,2]", "[12]", "[\"1,2\"]", "{}",
        "{\"a\":1}", "{\"a\":[1]}", "{\"a\":{\"b\":1}}", "{\"a\":1,\"b\":2}", "\"\"", "\"\\\"\"",
    ];
    let written: Vec<Vec<u8>> = texts
        .iter()
        .map(|t| canonical_json_bytes(&[recanonicalize_json_str(t)]).unwrap())
        .collect();
    for i in 0..written.len() {
        for j in 0..i {
            assert_ne!(written[i], written[j], "{} and {}", texts[i], texts[j]);
        }
    }
}
