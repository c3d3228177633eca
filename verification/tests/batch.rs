use gpuix_native::batch::{parse_batch, parse_batch_ops, BatchError, BatchOp};
use gpuix_native::json::{parse_custom_prop_value, Json, JsonNumber};
use gpuix_native::number::JsNumber;

/// A style decoder for the tests: an object is a style, and its `color`,
/// when declared, must be a string.
fn decode_style(value: &Json) -> Result<String, String> {
    match value {
        Json::Object(members) => {
            let mut color = String::new();
            for (key, v) in members {
                if key == "color" {
                    match v {
                        Json::String(s) => color = s.clone(),
                        _ => return Err("invalid type: expected a string for color".to_string()),
                    }
                }
            }
            Ok(color)
        }
        Json::Null => Err("invalid type: null, expected a style object".to_string()),
        _ => Err("invalid type: expected a style object".to_string()),
    }
}

fn parse(json: &str) -> Result<Vec<BatchOp<String>>, String> {
    parse_batch(json, &decode_style).map_err(|e| e.message())
}

#[test]
fn a_style_error_names_its_op_index() {
    let error = parse(
        r#"[["createElement",1,"div"],["setStyle",1,{"color":"red"}],["setStyle",1,{"color":5}]]"#,
    )
    .expect_err("a bad style rejects the batch");
    assert!(error.starts_with("Batch op 2 setStyle parse error:"), "{error}");
}

#[test]
fn a_legacy_string_encoded_style_still_applies() {
    let ops = parse(r#"[["createElement",1,"div"],["setStyle",1,"{\"color\":\"red\"}"]]"#)
        .expect("a JSON-string style is legacy, not invalid");
    assert!(matches!(&ops[1], BatchOp::SetStyle { id: 1, style } if style == "red"));
}

#[test]
fn a_null_style_is_an_error() {
    let result = parse(r#"[["createElement",1,"div"],["setStyle",1,null]]"#);
    let error = result.expect_err("null is not a style");
    assert!(error.contains("Batch op 1 setStyle parse error:"), "{error}");
}

#[test]
fn an_unknown_opcode_is_an_error() {
    let error = parse(r#"[["teleportElement",1]]"#).expect_err("unknown opcode");
    assert!(error.contains("unknown operation"), "{error}");
}

#[test]
fn an_invalid_id_is_rejected_in_every_id_position() {
    let templates = [
        r#"[["createElement",ID,"div"]]"#,
        r#"[["destroyElement",ID]]"#,
        r#"[["appendChild",ID,2]]"#,
        r#"[["appendChild",1,ID]]"#,
        r#"[["removeChild",ID,2]]"#,
        r#"[["removeChild",1,ID]]"#,
        r#"[["insertBefore",ID,2,3]]"#,
        r#"[["insertBefore",1,ID,3]]"#,
        r#"[["insertBefore",1,2,ID]]"#,
        r#"[["setStyle",ID,{}]]"#,
        r#"[["setText",ID,"x"]]"#,
        r#"[["setEventListener",ID,"click",true]]"#,
        r#"[["setRoot",ID]]"#,
        r#"[["setCustomProp",ID,"k",1]]"#,
        r#"[["setCustomPropValue",ID,"k",1]]"#,
    ];
    // 1e999 overflows f64, 9007199254740992 is Number.MAX_SAFE_INTEGER + 1.
    let bad_ids = ["-1", "1.5", "9007199254740992", "1e999"];

    for template in templates {
        for bad in bad_ids {
            let json = template.replace("ID", bad);
            let error = parse(&json).expect_err(&format!("{json} must be rejected"));
            assert!(error.contains("Batch op 0"), "{json}: {error}");
        }
    }
}

#[test]
fn has_handler_takes_a_bool_or_a_non_negative_integer() {
    for (payload, expected) in [("true", true), ("false", false), ("1", true), ("0", false)] {
        let json = format!(
            r#"[["createElement",1,"div"],["setEventListener",1,"click",{payload}]]"#
        );
        let ops = parse(&json).expect("bool or non-negative integer");
        assert!(
            matches!(&ops[1], BatchOp::SetEventListener { id: 1, event_type, has_handler }
                if event_type == "click" && *has_handler == expected),
            "hasHandler {payload}"
        );
    }

    for payload in ["-1", "0.5"] {
        let json = format!(
            r#"[["createElement",1,"div"],["setEventListener",1,"click",{payload}]]"#
        );
        parse(&json).expect_err(&format!("hasHandler {payload} is not a bool"));
    }
}

#[test]
fn a_malformed_op_tuple_is_an_error() {
    let cases = [
        (r#"[42]"#, "a non-array op"),
        (r#"[["createElement",1]]"#, "a missing argument"),
        (r#"[[7,1,"div"]]"#, "a non-string op name"),
    ];
    for (json, what) in cases {
        let error = parse(json).expect_err(what);
        assert!(error.starts_with("Failed to parse batch:"), "{what}: {error}");
    }
}

#[test]
fn every_op_parses_in_order() {
    let ops = parse(
        r#"[["createElement",1,"div"],["destroyElement",2],["appendChild",1,3],
            ["removeChild",1,4],["insertBefore",1,5,6],["setStyle",1,{"color":"blue"}],
            ["setText",7,"hi"],["setEventListener",1,"click",2],["setRoot",1],
            ["setCustomProp",1,"k","[1,2]"],["setCustomPropValue",1,"v","[1,2]"]]"#,
    )
    .expect("a valid batch");
    assert_eq!(ops.len(), 11);
    assert!(matches!(&ops[0], BatchOp::CreateElement { id: 1, element_type } if element_type == "div"));
    assert!(matches!(&ops[1], BatchOp::DestroyElement { id: 2 }));
    assert!(matches!(&ops[2], BatchOp::AppendChild { parent_id: 1, child_id: 3 }));
    assert!(matches!(&ops[3], BatchOp::RemoveChild { parent_id: 1, child_id: 4 }));
    assert!(matches!(&ops[4], BatchOp::InsertBefore { parent_id: 1, child_id: 5, before_id: 6 }));
    assert!(matches!(&ops[5], BatchOp::SetStyle { id: 1, style } if style == "blue"));
    assert!(matches!(&ops[6], BatchOp::SetText { id: 7, content } if content == "hi"));
    assert!(matches!(&ops[7], BatchOp::SetEventListener { id: 1, has_handler: true, .. }));
    assert!(matches!(&ops[8], BatchOp::SetRoot { id: 1 }));
    // `setCustomProp` decodes a JSON string; `setCustomPropValue` keeps it.
    assert!(matches!(&ops[9], BatchOp::SetCustomProp { id: 1, key, value: Json::Array(items) }
        if key == "k" && items.len() == 2));
    assert!(matches!(&ops[10], BatchOp::SetCustomProp { id: 1, key, value: Json::String(s) }
        if key == "v" && s == "[1,2]"));
}

#[test]
fn a_custom_prop_string_that_is_not_json_stays_a_string() {
    let ops = parse(r#"[["setCustomProp",1,"k","plain text"]]"#).expect("valid");
    assert!(matches!(&ops[0], BatchOp::SetCustomProp { value: Json::String(s), .. } if s == "plain text"));
}

#[test]
fn an_empty_batch_is_no_ops() {
    assert!(parse("[]").expect("valid").is_empty());
}

#[test]
fn the_largest_safe_id_and_minus_zero_are_ids() {
    let ops = parse(r#"[["setRoot",9007199254740991],["setRoot",-0],["setRoot",1e3]]"#).expect("valid");
    assert!(matches!(&ops[0], BatchOp::SetRoot { id: 9007199254740991 }));
    assert!(matches!(&ops[1], BatchOp::SetRoot { id: 0 }));
    assert!(matches!(&ops[2], BatchOp::SetRoot { id: 1000 }));
}

#[test]
fn each_error_has_its_message() {
    let cases: [(&str, &str); 13] = [
        ("{}", "Failed to parse batch: the batch is not a JSON array"),
        ("7", "Failed to parse batch: the batch is not a JSON array"),
        ("[[\"setRoot\",1],42]", "Failed to parse batch: op 1 is not an array"),
        ("[[]]", "Failed to parse batch: op 0 missing op name string"),
        ("[[\"setRoot\"]]", "Failed to parse batch: op 0 missing id at index 1"),
        ("[[\"setRoot\",\"1\"]]", "Failed to parse batch: op 0 missing id at index 1"),
        ("[[\"setRoot\",1e999]]", "Batch op 0 invalid element id at index 1"),
        ("[[\"setRoot\",2.5]]", "Batch op 0 invalid element id at index 1"),
        ("[[\"setText\",1,2]]", "Failed to parse batch: op 0 missing string at index 2"),
        ("[[\"setStyle\",1]]", "Failed to parse batch: op 0 missing value at index 2"),
        ("[[\"setEventListener\",1,\"click\",\"yes\"]]",
            "Failed to parse batch: op 0 setEventListener missing hasHandler at index 3"),
        ("[[\"setEventListener\",1,\"click\",-1]]",
            "Batch op 0 setEventListener invalid hasHandler at index 3"),
        ("[[\"setCustomPropValue\",1,\"k\"]]", "Failed to parse batch: op 0 missing custom prop value"),
    ];
    for (json, message) in cases {
        assert_eq!(parse(json).expect_err(json), message);
    }
    let serde_error = serde_json::from_str::<serde_json::Value>("[1,2").unwrap_err();
    assert_eq!(
        parse("[1,2").expect_err("not JSON"),
        format!("Failed to parse batch: {serde_error}"),
        "text that is not JSON carries serde_json's error"
    );
    assert_eq!(
        parse("[[\"frobnicate\"]]").expect_err("unknown"),
        "Batch op 0 unknown operation: \"frobnicate\""
    );
    assert_eq!(
        parse(r#"[["a\"b\\c"]]"#).expect_err("unknown"),
        r#"Batch op 0 unknown operation: "a\"b\\c""#,
        "the name is quoted and escaped"
    );
    assert_eq!(
        parse("[[\"setStyle\",1,7]]").expect_err("bad style"),
        "Batch op 0 setStyle parse error: invalid type: expected a style object"
    );
}

#[test]
fn the_first_bad_op_names_the_error() {
    let error = parse(r#"[["setRoot",1],["setRoot",-3],["nope"]]"#).expect_err("bad");
    assert_eq!(error, "Batch op 1 invalid element id at index 1");
    assert!(matches!(
        parse_batch(r#"[["setRoot",1],["setRoot",-3]]"#, &decode_style),
        Err(BatchError::InvalidId { op: 1, index: 1, id }) if id == JsNumber { bits: (-3.0f64).to_bits() }
    ));
}

#[test]
fn parse_batch_ops_reads_an_already_parsed_batch() {
    let op = Json::Array(vec![
        Json::String("setRoot".to_string()),
        Json::Number(JsonNumber { as_u64: Some(4), as_i64: Some(4), as_f64: Some(JsNumber { bits: 4.0f64.to_bits() }) }),
    ]);
    let ops = parse_batch_ops(vec![op], &decode_style).expect("valid");
    assert!(matches!(&ops[0], BatchOp::SetRoot { id: 4 }));
    let huge = Json::Array(vec![
        Json::String("setRoot".to_string()),
        Json::Number(JsonNumber { as_u64: None, as_i64: None, as_f64: None }),
    ]);
    assert!(matches!(
        parse_batch_ops::<String, _>(vec![huge], &decode_style),
        Err(BatchError::UnrepresentableId { op: 0, index: 1 })
    ));
    let missing = Json::Array(vec![Json::String("setRoot".to_string()), Json::Null]);
    assert!(matches!(
        parse_batch_ops::<String, _>(vec![missing], &decode_style),
        Err(BatchError::MissingId { op: 0, index: 1 })
    ));
}

#[test]
fn a_custom_prop_value_is_json_text() {
    assert!(matches!(parse_custom_prop_value("[1,2]"), Ok(Json::Array(items)) if items.len() == 2));
    assert!(matches!(parse_custom_prop_value("\"top\""), Ok(Json::String(s)) if s == "top"));
    let error = parse_custom_prop_value("top").unwrap_err();
    let serde_error = serde_json::from_str::<serde_json::Value>("top").unwrap_err();
    assert_eq!(error.reason, serde_error.to_string());
    assert_eq!(error.message(), format!("Failed to parse custom prop value: {serde_error}"));
}
