use dcs_blocks::{
    CommandError, Float, ParameterError, Parameters, StateError, StateMap, Value, ValueKind, params,
    table, text,
};

fn num(value: f64) -> Float {
    Float::from_bits(value.to_bits())
}

#[test]
fn decimal_reads_back() {
    for n in [0, 1, 9, 10, 42, 100, 1007, 4294967295] {
        let digits = text::decimal_text(n);
        assert_eq!(digits, n.to_string());
        assert_eq!(text::parse_index(&digits), Some(n as usize));
    }
    assert_eq!(text::decimal_text(u64::MAX), "18446744073709551615");
}

#[test]
fn indices_are_decimal_digits() {
    assert_eq!(text::parse_index("007"), Some(7));
    assert_eq!(text::parse_index("+7"), Some(7));
    for wrong in ["", "+", "-1", "1.0", " 1", "1 ", "x", "99999999999999999999999"] {
        assert_eq!(text::parse_index(wrong), None, "{wrong:?}");
    }
}

#[test]
fn names_come_apart() {
    assert_eq!(text::numbered("queue_", 12), "queue_12");
    assert_eq!(text::indexed("unit_", 3, "_max_flow"), "unit_3_max_flow");
    assert_eq!(text::strip_prefix("unit_3_max_flow", "unit_"), Some("3_max_flow"));
    assert_eq!(text::strip_prefix("unit", "unit_"), None);
    assert_eq!(text::strip_suffix("unit_3_max_flow", "_max_flow"), Some("unit_3"));
    assert_eq!(text::strip_suffix("unit_3", "_max_flow"), None);
    assert_eq!(text::split_last("step_2_on_overrun", '_'), Some(("step_2_on", "overrun")));
    assert_eq!(text::split_last("step", '_'), None);
    assert_eq!(text::join("a", "b"), "ab");
    assert!(text::same("abc", "abc"));
    assert!(!text::same("abc", "abd"));
    assert!(!text::same("abc", "ab"));
}

#[test]
fn numbered_names_differ() {
    let names: Vec<String> = (0..200).map(|n| text::numbered("queue_", n)).collect();
    for i in 0..names.len() {
        for j in 0..i {
            assert_ne!(names[i], names[j]);
        }
    }
}

#[test]
fn tables_hold_what_was_inserted_last() {
    let mut fields = StateMap::new();
    assert!(fields.is_empty());
    fields.insert("count", Value::Int(1));
    fields.insert("previous", Value::Bool(true));
    fields.insert("count", Value::Int(2));
    assert!(!fields.is_empty());
    assert_eq!(fields.get("count"), Some(Value::Int(2)));
    assert_eq!(fields.get("previous"), Some(Value::Bool(true)));
    assert_eq!(fields.get("preset"), None);
    fields.remove("count");
    assert_eq!(fields.get("count"), None);
    assert_eq!(fields.get("previous"), Some(Value::Bool(true)));
}

#[test]
fn known_names_pass() {
    let known = vec!["count".to_string(), "previous".to_string()];
    let mut fields = StateMap::new();
    assert_eq!(fields.ensure_known_fields("ctr", &known), Ok(()));
    fields.insert("previous", Value::Bool(true));
    assert_eq!(fields.ensure_known_fields("ctr", &known), Ok(()));
    fields.insert("trip_count", Value::Int(1));
    assert_eq!(
        fields.ensure_known_fields("ctr", &known),
        Err(StateError::UnknownField {
            element: "ctr".to_string(),
            field: "trip_count".to_string(),
        })
    );
}

#[test]
fn fields_are_read_by_kind() {
    let mut fields = StateMap::new();
    fields.insert("flag", Value::Bool(true));
    fields.insert("count", Value::Int(7));
    fields.insert("below", Value::Int(-7));
    fields.insert("flow", Value::Float(num(2.5)));
    assert_eq!(fields.require_bool("e", "flag"), Ok(true));
    assert_eq!(fields.require_i64("e", "below"), Ok(-7));
    assert_eq!(fields.require_count("e", "count"), Ok(7));
    assert_eq!(fields.require_f64("e", "flow"), Ok(num(2.5)));
    assert_eq!(fields.optional_bool("e", "flag"), Ok(Some(true)));
    assert_eq!(fields.optional_i64("e", "absent"), Ok(None));
    assert_eq!(fields.optional_f64("e", "flow"), Ok(Some(num(2.5))));
    assert_eq!(
        fields.require_count("e", "below"),
        Err(table::invalid_value("e", "below", Value::Int(-7)))
    );
    assert_eq!(
        fields.require_i64("e", "absent"),
        Err(StateError::MissingField { element: "e".to_string(), field: "absent".to_string() })
    );
    assert_eq!(
        fields.optional_bool("e", "count"),
        Err(StateError::IncompatibleField {
            element: "e".to_string(),
            field: "count".to_string(),
            expected: ValueKind::Bool,
            found: ValueKind::Int,
        })
    );
    assert_eq!(
        fields.require_f64("e", "count"),
        Err(StateError::IncompatibleField {
            element: "e".to_string(),
            field: "count".to_string(),
            expected: ValueKind::Float,
            found: ValueKind::Int,
        })
    );
}

#[test]
fn parameters_convert_where_exact() {
    let mut parameters = Parameters::new();
    parameters.insert("whole", Value::Float(num(4.0)));
    parameters.insert("part", Value::Float(num(4.5)));
    parameters.insert("four", Value::Int(4));
    parameters.insert("below", Value::Int(-4));
    parameters.insert("large", Value::Int(9007199254740993));
    parameters.insert("flag", Value::Bool(true));
    parameters.insert("one", Value::Int(1));
    assert_eq!(params::required_u64("c", &parameters, "whole"), Ok(4));
    assert_eq!(params::required_u64("c", &parameters, "four"), Ok(4));
    assert_eq!(params::optional_u64("c", &parameters, "absent"), Ok(None));
    for wrong in ["part", "below", "flag"] {
        assert!(matches!(
            params::required_u64("c", &parameters, wrong),
            Err(ParameterError::Invalid { ref parameter, .. }) if parameter == wrong
        ));
    }
    assert_eq!(params::required_f64("c", &parameters, "part"), Ok(num(4.5)));
    assert_eq!(params::required_f64("c", &parameters, "below"), Ok(num(-4.0)));
    assert_eq!(params::optional_f64("c", &parameters, "absent"), Ok(None));
    for wrong in ["large", "flag"] {
        assert!(matches!(
            params::required_f64("c", &parameters, wrong),
            Err(ParameterError::Invalid { ref parameter, .. }) if parameter == wrong
        ));
    }
    assert_eq!(
        params::required_f64("c", &parameters, "absent"),
        Err(ParameterError::Missing {
            component: "c".to_string(),
            parameter: "absent".to_string(),
        })
    );
    assert_eq!(params::optional_bool("c", &parameters, "flag"), Ok(Some(true)));
    assert_eq!(params::optional_bool("c", &parameters, "one"), Ok(Some(true)));
    assert_eq!(params::optional_bool("c", &parameters, "absent"), Ok(None));
    for wrong in ["four", "part"] {
        assert!(matches!(
            params::optional_bool("c", &parameters, wrong),
            Err(ParameterError::Invalid { ref parameter, .. }) if parameter == wrong
        ));
    }
}

#[test]
fn retunes_tell_the_kind_from_the_value() {
    assert_eq!(params::tune_u64("c", "ticks", Value::Int(3)), Ok(3));
    assert!(matches!(
        params::tune_u64("c", "ticks", Value::Int(-3)),
        Err(CommandError::InvalidParameter { .. })
    ));
    assert_eq!(
        params::tune_u64("c", "ticks", Value::Bool(true)),
        Err(CommandError::ParameterTypeMismatch {
            component: "c".to_string(),
            parameter: "ticks".to_string(),
            expected: ValueKind::Int,
            found: ValueKind::Bool,
        })
    );
    assert_eq!(params::tune_f64("c", "limit", Value::Int(3)), Ok(num(3.0)));
    assert_eq!(
        params::tune_f64("c", "limit", Value::Bool(true)),
        Err(CommandError::ParameterTypeMismatch {
            component: "c".to_string(),
            parameter: "limit".to_string(),
            expected: ValueKind::Float,
            found: ValueKind::Bool,
        })
    );
    assert_eq!(params::code_of(2), 2);
    assert_eq!(params::code_of(u64::MAX), -1);
}
