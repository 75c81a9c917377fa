use ggml_rs::{
    fetch_static_key_value_pair, fetch_static_tensor_datatype, fetch_static_tensor_dim,
    parse_datatype, parse_dim, ConfigError, DataType, Dimension, FieldLayout, ModelIO,
    RecordLayout, ScalarKind, TensorParams,
};

fn terms(s: &[&str]) -> Vec<String> {
    s.iter().map(|t| t.to_string()).collect()
}

#[test]
fn key_value_pair_lookup() {
    let t = terms(&["ggml_datatype", "=", "i32", ",", "ggml_dim", "=", "D2"]);
    assert_eq!(fetch_static_key_value_pair(&t, "ggml_dim"), Some("D2".to_string()));
    assert_eq!(fetch_static_key_value_pair(&t, "ggml_datatype"), Some("i32".to_string()));
    assert_eq!(fetch_static_key_value_pair(&t, "other"), None);
    assert_eq!(fetch_static_key_value_pair(&terms(&["ggml_dim", "="]), "ggml_dim"), None);
    assert_eq!(fetch_static_key_value_pair(&terms(&["ggml_dim", ":", "D3"]), "ggml_dim"), None);
    let twice = terms(&["k", "=", "a", "k", "=", "b"]);
    assert_eq!(fetch_static_key_value_pair(&twice, "k"), Some("a".to_string()));
}

#[test]
fn defaults_when_undeclared() {
    let empty: Vec<String> = vec![];
    assert_eq!(fetch_static_tensor_dim(&empty), "D1");
    assert_eq!(fetch_static_tensor_datatype(&empty), "i8");
    let t = terms(&["ggml_datatype", "=", "f16"]);
    assert_eq!(fetch_static_tensor_datatype(&t), "f16");
    assert_eq!(fetch_static_tensor_dim(&t), "D1");
}

#[test]
fn datatype_tokens() {
    assert_eq!(parse_datatype("i8"), Ok(DataType::I8));
    assert_eq!(parse_datatype("i16"), Ok(DataType::I16));
    assert_eq!(parse_datatype("i32"), Ok(DataType::I32));
    assert_eq!(parse_datatype("f16"), Ok(DataType::F16));
    assert_eq!(parse_datatype("f32"), Ok(DataType::F32));
    assert_eq!(parse_datatype("count"), Ok(DataType::COUNT));
    assert_eq!(parse_datatype("I8"), Err(ConfigError::InvalidDatatype));
    assert_eq!(parse_datatype("u8"), Err(ConfigError::InvalidDatatype));
}

#[test]
fn dim_tokens() {
    assert_eq!(parse_dim("D1"), Ok(Dimension::D1));
    assert_eq!(parse_dim("D2"), Ok(Dimension::D2));
    assert_eq!(parse_dim("D3"), Ok(Dimension::D3));
    assert_eq!(parse_dim("d1"), Err(ConfigError::InvalidDim));
    assert_eq!(parse_dim("Scalar"), Err(ConfigError::InvalidDim));
}

#[test]
fn params_from_terms() {
    let t = terms(&["ggml_datatype", "=", "i32", ",", "ggml_dim", "=", "D2"]);
    assert_eq!(
        TensorParams::from_terms(&t),
        Ok(TensorParams { datatype: DataType::I32, dim: Dimension::D2 })
    );
    assert_eq!(
        TensorParams::from_terms(&vec![]),
        Ok(TensorParams { datatype: DataType::I8, dim: Dimension::D1 })
    );
    assert_eq!(
        TensorParams::from_terms(&terms(&["ggml_datatype", "=", "f64"])),
        Err(ConfigError::InvalidDatatype)
    );
    assert_eq!(
        TensorParams::from_terms(&terms(&["ggml_dim", "=", "D4"])),
        Err(ConfigError::InvalidDim)
    );
    let l = RecordLayout { fields: vec![FieldLayout { kind: ScalarKind::I8, count: 4 }] };
    let io = ModelIO::from_terms(l, &terms(&["ggml_dim", "=", "D3"])).unwrap();
    assert_eq!(io.params, TensorParams { datatype: DataType::I8, dim: Dimension::D3 });
}

#[test]
fn tag_table() {
    let all = [
        DataType::I8,
        DataType::I16,
        DataType::I32,
        DataType::F16,
        DataType::F32,
        DataType::COUNT,
    ];
    let tags: Vec<u32> = all.iter().map(|d| d.tag()).collect();
    assert_eq!(tags, vec![2, 3, 4, 5, 6, 7]);
    for d in all {
        assert_eq!(DataType::from_tag(d.tag()), Ok(d));
        assert_eq!(u32::from(d), d.tag());
    }
    assert_eq!(DataType::from_tag(0), Err(ConfigError::UnknownTag));
    assert_eq!(DataType::from_tag(8), Err(ConfigError::UnknownTag));
    assert_eq!(DataType::F16.size(), 2);
    assert_eq!(DataType::COUNT.size(), 0);
    assert_eq!(Dimension::D3.rank(), 3);
    assert_eq!(Dimension::Scalar.rank(), 0);
}
