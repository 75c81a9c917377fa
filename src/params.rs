//! The declaration by which a record type names the datatype and rank of the
//! tensor it becomes: `key = value` terms, and the tokens they may carry.
use crate::tensor_type::{ConfigError, DataType, Dimension};
use vstd::prelude::*;

verus! {

/// Character-wise equality of two strings.
pub fn str_eq(a: &str, b: &str) -> (r: bool)
    ensures
        r == (a@ == b@),
{
    let n = a.unicode_len();
    if n != b.unicode_len() {
        return false;
    }
    let mut i: usize = 0;
    while i < n
        invariant
            n == a@.len(),
            n == b@.len(),
            i <= n,
            forall|j: int| 0 <= j < i ==> a@[j] == b@[j],
        decreases n - i,
    {
        if a.get_char(i) != b.get_char(i) {
            return false;
        }
        i = i + 1;
    }
    assert(a@ =~= b@);
    true
}

/// Whether the three terms starting at `i` read `key = value`.
pub open spec fn is_pair_at(terms: Seq<String>, key: Seq<char>, i: int) -> bool {
    0 <= i && i + 2 < terms.len() && terms[i]@ == key && terms[i + 1]@ == "="@
}

/// The value of the first `key = value` pair among `terms`, if there is one.
pub open spec fn pair_value(terms: Seq<String>, key: Seq<char>) -> Option<Seq<char>> {
    if exists|i: int| is_pair_at(terms, key, i) {
        let i = choose|i: int|
            is_pair_at(terms, key, i) && forall|j: int| 0 <= j < i ==> !is_pair_at(terms, key, j);
        Some(terms[i + 2]@)
    } else {
        None
    }
}

/// Finds the first `key = value` triple in a declaration's terms and returns
/// its value.
pub fn fetch_static_key_value_pair(attr_terms: &Vec<String>, key: &str) -> (r: Option<String>)
    ensures
        r is None ==> forall|i: int| !is_pair_at(attr_terms@, key@, i),
        r matches Some(v) ==> exists|i: int|
            is_pair_at(attr_terms@, key@, i) && (forall|j: int|
                0 <= j < i ==> !is_pair_at(attr_terms@, key@, j)) && v@ == attr_terms@[i + 2]@,
{
    let n = attr_terms.len();
    if n < 3 {
        return None;
    }
    let mut i: usize = 0;
    while i + 2 < n
        invariant
            n == attr_terms@.len(),
            n >= 3,
            i + 2 <= n,
            forall|j: int| 0 <= j < i ==> !is_pair_at(attr_terms@, key@, j),
        decreases n - i,
    {
        if str_eq(attr_terms[i].as_str(), key) && str_eq(attr_terms[i + 1].as_str(), "=") {
            let v = attr_terms[i + 2].clone();
            assert(is_pair_at(attr_terms@, key@, i as int));
            return Some(v);
        }
        i = i + 1;
    }
    None
}

/// The declared rank token; `D1` when the terms declare none.
pub fn fetch_static_tensor_dim(attr_terms: &Vec<String>) -> (r: String)
    ensures
        r@ == (match pair_value(attr_terms@, "ggml_dim"@) {
            Some(v) => v,
            None => "D1"@,
        }),
{
    let found = fetch_static_key_value_pair(attr_terms, "ggml_dim");
    proof { lemma_pair_value(attr_terms@, "ggml_dim"@, found); }
    match found {
        Some(v) => v,
        None => "D1".to_owned(),
    }
}

/// The declared datatype token; `i8` when the terms declare none.
pub fn fetch_static_tensor_datatype(attr_terms: &Vec<String>) -> (r: String)
    ensures
        r@ == (match pair_value(attr_terms@, "ggml_datatype"@) {
            Some(v) => v,
            None => "i8"@,
        }),
{
    let found = fetch_static_key_value_pair(attr_terms, "ggml_datatype");
    proof { lemma_pair_value(attr_terms@, "ggml_datatype"@, found); }
    match found {
        Some(v) => v,
        None => "i8".to_owned(),
    }
}

proof fn lemma_pair_value(terms: Seq<String>, key: Seq<char>, found: Option<String>)
    requires
        found is None ==> forall|i: int| !is_pair_at(terms, key, i),
        found matches Some(v) ==> exists|i: int|
            is_pair_at(terms, key, i) && (forall|j: int| 0 <= j < i ==> !is_pair_at(terms, key, j))
                && v@ == terms[i + 2]@,
    ensures
        pair_value(terms, key) == (match found {
            Some(v) => Some(v@),
            None => None,
        }),
{
    if let Some(v) = found {
        let i = choose|i: int|
            is_pair_at(terms, key, i) && (forall|j: int| 0 <= j < i ==> !is_pair_at(terms, key, j))
                && v@ == terms[i + 2]@;
        let k = choose|k: int|
            is_pair_at(terms, key, k) && forall|j: int| 0 <= j < k ==> !is_pair_at(terms, key, j);
        if k < i {
            assert(!is_pair_at(terms, key, k));
        } else if i < k {
            assert(!is_pair_at(terms, key, i));
        }
    }
}

/// The datatype that a token names, exactly as written.
pub open spec fn datatype_of_token(t: Seq<char>) -> Option<DataType> {
    if t == "i8"@ {
        Some(DataType::I8)
    } else if t == "i16"@ {
        Some(DataType::I16)
    } else if t == "i32"@ {
        Some(DataType::I32)
    } else if t == "f16"@ {
        Some(DataType::F16)
    } else if t == "f32"@ {
        Some(DataType::F32)
    } else if t == "count"@ {
        Some(DataType::COUNT)
    } else {
        None
    }
}

/// The rank that a token names, exactly as written.
pub open spec fn dim_of_token(t: Seq<char>) -> Option<Dimension> {
    if t == "D1"@ {
        Some(Dimension::D1)
    } else if t == "D2"@ {
        Some(Dimension::D2)
    } else if t == "D3"@ {
        Some(Dimension::D3)
    } else {
        None
    }
}

/// Reads a datatype token (`i8 i16 i32 f16 f32 count`, case-sensitive).
pub fn parse_datatype(token: &str) -> (r: Result<DataType, ConfigError>)
    ensures
        r matches Ok(d) ==> datatype_of_token(token@) == Some(d),
        r matches Err(e) ==> datatype_of_token(token@) is None && e == ConfigError::InvalidDatatype,
{
    if str_eq(token, "i8") {
        Ok(DataType::I8)
    } else if str_eq(token, "i16") {
        Ok(DataType::I16)
    } else if str_eq(token, "i32") {
        Ok(DataType::I32)
    } else if str_eq(token, "f16") {
        Ok(DataType::F16)
    } else if str_eq(token, "f32") {
        Ok(DataType::F32)
    } else if str_eq(token, "count") {
        Ok(DataType::COUNT)
    } else {
        Err(ConfigError::InvalidDatatype)
    }
}

/// Reads a rank token (`D1 D2 D3`, case-sensitive).
pub fn parse_dim(token: &str) -> (r: Result<Dimension, ConfigError>)
    ensures
        r matches Ok(d) ==> dim_of_token(token@) == Some(d),
        r matches Err(e) ==> dim_of_token(token@) is None && e == ConfigError::InvalidDim,
{
    if str_eq(token, "D1") {
        Ok(Dimension::D1)
    } else if str_eq(token, "D2") {
        Ok(Dimension::D2)
    } else if str_eq(token, "D3") {
        Ok(Dimension::D3)
    } else {
        Err(ConfigError::InvalidDim)
    }
}

/// The datatype and rank that a record type declares for its tensor.
#[derive(Clone, Copy, Debug, PartialEq, Eq, Structural)]
pub struct TensorParams {
    pub datatype: DataType,
    pub dim: Dimension,
}

/// What a declaration's terms resolve to: the declared tokens, or the
/// defaults `i8` and `D1`, each read as a token.
pub open spec fn params_of_terms(terms: Seq<String>) -> Result<TensorParams, ConfigError> {
    let dt = match pair_value(terms, "ggml_datatype"@) {
        Some(v) => v,
        None => "i8"@,
    };
    let dm = match pair_value(terms, "ggml_dim"@) {
        Some(v) => v,
        None => "D1"@,
    };
    match datatype_of_token(dt) {
        None => Err(ConfigError::InvalidDatatype),
        Some(datatype) => match dim_of_token(dm) {
            None => Err(ConfigError::InvalidDim),
            Some(dim) => Ok(TensorParams { datatype, dim }),
        },
    }
}

impl TensorParams {
    /// Resolves a declaration such as `ggml_datatype = i32 , ggml_dim = D2`,
    /// given as its terms.
    pub fn from_terms(attr_terms: &Vec<String>) -> (r: Result<TensorParams, ConfigError>)
        ensures
            r == params_of_terms(attr_terms@),
    {
        let dt = fetch_static_tensor_datatype(attr_terms);
        let dm = fetch_static_tensor_dim(attr_terms);
        let datatype = parse_datatype(dt.as_str())?;
        let dim = parse_dim(dm.as_str())?;
        Ok(TensorParams { datatype, dim })
    }
}

} // verus!
