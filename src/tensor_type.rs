//! Element datatypes and tensor ranks, with their native type tags and the
//! tokens by which a record type declares them.
use vstd::prelude::*;

verus! {

/// Fixed-width element kinds of the compute engine. `COUNT` is the sentinel
/// that closes the enumeration; it never describes real data.
#[derive(Clone, Copy, Debug, PartialEq, Eq, Structural)]
pub enum DataType {
    I8,
    I16,
    I32,
    F16,
    F32,
    COUNT,
}

/// Rank of a tensor.
#[derive(Clone, Copy, Debug, PartialEq, Eq, Structural)]
pub enum Dimension {
    Scalar,
    D1,
    D2,
    D3,
}

/// Why a declared datatype or rank was refused.
#[derive(Clone, Copy, Debug, PartialEq, Eq, Structural)]
pub enum ConfigError {
    /// The datatype token is not one of `i8 i16 i32 f16 f32 count`.
    InvalidDatatype,
    /// The rank token is not one of `D1 D2 D3`.
    InvalidDim,
    /// The integer is not the tag of any datatype.
    UnknownTag,
}

impl DataType {
    /// The engine's integer tag for this datatype.
    pub open spec fn spec_tag(self) -> u32 {
        match self {
            DataType::I8 => 2,
            DataType::I16 => 3,
            DataType::I32 => 4,
            DataType::F16 => 5,
            DataType::F32 => 6,
            DataType::COUNT => 7,
        }
    }

    /// Size in bytes of one element; zero for the `COUNT` sentinel.
    pub open spec fn spec_size(self) -> nat {
        match self {
            DataType::I8 => 1,
            DataType::I16 => 2,
            DataType::F16 => 2,
            DataType::I32 => 4,
            DataType::F32 => 4,
            DataType::COUNT => 0,
        }
    }

    /// Whether the datatype can describe stored data.
    pub open spec fn is_data(self) -> bool {
        self != DataType::COUNT
    }

    /// Whether elements hold two's-complement integers.
    pub open spec fn is_integer(self) -> bool {
        self == DataType::I8 || self == DataType::I16 || self == DataType::I32
    }

    /// The datatype with tag `tag`, if any.
    pub open spec fn spec_from_tag(tag: u32) -> Option<DataType> {
        if tag == 2 {
            Some(DataType::I8)
        } else if tag == 3 {
            Some(DataType::I16)
        } else if tag == 4 {
            Some(DataType::I32)
        } else if tag == 5 {
            Some(DataType::F16)
        } else if tag == 6 {
            Some(DataType::F32)
        } else if tag == 7 {
            Some(DataType::COUNT)
        } else {
            None
        }
    }

    pub fn tag(self) -> (r: u32)
        ensures
            r == self.spec_tag(),
    {
        match self {
            DataType::I8 => 2,
            DataType::I16 => 3,
            DataType::I32 => 4,
            DataType::F16 => 5,
            DataType::F32 => 6,
            DataType::COUNT => 7,
        }
    }

    pub fn size(self) -> (r: usize)
        ensures
            r == self.spec_size(),
    {
        match self {
            DataType::I8 => 1,
            DataType::I16 => 2,
            DataType::F16 => 2,
            DataType::I32 => 4,
            DataType::F32 => 4,
            DataType::COUNT => 0,
        }
    }

    /// Converts an engine tag back to a datatype; an unknown tag is a
    /// configuration error.
    pub fn from_tag(tag: u32) -> (r: Result<DataType, ConfigError>)
        ensures
            r matches Ok(d) ==> Self::spec_from_tag(tag) == Some(d),
            r matches Err(e) ==> Self::spec_from_tag(tag) is None && e == ConfigError::UnknownTag,
    {
        if tag == 2 {
            Ok(DataType::I8)
        } else if tag == 3 {
            Ok(DataType::I16)
        } else if tag == 4 {
            Ok(DataType::I32)
        } else if tag == 5 {
            Ok(DataType::F16)
        } else if tag == 6 {
            Ok(DataType::F32)
        } else if tag == 7 {
            Ok(DataType::COUNT)
        } else {
            Err(ConfigError::UnknownTag)
        }
    }
}

/// The tag table is a bijection between datatypes and the tags `2..=7`.
pub proof fn lemma_tag_round_trip(d: DataType, tag: u32)
    ensures
        DataType::spec_from_tag(d.spec_tag()) == Some(d),
        DataType::spec_from_tag(tag) matches Some(e) ==> e.spec_tag() == tag,
        DataType::spec_from_tag(tag) is Some <==> 2 <= tag <= 7,
{
}

impl From<DataType> for u32 {
    fn from(d: DataType) -> (r: u32) {
        d.tag()
    }
}

impl vstd::std_specs::convert::FromSpecImpl<DataType> for u32 {
    open spec fn obeys_from_spec() -> bool {
        true
    }

    open spec fn from_spec(d: DataType) -> u32 {
        d.spec_tag()
    }
}

impl Dimension {
    /// Number of axes.
    pub open spec fn spec_rank(self) -> nat {
        match self {
            Dimension::Scalar => 0,
            Dimension::D1 => 1,
            Dimension::D2 => 2,
            Dimension::D3 => 3,
        }
    }

    pub fn rank(self) -> (r: usize)
        ensures
            r == self.spec_rank(),
    {
        match self {
            Dimension::Scalar => 0,
            Dimension::D1 => 1,
            Dimension::D2 => 2,
            Dimension::D3 => 3,
        }
    }
}

} // verus!
