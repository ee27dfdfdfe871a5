//! The wire specification: the fixed table mapping a one-byte type tag to a
//! semantic kind.  Tag bytes are partitioned by family: `0x01`-`0x02` are the
//! singleton kinds, `0x11`-`0x1A` the numeric kinds, `0x21`-`0x22` the
//! length-prefixed kinds, `0x31`-`0x32` the containers and `0x41`-`0x42` the
//! fixed-size special kinds.  An unrecognized tag is always a decode error.

use vstd::prelude::*;

verus! {

pub const BOOL: u8 = 0x01;

pub const NULL: u8 = 0x02;

pub const F32: u8 = 0x11;

pub const F64: u8 = 0x12;

pub const I32: u8 = 0x13;

pub const I64: u8 = 0x14;

pub const U32: u8 = 0x15;

pub const U64: u8 = 0x16;

pub const I8: u8 = 0x17;

pub const U8: u8 = 0x18;

pub const I16: u8 = 0x19;

pub const U16: u8 = 0x1A;

pub const STRING: u8 = 0x21;

pub const BINARY: u8 = 0x22;

pub const ARRAY: u8 = 0x31;

pub const MAP: u8 = 0x32;

pub const TIMESTAMP: u8 = 0x41;

pub const ID: u8 = 0x42;

#[derive(Debug, Clone, Copy, Eq, PartialEq, Structural)]
pub enum DataType {
    Bool,
    Null,
    F32,
    F64,
    I32,
    I64,
    U32,
    U64,
    I8,
    U8,
    I16,
    U16,
    String,
    Binary,
    Array,
    Message,
    TimeStamp,
    Id,
}

impl DataType {
    /// The tag byte that stands for this kind on the wire.
    pub open spec fn spec_tag(self) -> u8 {
        match self {
            DataType::Bool => BOOL,
            DataType::Null => NULL,
            DataType::F32 => F32,
            DataType::F64 => F64,
            DataType::I32 => I32,
            DataType::I64 => I64,
            DataType::U32 => U32,
            DataType::U64 => U64,
            DataType::I8 => I8,
            DataType::U8 => U8,
            DataType::I16 => I16,
            DataType::U16 => U16,
            DataType::String => STRING,
            DataType::Binary => BINARY,
            DataType::Array => ARRAY,
            DataType::Message => MAP,
            DataType::TimeStamp => TIMESTAMP,
            DataType::Id => ID,
        }
    }

    /// The kind a tag byte stands for, if any.
    pub open spec fn spec_from(tag: u8) -> Option<DataType> {
        match tag {
            BOOL => Some(DataType::Bool),
            NULL => Some(DataType::Null),
            F32 => Some(DataType::F32),
            F64 => Some(DataType::F64),
            I32 => Some(DataType::I32),
            I64 => Some(DataType::I64),
            U32 => Some(DataType::U32),
            U64 => Some(DataType::U64),
            I8 => Some(DataType::I8),
            U8 => Some(DataType::U8),
            I16 => Some(DataType::I16),
            U16 => Some(DataType::U16),
            STRING => Some(DataType::String),
            BINARY => Some(DataType::Binary),
            ARRAY => Some(DataType::Array),
            MAP => Some(DataType::Message),
            TIMESTAMP => Some(DataType::TimeStamp),
            ID => Some(DataType::Id),
            _ => None,
        }
    }

    #[verifier::when_used_as_spec(spec_tag)]
    pub fn tag(self) -> (r: u8)
        ensures
            r == self.spec_tag(),
    {
        match self {
            DataType::Bool => BOOL,
            DataType::Null => NULL,
            DataType::F32 => F32,
            DataType::F64 => F64,
            DataType::I32 => I32,
            DataType::I64 => I64,
            DataType::U32 => U32,
            DataType::U64 => U64,
            DataType::I8 => I8,
            DataType::U8 => U8,
            DataType::I16 => I16,
            DataType::U16 => U16,
            DataType::String => STRING,
            DataType::Binary => BINARY,
            DataType::Array => ARRAY,
            DataType::Message => MAP,
            DataType::TimeStamp => TIMESTAMP,
            DataType::Id => ID,
        }
    }

    /// Looks a tag byte up in the wire table; `None` for an unrecognized tag.
    pub fn from(tag: u8) -> (r: Option<DataType>)
        ensures
            r == DataType::spec_from(tag),
    {
        match tag {
            BOOL => Some(DataType::Bool),
            NULL => Some(DataType::Null),
            F32 => Some(DataType::F32),
            F64 => Some(DataType::F64),
            I32 => Some(DataType::I32),
            I64 => Some(DataType::I64),
            U32 => Some(DataType::U32),
            U64 => Some(DataType::U64),
            I8 => Some(DataType::I8),
            U8 => Some(DataType::U8),
            I16 => Some(DataType::I16),
            U16 => Some(DataType::U16),
            STRING => Some(DataType::String),
            BINARY => Some(DataType::Binary),
            ARRAY => Some(DataType::Array),
            MAP => Some(DataType::Message),
            TIMESTAMP => Some(DataType::TimeStamp),
            ID => Some(DataType::Id),
            _ => None,
        }
    }
}

} // verus!
