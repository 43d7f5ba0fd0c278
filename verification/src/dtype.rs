use vstd::prelude::*;

use crate::error::Error;

verus! {

/// The logical data types a column can carry. Each logical type maps to a
/// physical storage category: boolean, primitive numeric, binary-like, or a
/// logical type backed by one of those (dates are stored as signed integers).
#[derive(Clone, Copy, Debug, PartialEq, Eq, Structural)]
pub enum DataType {
    Boolean,
    Int8,
    Int16,
    Int32,
    Int64,
    UInt8,
    UInt16,
    UInt32,
    UInt64,
    Float32,
    Float64,
    Date,
    String,
    Binary,
}

impl DataType {
    pub open spec fn signed_integer(self) -> bool {
        self == DataType::Int8 || self == DataType::Int16 || self == DataType::Int32 || self
            == DataType::Int64
    }

    pub open spec fn unsigned_integer(self) -> bool {
        self == DataType::UInt8 || self == DataType::UInt16 || self == DataType::UInt32 || self
            == DataType::UInt64
    }

    pub open spec fn integer(self) -> bool {
        self.signed_integer() || self.unsigned_integer()
    }

    pub open spec fn float(self) -> bool {
        self == DataType::Float32 || self == DataType::Float64
    }

    /// A type stored directly as machine numbers: integers and floats.
    pub open spec fn primitive_numeric(self) -> bool {
        self.integer() || self.float()
    }

    /// A type stored as variable-length byte runs.
    pub open spec fn binary_like(self) -> bool {
        self == DataType::String || self == DataType::Binary
    }

    /// The physical storage type a logical type reduces to. Dates are stored
    /// as 32-bit signed day numbers; everything else is already physical.
    pub open spec fn spec_to_physical(self) -> DataType {
        if self == DataType::Date {
            DataType::Int32
        } else {
            self
        }
    }

    pub fn is_signed_integer(&self) -> (r: bool)
        ensures
            r == self.signed_integer(),
    {
        matches!(self, DataType::Int8 | DataType::Int16 | DataType::Int32 | DataType::Int64)
    }

    pub fn is_unsigned_integer(&self) -> (r: bool)
        ensures
            r == self.unsigned_integer(),
    {
        matches!(self, DataType::UInt8 | DataType::UInt16 | DataType::UInt32 | DataType::UInt64)
    }

    pub fn is_integer(&self) -> (r: bool)
        ensures
            r == self.integer(),
    {
        self.is_signed_integer() || self.is_unsigned_integer()
    }

    pub fn is_float(&self) -> (r: bool)
        ensures
            r == self.float(),
    {
        matches!(self, DataType::Float32 | DataType::Float64)
    }

    pub fn is_primitive_numeric(&self) -> (r: bool)
        ensures
            r == self.primitive_numeric(),
    {
        self.is_integer() || self.is_float()
    }

    pub fn is_binary_like(&self) -> (r: bool)
        ensures
            r == self.binary_like(),
    {
        matches!(self, DataType::String | DataType::Binary)
    }

    pub fn to_physical(&self) -> (r: DataType)
        ensures
            r == self.spec_to_physical(),
    {
        match self {
            DataType::Date => DataType::Int32,
            dt => *dt,
        }
    }
}

/// Bit width used to order integer types when computing a supertype.
pub open spec fn int_width(dt: DataType) -> int {
    match dt {
        DataType::Int8 => 8,
        DataType::Int16 => 16,
        DataType::Int32 => 32,
        DataType::Int64 => 64,
        DataType::UInt8 => 8,
        DataType::UInt16 => 16,
        DataType::UInt32 => 32,
        DataType::UInt64 => 64,
        _ => 0,
    }
}

pub open spec fn signed_of_width(w: int) -> DataType {
    if w <= 8 {
        DataType::Int8
    } else if w <= 16 {
        DataType::Int16
    } else if w <= 32 {
        DataType::Int32
    } else {
        DataType::Int64
    }
}

pub open spec fn unsigned_of_width(w: int) -> DataType {
    if w <= 8 {
        DataType::UInt8
    } else if w <= 16 {
        DataType::UInt16
    } else if w <= 32 {
        DataType::UInt32
    } else {
        DataType::UInt64
    }
}

/// The least common type two operand types widen to, if one exists: equal
/// types stay put; two integers widen to the smallest integer that holds
/// both sign-wise; a float beside any numeric gives a float; everything else
/// has no supertype here.
pub open spec fn spec_supertype(a: DataType, b: DataType) -> Option<DataType> {
    if a == b {
        Some(a)
    } else if a.signed_integer() && b.signed_integer() {
        Some(signed_of_width(if int_width(a) >= int_width(b) {
            int_width(a)
        } else {
            int_width(b)
        }))
    } else if a.unsigned_integer() && b.unsigned_integer() {
        Some(unsigned_of_width(if int_width(a) >= int_width(b) {
            int_width(a)
        } else {
            int_width(b)
        }))
    } else if a.integer() && b.integer() {
        // mixed signedness: widen to the signed type one step above the
        // unsigned operand, capped at 64 bits
        Some(signed_of_width(if int_width(a) >= int_width(b) {
            int_width(a)
        } else {
            int_width(b)
        }))
    } else if a == DataType::Float32 && b.primitive_numeric() {
        Some(if b == DataType::Float64 {
            DataType::Float64
        } else {
            DataType::Float32
        })
    } else if b == DataType::Float32 && a.primitive_numeric() {
        Some(if a == DataType::Float64 {
            DataType::Float64
        } else {
            DataType::Float32
        })
    } else if a == DataType::Float64 && b.primitive_numeric() {
        Some(DataType::Float64)
    } else if b == DataType::Float64 && a.primitive_numeric() {
        Some(DataType::Float64)
    } else {
        None
    }
}

/// Computes the supertype of two data types, or fails where none exists.
pub fn try_get_supertype(a: &DataType, b: &DataType) -> (r: Result<DataType, Error>)
    ensures
        match r {
            Ok(dt) => spec_supertype(*a, *b) == Some(dt),
            Err(e) => spec_supertype(*a, *b) is None && e == Error::UnsupportedDtype,
        },
{
    let wa = int_width_exec(a);
    let wb = int_width_exec(b);
    let w = if wa >= wb {
        wa
    } else {
        wb
    };
    if *a == *b {
        Ok(*a)
    } else if a.is_signed_integer() && b.is_signed_integer() {
        Ok(signed_of_width_exec(w))
    } else if a.is_unsigned_integer() && b.is_unsigned_integer() {
        Ok(unsigned_of_width_exec(w))
    } else if a.is_integer() && b.is_integer() {
        Ok(signed_of_width_exec(w))
    } else if *a == DataType::Float32 && b.is_primitive_numeric() {
        Ok(
            if *b == DataType::Float64 {
                DataType::Float64
            } else {
                DataType::Float32
            },
        )
    } else if *b == DataType::Float32 && a.is_primitive_numeric() {
        Ok(
            if *a == DataType::Float64 {
                DataType::Float64
            } else {
                DataType::Float32
            },
        )
    } else if *a == DataType::Float64 && b.is_primitive_numeric() {
        Ok(DataType::Float64)
    } else if *b == DataType::Float64 && a.is_primitive_numeric() {
        Ok(DataType::Float64)
    } else {
        Err(Error::UnsupportedDtype)
    }
}

fn int_width_exec(dt: &DataType) -> (r: u32)
    ensures
        r == int_width(*dt),
{
    match dt {
        DataType::Int8 => 8,
        DataType::Int16 => 16,
        DataType::Int32 => 32,
        DataType::Int64 => 64,
        DataType::UInt8 => 8,
        DataType::UInt16 => 16,
        DataType::UInt32 => 32,
        DataType::UInt64 => 64,
        _ => 0,
    }
}

fn signed_of_width_exec(w: u32) -> (r: DataType)
    ensures
        r == signed_of_width(w as int),
{
    if w <= 8 {
        DataType::Int8
    } else if w <= 16 {
        DataType::Int16
    } else if w <= 32 {
        DataType::Int32
    } else {
        DataType::Int64
    }
}

fn unsigned_of_width_exec(w: u32) -> (r: DataType)
    ensures
        r == unsigned_of_width(w as int),
{
    if w <= 8 {
        DataType::UInt8
    } else if w <= 16 {
        DataType::UInt16
    } else if w <= 32 {
        DataType::UInt32
    } else {
        DataType::UInt64
    }
}

} // verus!
