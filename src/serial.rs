//! Serial types: the tags that a record header gives each of its values, and
//! the decoding and encoding of a value under its tag.
use vstd::prelude::*;

use crate::error::{corrupt, LimboError};

verus! {

pub type SerialType = u64;

pub const SERIAL_TYPE_NULL: SerialType = 0;
pub const SERIAL_TYPE_INT8: SerialType = 1;
pub const SERIAL_TYPE_BEINT16: SerialType = 2;
pub const SERIAL_TYPE_BEINT24: SerialType = 3;
pub const SERIAL_TYPE_BEINT32: SerialType = 4;
pub const SERIAL_TYPE_BEINT48: SerialType = 5;
pub const SERIAL_TYPE_BEINT64: SerialType = 6;
pub const SERIAL_TYPE_BEFLOAT64: SerialType = 7;
pub const SERIAL_TYPE_CONSTINT0: SerialType = 8;
pub const SERIAL_TYPE_CONSTINT1: SerialType = 9;

/// A tag names a blob: even and at least 12.
pub open spec fn is_blob_type(t: u64) -> bool {
    t >= 12 && t % 2 == 0
}

/// A tag names a text: odd and at least 13.
pub open spec fn is_text_type(t: u64) -> bool {
    t >= 13 && t % 2 == 1
}

/// The valid tags: 0 to 9, and every tag from 12 on.
pub open spec fn is_valid_type(t: u64) -> bool {
    t <= 9 || is_blob_type(t) || is_text_type(t)
}

/// Number of content bytes that a value of a valid tag occupies.
pub open spec fn serial_type_size(t: u64) -> nat {
    if t <= 4 {
        t as nat
    } else if t == 5 {
        6
    } else if t == 6 || t == 7 {
        8
    } else if t == 8 || t == 9 {
        0
    } else if t % 2 == 0 {
        ((t - 12) / 2) as nat
    } else {
        ((t - 13) / 2) as nat
    }
}

/// Queries on a serial-type tag.
pub trait SerialTypeExt {
    fn is_null(self) -> bool;

    fn is_int8(self) -> bool;

    fn is_beint16(self) -> bool;

    fn is_beint24(self) -> bool;

    fn is_beint32(self) -> bool;

    fn is_beint48(self) -> bool;

    fn is_beint64(self) -> bool;

    fn is_befloat64(self) -> bool;

    fn is_constint0(self) -> bool;

    fn is_constint1(self) -> bool;

    fn is_blob(self) -> bool;

    fn is_string(self) -> bool;

    fn blob_size(self) -> usize;

    fn string_size(self) -> usize;

    fn is_valid(self) -> bool;
}

impl SerialTypeExt for u64 {
    fn is_null(self) -> (r: bool)
        ensures
            r == (self == SERIAL_TYPE_NULL),
    {
        self == SERIAL_TYPE_NULL
    }

    fn is_int8(self) -> (r: bool)
        ensures
            r == (self == SERIAL_TYPE_INT8),
    {
        self == SERIAL_TYPE_INT8
    }

    fn is_beint16(self) -> (r: bool)
        ensures
            r == (self == SERIAL_TYPE_BEINT16),
    {
        self == SERIAL_TYPE_BEINT16
    }

    fn is_beint24(self) -> (r: bool)
        ensures
            r == (self == SERIAL_TYPE_BEINT24),
    {
        self == SERIAL_TYPE_BEINT24
    }

    fn is_beint32(self) -> (r: bool)
        ensures
            r == (self == SERIAL_TYPE_BEINT32),
    {
        self == SERIAL_TYPE_BEINT32
    }

    fn is_beint48(self) -> (r: bool)
        ensures
            r == (self == SERIAL_TYPE_BEINT48),
    {
        self == SERIAL_TYPE_BEINT48
    }

    fn is_beint64(self) -> (r: bool)
        ensures
            r == (self == SERIAL_TYPE_BEINT64),
    {
        self == SERIAL_TYPE_BEINT64
    }

    fn is_befloat64(self) -> (r: bool)
        ensures
            r == (self == SERIAL_TYPE_BEFLOAT64),
    {
        self == SERIAL_TYPE_BEFLOAT64
    }

    fn is_constint0(self) -> (r: bool)
        ensures
            r == (self == SERIAL_TYPE_CONSTINT0),
    {
        self == SERIAL_TYPE_CONSTINT0
    }

    fn is_constint1(self) -> (r: bool)
        ensures
            r == (self == SERIAL_TYPE_CONSTINT1),
    {
        self == SERIAL_TYPE_CONSTINT1
    }

    fn is_blob(self) -> (r: bool)
        ensures
            r == is_blob_type(self),
    {
        self >= 12 && self % 2 == 0
    }

    fn is_string(self) -> (r: bool)
        ensures
            r == is_text_type(self),
    {
        self >= 13 && self % 2 == 1
    }

    fn blob_size(self) -> (r: usize)
        ensures
            self >= 12 ==> r == ((self - 12) / 2) as usize,
            self < 12 ==> r == 0,
    {
        if self >= 12 {
            ((self - 12) / 2) as usize
        } else {
            0
        }
    }

    fn string_size(self) -> (r: usize)
        ensures
            self >= 13 ==> r == ((self - 13) / 2) as usize,
            self < 13 ==> r == 0,
    {
        if self >= 13 {
            ((self - 13) / 2) as usize
        } else {
            0
        }
    }

    fn is_valid(self) -> (r: bool)
        ensures
            r == is_valid_type(self),
    {
        self <= 9 || self.is_blob() || self.is_string()
    }
}

/// Accepts a valid tag and returns it; any other fails with `Corrupt`.
pub fn validate_serial_type(value: u64) -> (r: Result<SerialType, LimboError>)
    ensures
        r is Ok <==> is_valid_type(value),
        r matches Ok(t) ==> t == value,
{
    if value.is_valid() {
        Ok(value)
    } else {
        Err(corrupt("invalid serial type"))
    }
}

} // verus!
