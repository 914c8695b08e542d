//! Validators invoked at the codec's boundaries: message type indicator
//! shape, and fixed/variable field value lengths.

use vstd::prelude::*;
use crate::errors::IsoError;
use crate::iso8583::MtiType;
use crate::model::{SpecErr, is_digit, mti_valid};

verus! {

/// Accepts exactly a four-character, all-decimal-digit indicator.
pub fn mti_validator(mti: &MtiType) -> (r: Result<bool, IsoError>)
    ensures
        match r {
            Ok(b) => b && mti_valid(mti@),
            Err(e) => !mti_valid(mti@) && e@ == (if mti@.len() != 4 {
                SpecErr::InvalidMtiLength
            } else {
                SpecErr::InvalidMtiContent
            }),
        },
{
    let len = mti.mti.as_str().unicode_len();
    if len != 4 {
        return Err(IsoError::InvalidMtiLength);
    }
    let mut i: usize = 0;
    while i < 4
        invariant
            i <= 4,
            mti@.len() == 4,
            forall|t: int| 0 <= t < i ==> is_digit(mti@[t]),
        decreases 4 - i,
    {
        let c = mti.mti.as_str().get_char(i);
        let u = c as u32;
        if !(48 <= u && u <= 57) {
            return Err(IsoError::InvalidMtiContent);
        }
        i = i + 1;
    }
    Ok(true)
}

/// Accepts a value of exactly the expected length for a fixed field.
pub fn fixed_length_integer_validator(field: u64, length: usize, data: &str) -> (r: Result<
    bool,
    IsoError,
>)
    ensures
        match r {
            Ok(b) => b && data@.len() == length,
            Err(e) => data@.len() != length && e@ == SpecErr::LengthMismatch(field),
        },
{
    if data.unicode_len() == length {
        Ok(true)
    } else {
        Err(IsoError::LengthMismatch(field))
    }
}

/// Accepts a value whose length lies within a variable field's declared
/// bounds.
pub fn variable_length_integer_validator(field: u64, min: usize, max: usize, data: &str) -> (r:
    Result<bool, IsoError>)
    ensures
        match r {
            Ok(b) => b && min <= data@.len() <= max,
            Err(e) => !(min <= data@.len() <= max) && e@ == SpecErr::LengthOutOfRange(field),
        },
{
    let len = data.unicode_len();
    if min <= len && len <= max {
        Ok(true)
    } else {
        Err(IsoError::LengthOutOfRange(field))
    }
}

} // verus!
