//! Boot variable names: `Boot` followed by four uppercase hex digits.
//!
//! The four digits store the entry's 16-bit id; any other shape of name is
//! rejected and yields no catalog entry.

use vstd::prelude::*;
use vstd::string::{StrSliceExecFns, StringExecFns};
use crate::error::BootError;

verus! {

/// An uppercase hexadecimal digit.
pub open spec fn is_hex_digit(c: char) -> bool {
    ('0' <= c && c <= '9') || ('A' <= c && c <= 'F')
}

/// Value of an uppercase hexadecimal digit.
pub open spec fn hex_val(c: char) -> int
    recommends
        is_hex_digit(c),
{
    if '0' <= c && c <= '9' {
        c as u32 - '0' as u32
    } else {
        c as u32 - 'A' as u32 + 10
    }
}

/// A name of the fixed form `Boot` + four uppercase hex digits.
pub open spec fn is_boot_var_name(n: Seq<char>) -> bool {
    &&& n.len() == 8
    &&& n.subrange(0, 4) == "Boot"@
    &&& is_hex_digit(n[4])
    &&& is_hex_digit(n[5])
    &&& is_hex_digit(n[6])
    &&& is_hex_digit(n[7])
}

/// The 16-bit id spelled by the four hex digits of a boot variable name.
pub open spec fn name_id(n: Seq<char>) -> int
    recommends
        is_boot_var_name(n),
{
    4096 * hex_val(n[4]) + 256 * hex_val(n[5]) + 16 * hex_val(n[6]) + hex_val(n[7])
}

/// The id of a well-formed name fits in sixteen bits.
pub proof fn lemma_name_id_bound(n: Seq<char>)
    requires
        is_boot_var_name(n),
    ensures
        0 <= name_id(n) < 0x10000,
{
}

fn hex_digit_value(c: char) -> (r: Option<u16>)
    ensures
        r is Some <==> is_hex_digit(c),
        r matches Some(v) ==> v == hex_val(c) && v < 16,
{
    let u = c as u32;
    if 48 <= u && u <= 57 {
        Some((u - 48) as u16)
    } else if 65 <= u && u <= 70 {
        Some((u - 65 + 10) as u16)
    } else {
        None
    }
}

/// Reads a boot variable name: the id its digits spell, and the four-digit
/// suffix kept verbatim for re-encoding.  Every name of another shape is
/// rejected as `InvalidVariableName`.
pub fn parse_boot_var_name(name: &str) -> (r: Result<(u16, String), BootError>)
    ensures
        is_boot_var_name(name@) ==> (r matches Ok(p) && p.0 == name_id(name@) && p.1@
            == name@.subrange(4, 8)),
        !is_boot_var_name(name@) ==> r == Err::<(u16, String), BootError>(
            BootError::InvalidVariableName,
        ),
{
    proof {
        reveal_strlit("Boot");
    }
    if name.unicode_len() != 8 {
        return Err(BootError::InvalidVariableName);
    }
    if name.get_char(0) != 'B' || name.get_char(1) != 'o' || name.get_char(2) != 'o'
        || name.get_char(3) != 't' {
        proof {
            assert(name@.subrange(0, 4) != "Boot"@) by {
                if name@.subrange(0, 4) == "Boot"@ {
                    assert(name@[0] == name@.subrange(0, 4)[0]);
                    assert(name@[1] == name@.subrange(0, 4)[1]);
                    assert(name@[2] == name@.subrange(0, 4)[2]);
                    assert(name@[3] == name@.subrange(0, 4)[3]);
                }
            }
        }
        return Err(BootError::InvalidVariableName);
    }
    let d0 = match hex_digit_value(name.get_char(4)) {
        Some(v) => v,
        None => {
            return Err(BootError::InvalidVariableName);
        },
    };
    let d1 = match hex_digit_value(name.get_char(5)) {
        Some(v) => v,
        None => {
            return Err(BootError::InvalidVariableName);
        },
    };
    let d2 = match hex_digit_value(name.get_char(6)) {
        Some(v) => v,
        None => {
            return Err(BootError::InvalidVariableName);
        },
    };
    let d3 = match hex_digit_value(name.get_char(7)) {
        Some(v) => v,
        None => {
            return Err(BootError::InvalidVariableName);
        },
    };
    let id = 4096 * d0 + 256 * d1 + 16 * d2 + d3;
    let suffix = String::from_str(name.substring_char(4, 8));
    proof {
        assert(name@.subrange(0, 4) =~= "Boot"@);
    }
    Ok((id, suffix))
}

} // verus!
