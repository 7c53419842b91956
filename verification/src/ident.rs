use vstd::prelude::*;
use vstd::string::{StrSliceExecFns, StringSliceAdditionalSpecFns};

verus! {

/// A 128-bit universally-unique identifier, held as its integer value.
///
/// Identifiers are produced by the provider's export (as hyphenated
/// hexadecimal text) or generated fresh; the library only ever stores and
/// compares them.
#[derive(Debug, Clone, Copy, PartialEq, Eq, Hash, Structural)]
pub struct Uuid(pub u128);

pub open spec fn is_hex_digit(b: u8) -> bool {
    (48 <= b <= 57) || (97 <= b <= 102) || (65 <= b <= 70)
}

/// The numeric value of one hexadecimal digit byte.
pub open spec fn hex_val(b: u8) -> int {
    if 48 <= b <= 57 {
        b - 48
    } else if 97 <= b <= 102 {
        b - 87
    } else {
        b - 55
    }
}

/// Where the `j`-th hexadecimal digit of a hyphenated identifier stands in
/// the text: the four hyphens sit after digits 8, 12, 16 and 20.
pub open spec fn uuid_digit_pos(j: int) -> int {
    j + (if j >= 8 {
        1int
    } else {
        0int
    }) + (if j >= 12 {
        1int
    } else {
        0int
    }) + (if j >= 16 {
        1int
    } else {
        0int
    }) + (if j >= 20 {
        1int
    } else {
        0int
    })
}

/// The text is a hyphenated identifier: 36 bytes, hyphens at positions
/// 8, 13, 18 and 23, hexadecimal digits everywhere else.
pub open spec fn uuid_bytes_wf(s: Seq<u8>) -> bool {
    &&& s.len() == 36
    &&& s[8] == 45 && s[13] == 45 && s[18] == 45 && s[23] == 45
    &&& forall|j: int| 0 <= j < 32 ==> is_hex_digit(s[#[trigger] uuid_digit_pos(j)])
}

/// The value of the first `j` hexadecimal digits, most significant first.
pub open spec fn uuid_val_prefix(s: Seq<u8>, j: int) -> int
    decreases j,
{
    if j <= 0 {
        0
    } else {
        uuid_val_prefix(s, j - 1) * 16 + hex_val(s[uuid_digit_pos(j - 1)])
    }
}

pub open spec fn spec_uuid_val(s: Seq<u8>) -> int {
    uuid_val_prefix(s, 32)
}

pub open spec fn pow16(j: int) -> int
    decreases j,
{
    if j <= 0 {
        1
    } else {
        16 * pow16(j - 1)
    }
}

proof fn lemma_pow16_le(a: int, b: int)
    requires
        0 <= a <= b,
    ensures
        pow16(a) <= pow16(b),
        pow16(a) >= 1,
    decreases b,
{
    if b > 0 {
        if a == b {
            lemma_pow16_le(0, a - 1);
        } else {
            lemma_pow16_le(a, b - 1);
        }
    }
}

impl Uuid {
    /// Reads a hyphenated hexadecimal identifier (8-4-4-4-12 digits, either
    /// letter case) into its 128-bit value; any other shape is rejected.
    pub fn parse_str(s: &str) -> (r: Option<Uuid>)
        ensures
            match r {
                Some(u) => uuid_bytes_wf(s.spec_bytes()) && u.0 == spec_uuid_val(s.spec_bytes()),
                None => !uuid_bytes_wf(s.spec_bytes()),
            },
    {
        let bytes: Vec<u8> = s.as_bytes_vec();
        if bytes.len() != 36 {
            return None;
        }
        if !(bytes[8] == 45 && bytes[13] == 45 && bytes[18] == 45 && bytes[23] == 45) {
            return None;
        }
        let mut acc: u128 = 0;
        let mut j: usize = 0;
        while j < 32
            invariant
                bytes@ == s.spec_bytes(),
                bytes@.len() == 36,
                0 <= j <= 32,
                forall|k: int| 0 <= k < j ==> is_hex_digit(bytes@[#[trigger] uuid_digit_pos(k)]),
                acc == uuid_val_prefix(bytes@, j as int),
                acc < pow16(j as int),
            decreases 32 - j,
        {
            let pos: usize = j + (if j >= 8 {
                1
            } else {
                0
            }) + (if j >= 12 {
                1
            } else {
                0
            }) + (if j >= 16 {
                1
            } else {
                0
            }) + (if j >= 20 {
                1
            } else {
                0
            });
            assert(pos == uuid_digit_pos(j as int));
            let b = bytes[pos];
            let d: u8 = if b >= 48 && b <= 57 {
                b - 48
            } else if b >= 97 && b <= 102 {
                b - 87
            } else if b >= 65 && b <= 70 {
                b - 55
            } else {
                return None;
            };
            proof {
                lemma_pow16_le(j as int, 31);
                assert(pow16(31) * 16 == pow16(32));
                assert(pow16(32) == 0x100000000000000000000000000000000) by {
                    reveal_with_fuel(pow16, 33);
                }
                assert(acc * 16 + d < pow16(j as int + 1)) by (nonlinear_arith)
                    requires
                        acc < pow16(j as int),
                        d < 16,
                        pow16(j as int + 1) == pow16(j as int) * 16,
                ;
                assert(acc * 16 <= (pow16(31) - 1) * 16) by (nonlinear_arith)
                    requires
                        acc <= pow16(31) - 1,
                ;
            }
            acc = acc * 16 + (d as u128);
            j = j + 1;
        }
        Some(Uuid(acc))
    }
}

} // verus!
