//! UTF-16: the code units of a text, and the text of a run of code units.

use vstd::prelude::*;
use crate::bytes::{le_u16, u16_at};
use crate::text::is_scalar_value;

verus! {

/// Whether `u` is the first unit of a surrogate pair.
pub open spec fn is_high_surrogate(u: int) -> bool {
    0xD800 <= u <= 0xDBFF
}

/// Whether `u` is the second unit of a surrogate pair.
pub open spec fn is_low_surrogate(u: int) -> bool {
    0xDC00 <= u <= 0xDFFF
}

/// The code point that the surrogate pair `hi`, `lo` stands for.
pub open spec fn pair_scalar(hi: int, lo: int) -> int {
    0x1_0000 + (hi - 0xD800) * 0x400 + (lo - 0xDC00)
}

/// The code units that encode the character `c`: one unit in the basic
/// plane, a surrogate pair above it.
pub open spec fn encode_char(c: char) -> Seq<u16> {
    let code = c as int;
    if code < 0x1_0000 {
        seq![code as u16]
    } else {
        seq![
            (0xD800 + (code - 0x1_0000) / 0x400) as u16,
            (0xDC00 + (code - 0x1_0000) % 0x400) as u16,
        ]
    }
}

/// The UTF-16 encoding of the text `s`.
pub open spec fn encode_utf16(s: Seq<char>) -> Seq<u16>
    decreases s.len(),
{
    if s.len() == 0 {
        Seq::empty()
    } else {
        encode_char(s[0]) + encode_utf16(s.skip(1))
    }
}

/// The bytes of the code units `units`, each unit low byte first.
pub open spec fn le_bytes(units: Seq<u16>) -> Seq<u8> {
    Seq::new(
        2 * units.len(),
        |i: int|
            if i % 2 == 0 {
                (units[i / 2] % 0x100) as u8
            } else {
                (units[i / 2] / 0x100) as u8
            },
    )
}

/// The code units that the bytes `b` hold, each unit low byte first. A last
/// odd byte is left out.
pub open spec fn le_units(b: Seq<u8>) -> Seq<u16> {
    Seq::new(b.len() / 2, |i: int| le_u16(b, 2 * i) as u16)
}

/// The text that the code units of `units` from index `from` on encode, or
/// `None` where a surrogate stands without its partner.
pub open spec fn decode_utf16_from(units: Seq<u16>, from: int) -> Option<Seq<char>>
    decreases units.len() - from,
{
    if from < 0 || from >= units.len() {
        Some(Seq::empty())
    } else {
        let u = units[from] as int;
        if is_high_surrogate(u) {
            if from + 1 < units.len() && is_low_surrogate(units[from + 1] as int) {
                match decode_utf16_from(units, from + 2) {
                    Some(rest) => Some(
                        seq![pair_scalar(u, units[from + 1] as int) as char] + rest,
                    ),
                    None => None,
                }
            } else {
                None
            }
        } else if is_low_surrogate(u) {
            None
        } else {
            match decode_utf16_from(units, from + 1) {
                Some(rest) => Some(seq![u as char] + rest),
                None => None,
            }
        }
    }
}

/// The text that `units` encodes, or `None` where `units` is no valid UTF-16.
pub open spec fn decode_utf16(units: Seq<u16>) -> Option<Seq<char>> {
    decode_utf16_from(units, 0)
}

/// The character of a surrogate pair.
pub fn pair_to_char(hi: u16, lo: u16) -> (c: char)
    requires
        is_high_surrogate(hi as int),
        is_low_surrogate(lo as int),
    ensures
        c == pair_scalar(hi as int, lo as int) as char,
        is_scalar_value(pair_scalar(hi as int, lo as int)),
        pair_scalar(hi as int, lo as int) >= 0x1_0000,
{
    let code: u32 = 0x1_0000 + (hi as u32 - 0xD800) * 0x400 + (lo as u32 - 0xDC00);
    match char::from_u32(code) {
        Some(c) => c,
        None => ' ',
    }
}

/// Decodes the UTF-16 text that `data` holds, each code unit low byte first;
/// a last odd byte is left out. The result is `None` where a surrogate
/// stands without its partner.
pub fn decode_utf16_le(data: &[u8]) -> (r: Option<String>)
    ensures
        match decode_utf16(le_units(data@)) {
            Some(t) => r matches Some(s) && s@ == t,
            None => r is None,
        },
{
    let n: usize = data.len() / 2;
    let ghost units = le_units(data@);
    let mut out = String::new();
    let mut i: usize = 0;
    while i < n
        invariant
            i <= n,
            n == units.len(),
            2 * n <= data@.len() <= usize::MAX,
            units == le_units(data@),
            decode_utf16(units) == match decode_utf16_from(units, i as int) {
                Some(rest) => Some(out@ + rest),
                None => None,
            },
        decreases n - i,
    {
        let u = u16_at(data, 2 * i);
        assert(u == units[i as int]);
        if 0xD800 <= u && u <= 0xDBFF {
            if i + 1 < n {
                let lo = u16_at(data, 2 * i + 2);
                assert(lo == units[i as int + 1]);
                if 0xDC00 <= lo && lo <= 0xDFFF {
                    let c = pair_to_char(u, lo);
                    proof {
                        let rest = decode_utf16_from(units, i as int + 2);
                        if rest is Some {
                            assert(out@ + (seq![c] + rest.unwrap()) == out@.push(c)
                                + rest.unwrap());
                        }
                    }
                    out.push(c);
                    i = i + 2;
                } else {
                    return None;
                }
            } else {
                return None;
            }
        } else {
            match char::from_u32(u as u32) {
                Some(c) => {
                    proof {
                        let rest = decode_utf16_from(units, i as int + 1);
                        if rest is Some {
                            assert(out@ + (seq![c] + rest.unwrap()) == out@.push(c)
                                + rest.unwrap());
                        }
                    }
                    out.push(c);
                    i = i + 1;
                },
                None => {
                    return None;
                },
            }
        }
    }
    assert(out@ + Seq::<char>::empty() == out@);
    Some(out)
}

} // verus!
