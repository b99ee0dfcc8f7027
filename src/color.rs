use vstd::prelude::*;
use vstd::string::StrSliceExecFns;

verus! {

/// A color as red, green, blue and alpha channels.
#[derive(Clone, Copy, Debug, PartialEq, Eq, Structural)]
pub struct Rgba {
    pub r: u8,
    pub g: u8,
    pub b: u8,
    pub a: u8,
}

/// Why a hex color was refused.
#[derive(Clone, Copy, Debug, PartialEq, Eq, Structural)]
pub enum ColorError {
    /// Neither six nor eight digits after the leading `#`s.
    InvalidLength,
    /// A character that is no hex digit.
    InvalidDigit,
}

pub open spec fn hex_value(c: char) -> Option<int> {
    let u = c as u32;
    if 48 <= u <= 57 {
        Some(u - 48)
    } else if 97 <= u <= 102 {
        Some(u - 87)
    } else if 65 <= u <= 70 {
        Some(u - 55)
    } else {
        None
    }
}

pub open spec fn is_hex(c: char) -> bool {
    hex_value(c) is Some
}

/// The byte that two hex digits at `i` of `s` spell.
pub open spec fn byte_at(s: Seq<char>, i: int) -> int {
    hex_value(s[i])->Some_0 * 16 + hex_value(s[i + 1])->Some_0
}

/// `s` after its leading `#`s.
pub open spec fn skip_hashes(s: Seq<char>) -> Seq<char>
    decreases s.len(),
{
    if s.len() > 0 && s[0] == '#' {
        skip_hashes(s.subrange(1, s.len() as int))
    } else {
        s
    }
}

/// The color that a hex string spells: `rrggbb` or `rrggbbaa` after any
/// leading `#`s, alpha full when absent.
pub open spec fn hex_color_spec(s: Seq<char>) -> Result<Rgba, ColorError> {
    let h = skip_hashes(s);
    if h.len() != 6 && h.len() != 8 {
        Err(ColorError::InvalidLength)
    } else if exists|i: int| 0 <= i < h.len() && !is_hex(#[trigger] h[i]) {
        Err(ColorError::InvalidDigit)
    } else {
        Ok(
            Rgba {
                r: byte_at(h, 0) as u8,
                g: byte_at(h, 2) as u8,
                b: byte_at(h, 4) as u8,
                a: if h.len() == 8 {
                    byte_at(h, 6) as u8
                } else {
                    255
                },
            },
        )
    }
}

fn hex_digit(c: char) -> (r: Option<u8>)
    ensures
        match r {
            Some(v) => hex_value(c) == Some(v as int),
            None => hex_value(c) is None,
        },
{
    let u = c as u32;
    if 48 <= u && u <= 57 {
        Some((u - 48) as u8)
    } else if 97 <= u && u <= 102 {
        Some((u - 87) as u8)
    } else if 65 <= u && u <= 70 {
        Some((u - 55) as u8)
    } else {
        None
    }
}

/// Parses a color written in hex, as `hex_color_spec` says.
pub fn hex_to_color(hex: &str) -> (r: Result<Rgba, ColorError>)
    ensures
        r == hex_color_spec(hex@),
{
    let n = hex.unicode_len();
    let mut k: usize = 0;
    assert(hex@.subrange(0, n as int) =~= hex@);
    while k < n && hex.get_char(k) == '#'
        invariant
            k <= n == hex@.len(),
            skip_hashes(hex@.subrange(k as int, n as int)) == skip_hashes(hex@),
        decreases n - k,
    {
        proof {
            let s = hex@.subrange(k as int, n as int);
            assert(s[0] == '#');
            assert(s.subrange(1, s.len() as int) =~= hex@.subrange(k as int + 1, n as int));
        }
        k += 1;
    }
    let ghost h = hex@.subrange(k as int, n as int);
    proof {
        assert(skip_hashes(h) == h);
    }
    let len = n - k;
    if len != 6 && len != 8 {
        return Err(ColorError::InvalidLength);
    }
    let mut vals: Vec<u8> = Vec::new();
    let mut i: usize = 0;
    while i < len
        invariant
            k + len == n == hex@.len(),
            h == hex@.subrange(k as int, n as int),
            skip_hashes(hex@) == h,
            len == 6 || len == 8,
            i <= len,
            vals@.len() == i,
            forall|j: int| 0 <= j < i ==> hex_value(#[trigger] h[j]) == Some(vals@[j] as int),
        decreases len - i,
    {
        match hex_digit(hex.get_char(k + i)) {
            Some(v) => {
                vals.push(v);
            },
            None => {
                assert(h[i as int] == hex@[k + i]);
                assert(!is_hex(h[i as int]));
                assert(h.len() == len);
                return Err(ColorError::InvalidDigit);
            },
        }
        i += 1;
    }
    assert(forall|j: int| 0 <= j < h.len() ==> is_hex(#[trigger] h[j]));
    let r = vals[0] * 16 + vals[1];
    let g = vals[2] * 16 + vals[3];
    let b = vals[4] * 16 + vals[5];
    let a = if len == 8 {
        vals[6] * 16 + vals[7]
    } else {
        255
    };
    Ok(Rgba { r, g, b, a })
}

} // verus!
