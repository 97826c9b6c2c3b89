//! The image utilities' data model: a resolution, and its parser from the
//! `WxH` command-line form. The actual resizing and recoding work on image
//! files lives with the caller.

use vstd::prelude::*;
use vstd::string::{StrSliceExecFns, StringSliceAdditionalSpecFns};
use vstd::utf8::{decode_utf8, valid_utf8};
use crate::text::{
    bytes_to_string, is_dec_digits, parse_dec, spec_dec_value, spec_trim, subvec, trim_bytes,
};
use crate::util::{index_of, spec_index_of};

verus! {

/// The byte of `x`, the separator of the `WxH` form.
pub const RES_SEP: u8 = 120;

/// The smallest accepted width.
pub const RESOLUTION_MIN_WIDTH: u32 = 150;

/// The smallest accepted height.
pub const RESOLUTION_MIN_HEIGHT: u32 = 150;

/// The two halves of a `WxH` string, trimmed: present exactly when the
/// string contains exactly one `x`.
pub open spec fn spec_res_parts(u: Seq<u8>) -> Option<(Seq<u8>, Seq<u8>)> {
    match spec_index_of(u, RES_SEP, 0) {
        None => None,
        Some(xi) => {
            let rest = u.subrange(xi + 1, u.len() as int);
            if spec_index_of(rest, RES_SEP, 0) is Some {
                None
            } else {
                Some((spec_trim(u.subrange(0, xi)), spec_trim(rest)))
            }
        },
    }
}

/// The numeric value of one half: present when it is a non-empty decimal
/// digit string whose value fits a `u32`.
pub open spec fn spec_res_value(t: Seq<u8>) -> Option<int> {
    if valid_utf8(t) && decode_utf8(t).len() > 0 && is_dec_digits(decode_utf8(t)) && spec_dec_value(
        decode_utf8(t),
    ) <= u32::MAX {
        Some(spec_dec_value(decode_utf8(t)) as int)
    } else {
        None
    }
}

/// Whether a `WxH` string parses into an accepted resolution: exactly one
/// `x`, two parseable values, both at least the minimum.
pub open spec fn spec_resolution_ok(u: Seq<u8>) -> bool {
    &&& spec_res_parts(u) matches Some(p)
    &&& spec_res_value(p.0) matches Some(w) && w >= RESOLUTION_MIN_WIDTH
    &&& spec_res_value(p.1) matches Some(h) && h >= RESOLUTION_MIN_HEIGHT
}

/// The corrective transform for an EXIF orientation code: an optional
/// horizontal flip, a number of clockwise quarter turns, and whether the
/// transform switches the image's sides (so width and height swap).
#[derive(Clone, Copy, Debug, PartialEq, Eq, Structural)]
pub struct ImageTransform {
    /// Mirror the image horizontally first.
    pub flip_horizontal: bool,
    /// Then rotate clockwise by this many quarter turns (0 to 3).
    pub quarter_turns: u8,
    /// Whether width and height swap under this transform.
    pub switches_sides: bool,
}

/// The transform that upright-orients an image carrying the given EXIF
/// orientation code; codes outside 2 to 8 leave the image as it is.
pub open spec fn spec_orientation_transform(code: u32) -> ImageTransform {
    match code {
        2u32 => (ImageTransform { flip_horizontal: true, quarter_turns: 0, switches_sides: false }),
        3u32 => (ImageTransform { flip_horizontal: false, quarter_turns: 2, switches_sides: false }),
        4u32 => (ImageTransform { flip_horizontal: true, quarter_turns: 2, switches_sides: false }),
        5u32 => (ImageTransform { flip_horizontal: true, quarter_turns: 3, switches_sides: true }),
        6u32 => (ImageTransform { flip_horizontal: false, quarter_turns: 1, switches_sides: true }),
        7u32 => (ImageTransform { flip_horizontal: true, quarter_turns: 1, switches_sides: true }),
        8u32 => (ImageTransform { flip_horizontal: false, quarter_turns: 3, switches_sides: true }),
        _ => (ImageTransform { flip_horizontal: false, quarter_turns: 0, switches_sides: false }),
    }
}

/// Decides how an image with the given EXIF orientation code must be
/// flipped and rotated to show upright, and whether its sides switch.
pub fn orientation_transform(code: u32) -> (r: ImageTransform)
    ensures
        r == spec_orientation_transform(code),
{
    match code {
        2u32 => ImageTransform { flip_horizontal: true, quarter_turns: 0, switches_sides: false },
        3u32 => ImageTransform { flip_horizontal: false, quarter_turns: 2, switches_sides: false },
        4u32 => ImageTransform { flip_horizontal: true, quarter_turns: 2, switches_sides: false },
        5u32 => ImageTransform { flip_horizontal: true, quarter_turns: 3, switches_sides: true },
        6u32 => ImageTransform { flip_horizontal: false, quarter_turns: 1, switches_sides: true },
        7u32 => ImageTransform { flip_horizontal: true, quarter_turns: 1, switches_sides: true },
        8u32 => ImageTransform { flip_horizontal: false, quarter_turns: 3, switches_sides: true },
        _ => ImageTransform { flip_horizontal: false, quarter_turns: 0, switches_sides: false },
    }
}

/// Width and height grouped together.
#[derive(Clone, Copy, Debug, PartialEq, Eq, Structural)]
pub struct Resolution {
    /// Width.
    pub width: u32,
    /// Height.
    pub height: u32,
}

impl Resolution {
    /// Parses the `WxH` form: the string is split at its only `x`, both
    /// halves are trimmed and read as decimal numbers, and both must reach
    /// the minimum of 150. The error text distinguishes a malformed shape,
    /// an unreadable number, and a too-small resolution.
    pub fn from_str(s: &str) -> (r: Result<Resolution, String>)
        ensures
            (r is Ok) == spec_resolution_ok(s.spec_bytes()),
            r matches Ok(res) ==> {
                &&& spec_res_parts(s.spec_bytes()) matches Some(p)
                &&& spec_res_value(p.0) == Some(res.width as int)
                &&& spec_res_value(p.1) == Some(res.height as int)
            },
            r matches Err(m) ==> m@ == {
                if spec_res_parts(s.spec_bytes()) is None {
                    "Invalid Resolution, must be in format WxH"@
                } else {
                    let p = spec_res_parts(s.spec_bytes()).unwrap();
                    if spec_res_value(p.0) is None || spec_res_value(p.1) is None {
                        "Invalid Resolution"@
                    } else {
                        "Resolution to low"@
                    }
                }
            },
    {
        let bytes = s.as_bytes_vec();
        let bn = bytes.len();
        let xi = match index_of(&bytes, RES_SEP) {
            None => {
                return Err(String::from_str("Invalid Resolution, must be in format WxH"));
            },
            Some(xi) => xi,
        };
        proof {
            crate::util::lemma_index_of_in_range(bytes@, RES_SEP, 0);
        }
        let rest = subvec(bytes.as_slice(), xi + 1, bn);
        if let Some(_) = index_of(&rest, RES_SEP) {
            return Err(String::from_str("Invalid Resolution, must be in format WxH"));
        }
        let left = subvec(bytes.as_slice(), 0, xi);
        let p0 = trim_bytes(left.as_slice());
        let p1 = trim_bytes(rest.as_slice());
        let width = match Self::parse_part(&p0) {
            Some(v) => v,
            None => {
                return Err(String::from_str("Invalid Resolution"));
            },
        };
        let height = match Self::parse_part(&p1) {
            Some(v) => v,
            None => {
                return Err(String::from_str("Invalid Resolution"));
            },
        };
        if width < RESOLUTION_MIN_WIDTH || height < RESOLUTION_MIN_HEIGHT {
            return Err(String::from_str("Resolution to low"));
        }
        Ok(Resolution { width, height })
    }

    /// Reads one trimmed half of the `WxH` form as a number.
    fn parse_part(t: &Vec<u8>) -> (r: Option<u32>)
        ensures
            match r {
                Some(v) => spec_res_value(t@) == Some(v as int),
                None => spec_res_value(t@) is None,
            },
    {
        let s = match bytes_to_string(t) {
            Some(s) => s,
            None => {
                return None;
            },
        };
        proof {
            vstd::utf8::encode_utf8_decode_utf8(s@);
        }
        match parse_dec(s.as_str()) {
            Some(v) => if v <= u32::MAX as u64 {
                Some(v as u32)
            } else {
                None
            },
            None => None,
        }
    }
}

} // verus!
