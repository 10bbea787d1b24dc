//! Values handed to the native window API: UTF-16 strings and the RGB
//! values of the logical paint colors.
use crate::text::chars_of;
use crate::tsf::window::PaintColor;
use vstd::prelude::*;

verus! {

/// The UTF-16 code units of `c`.
pub open spec fn utf16_units(c: char) -> Seq<u16> {
    let u = c as u32;
    if u < 0x10000 {
        seq![u as u16]
    } else {
        seq![
            (0xD800 + (u - 0x10000) / 1024) as u16,
            (0xDC00 + (u - 0x10000) % 1024) as u16,
        ]
    }
}

/// The UTF-16 encoding of `s`.
pub open spec fn utf16(s: Seq<char>) -> Seq<u16>
    decreases s.len(),
{
    if s.len() == 0 {
        Seq::empty()
    } else {
        utf16(s.drop_last()) + utf16_units(s.last())
    }
}

/// `value` as a NUL-terminated UTF-16 string.
pub fn wide(value: &str) -> (r: Vec<u16>)
    ensures
        r@ == utf16(value@).push(0),
{
    let v = chars_of(value);
    let mut r: Vec<u16> = Vec::new();
    let mut i: usize = 0;
    while i < v.len()
        invariant
            i <= v@.len(),
            r@ == utf16(v@.subrange(0, i as int)),
        decreases v@.len() - i,
    {
        let u = v[i] as u32;
        let ghost before = r@;
        if u < 0x10000 {
            r.push(u as u16);
        } else {
            let w = u - 0x10000;
            r.push((0xD800 + w / 1024) as u16);
            r.push((0xDC00 + w % 1024) as u16);
        }
        assert(v@.subrange(0, i + 1).drop_last() =~= v@.subrange(0, i as int));
        assert(r@ =~= before + utf16_units(v@[i as int]));
        i += 1;
    }
    assert(v@.subrange(0, i as int) =~= v@);
    r.push(0);
    r
}

/// The `0x00BBGGRR` value of a logical color.
pub open spec fn color_value(color: PaintColor) -> u32 {
    match color {
        PaintColor::Background => 0x00FF_FFFF,
        PaintColor::Border => 0x00DD_D6CC,
        PaintColor::Brand => 0x0098_7B19,
        PaintColor::Text => 0x002E_261B,
        PaintColor::MutedText => 0x0090_836C,
        PaintColor::HighlightBackground => 0x00F3_E6D4,
    }
}

/// The `0x00BBGGRR` value the native renderer paints a logical color with.
pub fn color_ref(color: PaintColor) -> (r: u32)
    ensures
        r == color_value(color),
{
    match color {
        PaintColor::Background => 0x00FF_FFFF,
        PaintColor::Border => 0x00DD_D6CC,
        PaintColor::Brand => 0x0098_7B19,
        PaintColor::Text => 0x002E_261B,
        PaintColor::MutedText => 0x0090_836C,
        PaintColor::HighlightBackground => 0x00F3_E6D4,
    }
}

} // verus!
