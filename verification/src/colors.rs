//! Colour numbers of the graphics screen.
use vstd::prelude::*;
use crate::error::{BasicError, ErrorCode};

verus! {

/// The colour number of the components `r`, `g`, `b`, each 0 to 255;
/// an invalid-argument error otherwise.
pub fn rgb_number(r: i32, g: i32, b: i32) -> (res: Result<i32, BasicError>)
    ensures
        (0 <= r <= 255 && 0 <= g <= 255 && 0 <= b <= 255) ==> (res matches Ok(v) && v == r * 65536 + g * 256 + b),
        !(0 <= r <= 255 && 0 <= g <= 255 && 0 <= b <= 255) ==> (res matches Err(e) && e.code == ErrorCode::InvalidArgument
            && e.line is None && e.detail is None),
{
    if !(0 <= r && r <= 255) || !(0 <= g && g <= 255) || !(0 <= b && b <= 255) {
        return Err(BasicError::new(ErrorCode::InvalidArgument));
    }
    let v = (r << 16) | (g << 8) | b;
    assert(v == r * 65536 + g * 256 + b) by (bit_vector)
        requires
            0 <= r <= 255,
            0 <= g <= 255,
            0 <= b <= 255,
            v == (r << 16) | (g << 8) | b,
    ;
    Ok(v)
}

/// The palette of colour numbers 0 to 31.
pub open spec fn palette(i: int) -> u32 {
    seq![
        0x000000u32, 0xffffffu32, 0xff0000u32, 0x008000u32, 0x0000ffu32, 0xffff00u32, 0xff00ffu32,
        0x00ffffu32, 0xff8c00u32, 0x800080u32, 0xa52a2au32, 0x808080u32, 0x90ee90u32, 0xadd8e6u32,
        0xd3d3d3u32, 0x9370dbu32, 0xe0ffffu32, 0xff69b4u32, 0xffd700u32, 0x4b0082u32, 0xee82eeu32,
        0x4682b4u32, 0xfa8072u32, 0xf0e68cu32, 0xffc0cbu32, 0x808000u32, 0x00ff00u32, 0x000080u32,
        0x008080u32, 0xd2b48cu32, 0x800000u32, 0xfffff0u32,
    ][i]
}

/// The RGB value of a colour number: a palette entry for 0 to 31, else
/// the low 24 bits of the number.
pub fn resolve_color_number(color: i32) -> (r: u32)
    ensures
        0 <= color < 32 ==> r == palette(color as int),
        !(0 <= color < 32) ==> r == (color as u32) & 0x00ff_ffffu32,
{
    let colors: [u32; 32] = [
        0x000000, 0xffffff, 0xff0000, 0x008000, 0x0000ff, 0xffff00, 0xff00ff, 0x00ffff, 0xff8c00,
        0x800080, 0xa52a2a, 0x808080, 0x90ee90, 0xadd8e6, 0xd3d3d3, 0x9370db, 0xe0ffff, 0xff69b4,
        0xffd700, 0x4b0082, 0xee82ee, 0x4682b4, 0xfa8072, 0xf0e68c, 0xffc0cb, 0x808000, 0x00ff00,
        0x000080, 0x008080, 0xd2b48c, 0x800000, 0xfffff0,
    ];
    if color >= 0 && color < 32 {
        let r = colors[color as usize];
        assert(colors@ =~= seq![
            0x000000u32, 0xffffffu32, 0xff0000u32, 0x008000u32, 0x0000ffu32, 0xffff00u32, 0xff00ffu32,
            0x00ffffu32, 0xff8c00u32, 0x800080u32, 0xa52a2au32, 0x808080u32, 0x90ee90u32, 0xadd8e6u32,
            0xd3d3d3u32, 0x9370dbu32, 0xe0ffffu32, 0xff69b4u32, 0xffd700u32, 0x4b0082u32, 0xee82eeu32,
            0x4682b4u32, 0xfa8072u32, 0xf0e68cu32, 0xffc0cbu32, 0x808000u32, 0x00ff00u32, 0x000080u32,
            0x008080u32, 0xd2b48cu32, 0x800000u32, 0xfffff0u32,
        ]);
        r
    } else {
        (color as u32) & 0x00ff_ffff
    }
}

} // verus!
