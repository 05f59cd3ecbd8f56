//! The braille spinner: one glyph per animation tick.

use vstd::prelude::*;

verus! {

/// The spinner cycle, one glyph per frame.
pub const FRAMES: [&'static str; 8] = ["⠋", "⠙", "⠹", "⠸", "⠼", "⠴", "⠦", "⠇"];

/// The spinner cycle, one glyph per frame.
pub open spec fn frame_glyph(i: int) -> Seq<char> {
    if i == 0 { "⠋"@ } else if i == 1 { "⠙"@ } else if i == 2 { "⠹"@ } else if i == 3 { "⠸"@ }
    else if i == 4 { "⠼"@ } else if i == 5 { "⠴"@ } else if i == 6 { "⠦"@ } else { "⠇"@ }
}

/// The spinner glyph for a monotonically increasing `tick`: frame
/// `tick mod 8`, so the cycle wraps.
pub fn spinner_frame(tick: u64) -> (r: &'static str)
    ensures
        r == FRAMES@[(tick % 8) as int],
        r@ == frame_glyph((tick % 8) as int),
{
    let i = (tick % 8) as usize;
    FRAMES[i]
}

} // verus!
