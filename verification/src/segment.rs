//! Styled text: a run of text with a style role. Layout decisions are
//! made over segments; the terminal layer maps each role to a color.

use vstd::prelude::*;
use crate::text::owned;

verus! {

/// The style role of a segment; the terminal layer maps roles to colors.
#[derive(Debug, Clone, Copy, PartialEq, Eq, Structural)]
pub enum Tone {
    Plain,
    Text,
    Success,
    Border,
    Orange,
    OrangeMuted,
    Muted,
    Dim,
    Error,
    Running,
    Warning,
    Link,
}

/// A run of text drawn in one style.
#[derive(Debug, Clone)]
pub struct Segment {
    pub text: String,
    pub tone: Tone,
    pub bold: bool,
}

impl View for Segment {
    type V = (Seq<char>, Tone, bool);

    open spec fn view(&self) -> (Seq<char>, Tone, bool) {
        (self.text@, self.tone, self.bold)
    }
}

/// A segment's plain value.
pub open spec fn seg(t: Seq<char>, tone: Tone) -> (Seq<char>, Tone, bool) {
    (t, tone, false)
}

pub fn lit(t: &str, tone: Tone) -> (r: Segment)
    ensures
        r@ == seg(t@, tone),
{
    Segment { text: owned(t), tone, bold: false }
}

pub fn push_seg(v: &mut Vec<Segment>, s: Segment)
    ensures
        final(v)@.map_values(|x: Segment| x@) == old(v)@.map_values(|x: Segment| x@).push(s@),
{
    let ghost before = v@;
    v.push(s);
    assert(v@.map_values(|x: Segment| x@) =~= before.map_values(|x: Segment| x@).push(s@));
}

pub fn append_segs(v: &mut Vec<Segment>, w: Vec<Segment>)
    ensures
        final(v)@.map_values(|x: Segment| x@) == old(v)@.map_values(|x: Segment| x@) + w@.map_values(|x: Segment| x@),
{
    let ghost a = v@;
    let ghost b = w@;
    let mut w = w;
    v.append(&mut w);
    assert(v@.map_values(|x: Segment| x@) =~= a.map_values(|x: Segment| x@) + b.map_values(|x: Segment| x@));
}

} // verus!
