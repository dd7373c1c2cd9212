use vstd::prelude::*;
use crate::push_char;

verus! {

/// A pixel that is lit or dark.
#[derive(PartialEq, Eq, Structural, Debug, Clone, Copy)]
pub enum OnOffPixel {
    On,
    Off,
}

/// The character that draws a pixel: `#` when lit, `.` when dark.
pub open spec fn pixel_char(p: OnOffPixel) -> char {
    if p == OnOffPixel::Off {
        '.'
    } else {
        '#'
    }
}

impl OnOffPixel {
    /// A dark pixel for `.`, a lit one for any other character.
    pub fn parse(ch: char) -> (r: OnOffPixel)
        ensures
            r == (if ch == '.' {
                OnOffPixel::Off
            } else {
                OnOffPixel::On
            }),
    {
        if ch == '.' {
            OnOffPixel::Off
        } else {
            OnOffPixel::On
        }
    }

    pub fn opposite(&self) -> (r: OnOffPixel)
        ensures
            r != *self,
    {
        if *self == OnOffPixel::On {
            OnOffPixel::Off
        } else {
            OnOffPixel::On
        }
    }

    pub fn is_on(&self) -> (r: bool)
        ensures
            r == (*self == OnOffPixel::On),
    {
        *self == OnOffPixel::On
    }

    /// The one-character text of the pixel.
    pub fn render(&self) -> (r: String)
        ensures
            r@ == seq![pixel_char(*self)],
    {
        let mut s = String::new();
        push_char(&mut s, if *self == OnOffPixel::Off { '.' } else { '#' });
        assert(s@ =~= seq![pixel_char(*self)]);
        s
    }
}

} // verus!
