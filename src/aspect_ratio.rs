use vstd::prelude::*;

verus! {

/// How a screen's shape compares with 16:9.
#[derive(Clone, Copy, Debug, PartialEq, Eq, Structural)]
pub enum AspectRatio {
    R16by9,
    WiderThan16by9,
    NarrowerThan16by9,
}

/// The class of `width / height`: 16:9 for a ratio in `[1.77, 1.78]`, wider
/// above it, narrower otherwise. A zero height gives an infinite ratio for a
/// positive width and an undefined one, counted as narrower, for the rest.
pub open spec fn ratio_class(width: int, height: int) -> AspectRatio {
    if height == 0 {
        if width > 0 {
            AspectRatio::WiderThan16by9
        } else {
            AspectRatio::NarrowerThan16by9
        }
    } else {
        let num = if height > 0 { width } else { -width };
        let den = if height > 0 { height } else { -height };
        if 177 * den <= 100 * num && 100 * num <= 178 * den {
            AspectRatio::R16by9
        } else if 100 * num > 178 * den {
            AspectRatio::WiderThan16by9
        } else {
            AspectRatio::NarrowerThan16by9
        }
    }
}

impl AspectRatio {
    /// The aspect ratio class of a `width` by `height` screen.
    pub fn from(width: i32, height: i32) -> (r: AspectRatio)
        ensures
            r == ratio_class(width as int, height as int),
    {
        if height == 0 {
            if width > 0 {
                return AspectRatio::WiderThan16by9;
            }
            return AspectRatio::NarrowerThan16by9;
        }
        let (num, den): (i64, i64) = if height > 0 {
            (width as i64, height as i64)
        } else {
            (-(width as i64), -(height as i64))
        };
        if 177 * den <= 100 * num && 100 * num <= 178 * den {
            AspectRatio::R16by9
        } else if 100 * num > 178 * den {
            AspectRatio::WiderThan16by9
        } else {
            AspectRatio::NarrowerThan16by9
        }
    }
}

} // verus!
