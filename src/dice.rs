//! The six faces and the brightness classifier.
use vstd::prelude::*;

verus! {

/// One face of a die, numbered one to six.
#[derive(Debug, Clone, Copy, PartialEq, Eq, Structural, Hash)]
pub enum DiceSides {
    One,
    Two,
    Three,
    Four,
    Five,
    Six,
}

impl DiceSides {
    /// The number of pips on this face.
    pub open spec fn face(self) -> int {
        match self {
            DiceSides::One => 1,
            DiceSides::Two => 2,
            DiceSides::Three => 3,
            DiceSides::Four => 4,
            DiceSides::Five => 5,
            DiceSides::Six => 6,
        }
    }

    /// Position of this face in a list ordered from one to six.
    pub fn index(&self) -> (r: usize)
        ensures
            r == self.face() - 1,
            r < 6,
    {
        match self {
            DiceSides::One => 0,
            DiceSides::Two => 1,
            DiceSides::Three => 2,
            DiceSides::Four => 3,
            DiceSides::Five => 4,
            DiceSides::Six => 5,
        }
    }

    /// The face at position `i` of a list ordered from one to six.
    pub fn from_index(i: usize) -> (r: DiceSides)
        requires
            i < 6,
        ensures
            r.face() == i + 1,
    {
        if i == 0 {
            DiceSides::One
        } else if i == 1 {
            DiceSides::Two
        } else if i == 2 {
            DiceSides::Three
        } else if i == 3 {
            DiceSides::Four
        } else if i == 4 {
            DiceSides::Five
        } else {
            DiceSides::Six
        }
    }
}

/// Lowest brightness of the band that selects face `k` (one to six).
pub open spec fn band_low(k: int) -> int {
    43 * (k - 1)
}

/// Highest brightness of the band that selects face `k` (one to six).
pub open spec fn band_high(k: int) -> int {
    if k >= 6 {
        255
    } else {
        43 * k - 1
    }
}

/// The face that a mean brightness selects: the one whose closed band
/// holds it.
pub open spec fn side_for(v: int) -> DiceSides {
    if v <= 42 {
        DiceSides::One
    } else if v <= 85 {
        DiceSides::Two
    } else if v <= 128 {
        DiceSides::Three
    } else if v <= 171 {
        DiceSides::Four
    } else if v <= 214 {
        DiceSides::Five
    } else {
        DiceSides::Six
    }
}

/// Maps a mean brightness to the face whose band holds it.
pub fn map_intensity_to_dice_side(avg_intensity: u8) -> (r: DiceSides)
    ensures
        r == side_for(avg_intensity as int),
{
    if avg_intensity <= 42 {
        DiceSides::One
    } else if avg_intensity <= 85 {
        DiceSides::Two
    } else if avg_intensity <= 128 {
        DiceSides::Three
    } else if avg_intensity <= 171 {
        DiceSides::Four
    } else if avg_intensity <= 214 {
        DiceSides::Five
    } else {
        DiceSides::Six
    }
}

/// The six bands cover every byte value without gaps or overlaps: they start
/// at zero, end at 255, each starts right after the one before ends, every
/// byte value lies in exactly one of them, and the classifier returns the
/// face of that band.
pub proof fn lemma_bands_partition_bytes(v: u8)
    ensures
        band_low(1) == 0,
        band_high(6) == 255,
        forall|k: int| 1 <= k < 6 ==> band_low(k + 1) == band_high(k) + 1,
        forall|k: int| 1 <= k <= 6 ==> band_low(k) <= band_high(k),
        ({
            let k = side_for(v as int).face();
            &&& 1 <= k <= 6
            &&& band_low(k) <= v <= band_high(k)
            &&& forall|j: int| 1 <= j <= 6 && #[trigger] band_low(j) <= v <= band_high(j) ==> j == k
        }),
{
}

} // verus!
