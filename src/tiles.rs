//! The set of six face tiles.
use crate::dice::DiceSides;
use crate::raster::{inverted_colors, Canvas};
use crate::resample::{lanczos_resized, resize_lanczos};
use vstd::prelude::*;

verus! {

/// One tile: a face and the picture drawn for it.
#[derive(Debug, Clone)]
pub struct Dice {
    pub side: DiceSides,
    pub image: Canvas,
}

/// Six square tiles of one size, the tile at position `i` showing face
/// `i + 1`.
#[derive(Debug, Clone)]
pub struct TileSet {
    pub dice: Vec<Dice>,
    pub size: u32,
}

/// Why a tile set could not be built.
#[derive(Debug, Clone, Copy, PartialEq, Eq, Structural)]
pub enum TileError {
    /// The number of pictures given, which is not six.
    WrongCount(usize),
    /// The tile size asked for is zero.
    ZeroSize,
    /// The picture at this position has no pixels.
    EmptyPicture(usize),
}

impl TileSet {
    /// Six tiles in face order, all `size` by `size` with a positive size.
    pub open spec fn wf(&self) -> bool {
        &&& self.dice@.len() == 6
        &&& self.size > 0
        &&& forall|i: int|
            0 <= i < 6 ==> {
                let d = #[trigger] self.dice@[i];
                &&& d.side.face() == i + 1
                &&& d.image.wf()
                &&& d.image.width == self.size
                &&& d.image.height == self.size
            }
    }

    /// The tile drawn for a face.
    pub open spec fn tile_for(&self, side: DiceSides) -> Dice {
        self.dice@[side.face() - 1]
    }

    /// The tile drawn for `side`.
    pub fn tile(&self, side: DiceSides) -> (r: &Dice)
        requires
            self.wf(),
        ensures
            *r == self.tile_for(side),
            r.side == side,
    {
        let i = side.index();
        &self.dice[i]
    }

    /// Inverts the colour channels of every tile and keeps alpha, the
    /// faces and the size.
    pub fn invert_colors(&mut self)
        requires
            old(self).wf(),
        ensures
            final(self).wf(),
            final(self).size == old(self).size,
            forall|i: int|
                0 <= i < 6 ==> {
                    let d = #[trigger] final(self).dice@[i];
                    &&& d.side == old(self).dice@[i].side
                    &&& d.image.pixels@ == inverted_colors(old(self).dice@[i].image.pixels@)
                },
    {
        let ghost before = self.dice@;
        let mut rest: Vec<Dice> = Vec::new();
        core::mem::swap(&mut self.dice, &mut rest);
        let mut i: usize = 0;
        while i < 6
            invariant
                before.len() == 6,
                old(self).wf(),
                before == old(self).dice@,
                self.size == old(self).size,
                0 <= i <= 6,
                rest@ == before.subrange(i as int, 6),
                self.dice@.len() == i,
                forall|j: int|
                    0 <= j < i ==> {
                        let d = #[trigger] self.dice@[j];
                        &&& d.side == before[j].side
                        &&& d.side.face() == j + 1
                        &&& d.image.wf()
                        &&& d.image.width == self.size
                        &&& d.image.height == self.size
                        &&& d.image.pixels@ == inverted_colors(before[j].image.pixels@)
                    },
            decreases 6 - i,
        {
            let mut d = rest.remove(0);
            assert(d == before[i as int]);
            d.image.invert_colors();
            self.dice.push(d);
            proof {
                assert(rest@ =~= before.subrange(i + 1, 6));
            }
            i = i + 1;
        }
    }
}

/// The pixels of the tile made from `picture`: resampled to `size` by
/// `size`, then colour-inverted when `invert` is set.
pub open spec fn tile_pixels(picture: Canvas, size: u32, invert: bool) -> Seq<u8> {
    let p = lanczos_resized(picture.pixels@, picture.width, picture.height, size, size);
    if invert {
        inverted_colors(p)
    } else {
        p
    }
}

/// A picture with no pixels: zero width or zero height.
pub open spec fn is_empty_picture(c: Canvas) -> bool {
    c.width == 0 || c.height == 0
}

/// Picture `i` is the first empty one of `p`.
pub open spec fn first_empty_picture(p: Seq<Canvas>, i: int) -> bool {
    &&& 0 <= i < p.len()
    &&& is_empty_picture(p[i])
    &&& forall|j: int| 0 <= j < i ==> !is_empty_picture(#[trigger] p[j])
}

/// Checks that `n` tile pictures were found: exactly six are needed.
pub fn check_tile_count(n: usize) -> (r: Result<(), TileError>)
    ensures
        r is Ok <==> n == 6,
        r matches Err(e) ==> e == TileError::WrongCount(n),
{
    if n != 6 {
        Err(TileError::WrongCount(n))
    } else {
        Ok(())
    }
}

/// Builds the tile set from six pictures given in face order, resampling
/// each to `size` by `size` and inverting their colours when `invert` is
/// set. Fails when the count is not six, else when `size` is zero, else at
/// the first picture that has no pixels; succeeds otherwise.
pub fn build_tile_set(pictures: &Vec<Canvas>, size: u32, invert: bool) -> (r: Result<
    TileSet,
    TileError,
>)
    requires
        forall|i: int| 0 <= i < pictures@.len() ==> (#[trigger] pictures@[i]).wf(),
        forall|i: int|
            0 <= i < pictures@.len() ==> (#[trigger] pictures@[i]).width * size * 4 <= usize::MAX,
        size * size * 4 <= usize::MAX,
    ensures
        r is Ok <==> (pictures@.len() == 6 && size > 0 && forall|i: int|
            0 <= i < pictures@.len() ==> !is_empty_picture(#[trigger] pictures@[i])),
        (r == Err::<TileSet, TileError>(TileError::WrongCount(pictures@.len() as usize)))
            <==> pictures@.len() != 6,
        r matches Err(TileError::WrongCount(n)) ==> n == pictures@.len(),
        (r == Err::<TileSet, TileError>(TileError::ZeroSize)) <==> (pictures@.len() == 6 && size
            == 0),
        r matches Err(TileError::EmptyPicture(i)) ==> pictures@.len() == 6 && size > 0
            && first_empty_picture(pictures@, i as int),
        r matches Ok(t) ==> {
            &&& t.wf()
            &&& t.size == size
            &&& forall|i: int|
                0 <= i < 6 ==> (#[trigger] t.dice@[i]).image.pixels@ == tile_pixels(
                    pictures@[i],
                    size,
                    invert,
                )
        },
{
    if let Err(e) = check_tile_count(pictures.len()) {
        return Err(e);
    }
    if size == 0 {
        return Err(TileError::ZeroSize);
    }
    let mut k: usize = 0;
    while k < 6
        invariant
            pictures@.len() == 6,
            size > 0,
            0 <= k <= 6,
            forall|j: int| 0 <= j < k ==> !is_empty_picture(#[trigger] pictures@[j]),
        decreases 6 - k,
    {
        if pictures[k].width == 0 || pictures[k].height == 0 {
            return Err(TileError::EmptyPicture(k));
        }
        k = k + 1;
    }
    let mut dice: Vec<Dice> = Vec::new();
    let mut i: usize = 0;
    while i < 6
        invariant
            pictures@.len() == 6,
            forall|j: int| 0 <= j < pictures@.len() ==> (#[trigger] pictures@[j]).wf(),
            forall|j: int|
                0 <= j < pictures@.len() ==> (#[trigger] pictures@[j]).width * size * 4
                    <= usize::MAX,
            size * size * 4 <= usize::MAX,
            0 <= i <= 6,
            dice@.len() == i,
            forall|j: int|
                0 <= j < i ==> {
                    let d = #[trigger] dice@[j];
                    &&& d.side.face() == j + 1
                    &&& d.image.wf()
                    &&& d.image.width == size
                    &&& d.image.height == size
                    &&& d.image.pixels@ == tile_pixels(pictures@[j], size, invert)
                },
        decreases 6 - i,
    {
        let picture = &pictures[i];
        let resized = resize_lanczos(&picture.pixels, picture.width, picture.height, size, size);
        let mut image = Canvas { width: size, height: size, pixels: resized };
        if invert {
            image.invert_colors();
        }
        dice.push(Dice { side: DiceSides::from_index(i), image });
        i = i + 1;
    }
    Ok(TileSet { dice, size })
}

} // verus!
