use crate::keys::Key;
use crate::pixel::Pixel;
use vstd::prelude::*;

verus! {

/// The bytes of a canvas image: each pixel as red, green, blue, alpha.
pub open spec fn rgba_bytes(pixels: Seq<Pixel>) -> Seq<u8>
    decreases pixels.len(),
{
    if pixels.len() == 0 {
        Seq::empty()
    } else {
        rgba_bytes(pixels.drop_last()) + seq![
            pixels.last().0,
            pixels.last().1,
            pixels.last().2,
            pixels.last().3,
        ]
    }
}

/// The size the engine draws at for a window whose inner size, in whole
/// pixels, is `width` by `height`: at least one pixel each way.
pub open spec fn display_size(width: u32, height: u32) -> (u32, u32) {
    (if width == 0 {
        1
    } else {
        width
    }, if height == 0 {
        1
    } else {
        height
    })
}

/// The size the engine draws at for a browser window whose inner size, in
/// whole pixels, is `width` by `height`. A screen is never empty, so a
/// collapsed window still gets one pixel each way.
pub fn get_display_size(width: u32, height: u32) -> (r: (u32, u32))
    ensures
        r == display_size(width, height),
        r.0 > 0,
        r.1 > 0,
{
    let w = if width == 0 {
        1
    } else {
        width
    };
    let h = if height == 0 {
        1
    } else {
        height
    };
    (w, h)
}

/// The presentation logic of the browser front end.
pub struct WasmInterface;

impl WasmInterface {
    /// The steering key that a browser key name stands for.
    pub fn key_for(name: &str) -> (r: Option<Key>)
        ensures
            r == (if name@ == "ArrowUp"@ {
                Some(Key::ArrowUp)
            } else if name@ == "ArrowDown"@ {
                Some(Key::ArrowDown)
            } else if name@ == "ArrowLeft"@ {
                Some(Key::ArrowLeft)
            } else if name@ == "ArrowRight"@ {
                Some(Key::ArrowRight)
            } else {
                None
            }),
    {
        let name = name.to_owned();
        if name == "ArrowUp".to_owned() {
            Some(Key::ArrowUp)
        } else if name == "ArrowDown".to_owned() {
            Some(Key::ArrowDown)
        } else if name == "ArrowLeft".to_owned() {
            Some(Key::ArrowLeft)
        } else if name == "ArrowRight".to_owned() {
            Some(Key::ArrowRight)
        } else {
            None
        }
    }

    /// The canvas image data for a colour buffer: four bytes per pixel.
    pub fn image_data(pixels: &[Pixel]) -> (r: Vec<u8>)
        requires
            4 * pixels@.len() <= usize::MAX,
        ensures
            r@ == rgba_bytes(pixels@),
            r@.len() == 4 * pixels@.len(),
    {
        let mut data: Vec<u8> = Vec::new();
        let mut i: usize = 0;
        while i < pixels.len()
            invariant
                i <= pixels@.len(),
                data@ == rgba_bytes(pixels@.subrange(0, i as int)),
                data@.len() == 4 * i,
            decreases pixels@.len() - i,
        {
            let p = pixels[i];
            data.push(p.0);
            data.push(p.1);
            data.push(p.2);
            data.push(p.3);
            proof {
                assert(pixels@.subrange(0, i as int + 1).drop_last() =~= pixels@.subrange(0, i as int));
            }
            i = i + 1;
            assert(data@ =~= rgba_bytes(pixels@.subrange(0, i as int)));
        }
        assert(pixels@.subrange(0, pixels@.len() as int) =~= pixels@);
        data
    }
}

} // verus!
