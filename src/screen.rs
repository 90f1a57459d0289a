use crate::depth::Depth;
use crate::pixel::{white, Pixel};
use vstd::prelude::*;

verus! {

/// What a screen holds: its size, and one colour and one depth per pixel,
/// row by row from the top left.
pub struct ScreenView {
    pub width: nat,
    pub height: nat,
    pub colors: Seq<Pixel>,
    pub depths: Seq<Depth>,
}

/// A pixel write handed to the screen: position, depth and colour.
pub type PixelWrite = (u32, u32, Depth, Pixel);

impl ScreenView {
    /// Both buffers hold one entry per pixel, and no stored depth is a NaN.
    pub open spec fn wf(self) -> bool {
        &&& self.colors.len() == self.width * self.height
        &&& self.depths.len() == self.width * self.height
        &&& forall|i: int| 0 <= i < self.depths.len() ==> !(#[trigger] self.depths[i]).spec_is_nan()
    }

    pub open spec fn index_of(self, x: int, y: int) -> int {
        y * self.width + x
    }

    /// The depth-tested write: it lands only inside the screen, with a
    /// finite depth strictly nearer than the one stored there.
    pub open spec fn put(self, x: int, y: int, z: Depth, p: Pixel) -> ScreenView {
        let i = self.index_of(x, y);
        if 0 <= x < self.width && 0 <= y < self.height && z.spec_is_finite() && z.spec_lt(
            self.depths[i],
        ) {
            ScreenView {
                colors: self.colors.update(i, p),
                depths: self.depths.update(i, z),
                ..self
            }
        } else {
            self
        }
    }

    /// The screen after a sequence of writes, in order.
    pub open spec fn put_all(self, writes: Seq<PixelWrite>) -> ScreenView
        decreases writes.len(),
    {
        if writes.len() == 0 {
            self
        } else {
            let w = writes.last();
            self.put_all(writes.drop_last()).put(w.0 as int, w.1 as int, w.2, w.3)
        }
    }

    pub open spec fn with_white_colors(self) -> ScreenView {
        ScreenView { colors: Seq::new(self.colors.len(), |i: int| white()), ..self }
    }

    pub open spec fn with_far_depths(self) -> ScreenView {
        ScreenView { depths: Seq::new(self.depths.len(), |i: int| far_depth()), ..self }
    }
}

/// The depth of an uncovered pixel: positive infinity.
pub open spec fn far_depth() -> Depth {
    Depth { bits: crate::depth::INFINITY_BITS }
}

/// The two buffers of a screen and its size, kept well-formed by `Screen`.
#[derive(Debug)]
struct Planes {
    width: u32,
    height: u32,
    buffer: Vec<Pixel>,
    depth: Vec<Depth>,
}

impl View for Planes {
    type V = ScreenView;

    closed spec fn view(&self) -> ScreenView {
        ScreenView {
            width: self.width as nat,
            height: self.height as nat,
            colors: self.buffer@,
            depths: self.depth@,
        }
    }
}

impl Planes {
    /// A copy of both buffers.
    fn copy(&self) -> (r: Planes)
        ensures
            r@ == self@,
    {
        let mut buffer: Vec<Pixel> = Vec::new();
        let mut depth: Vec<Depth> = Vec::new();
        let mut i: usize = 0;
        while i < self.buffer.len()
            invariant
                i <= self.buffer@.len(),
                buffer@ == self.buffer@.subrange(0, i as int),
            decreases self.buffer@.len() - i,
        {
            buffer.push(self.buffer[i]);
            i = i + 1;
            assert(buffer@ =~= self.buffer@.subrange(0, i as int));
        }
        let mut j: usize = 0;
        while j < self.depth.len()
            invariant
                j <= self.depth@.len(),
                depth@ == self.depth@.subrange(0, j as int),
            decreases self.depth@.len() - j,
        {
            depth.push(self.depth[j]);
            j = j + 1;
            assert(depth@ =~= self.depth@.subrange(0, j as int));
        }
        assert(buffer@ =~= self.buffer@);
        assert(depth@ =~= self.depth@);
        Planes { width: self.width, height: self.height, buffer, depth }
    }

    /// A screen of the given size, white everywhere, every depth at infinity.
    fn new(width: u32, height: u32) -> (r: Planes)
        requires
            width * height <= usize::MAX,
        ensures
            r@.wf(),
            r@.width == width,
            r@.height == height,
            r@.colors == Seq::new((width * height) as nat, |i: int| white()),
            r@.depths == Seq::new((width * height) as nat, |i: int| far_depth()),
    {
        let size = (width as usize) * (height as usize);
        let far = Depth::infinity();
        let mut buffer: Vec<Pixel> = Vec::new();
        let mut depth: Vec<Depth> = Vec::new();
        let mut i: usize = 0;
        while i < size
            invariant
                i <= size,
                size == width * height,
                buffer@ == Seq::new(i as nat, |k: int| white()),
                depth@ == Seq::new(i as nat, |k: int| far_depth()),
                far == far_depth(),
            decreases size - i,
        {
            buffer.push(Pixel::white());
            depth.push(far);
            i = i + 1;
            assert(buffer@ =~= Seq::new(i as nat, |k: int| white()));
            assert(depth@ =~= Seq::new(i as nat, |k: int| far_depth()));
        }
        proof {
            assert(!far_depth().spec_is_nan()) by {
                assert(crate::depth::fraction_field(crate::depth::INFINITY_BITS) == 0);
            }
        }
        Planes { width, height, buffer, depth }
    }

    fn size(&self) -> (r: (u32, u32))
        ensures
            r.0 == self@.width,
            r.1 == self@.height,
    {
        (self.width, self.height)
    }

    /// The colour buffer, row by row from the top left.
    fn buffer(&self) -> (r: &[Pixel])
        ensures
            r@ == self@.colors,
    {
        self.buffer.as_slice()
    }

    /// The depth buffer, in the order of the colour buffer.
    fn depth(&self) -> (r: &[Depth])
        ensures
            r@ == self@.depths,
    {
        self.depth.as_slice()
    }

    /// Paints every pixel white; depths are left as they are.
    fn clear_buffer(&mut self)
        requires
            old(self)@.wf(),
        ensures
            final(self)@ == old(self)@.with_white_colors(),
            final(self)@.wf(),
    {
        let n = self.buffer.len();
        let mut i: usize = 0;
        while i < n
            invariant
                i <= n,
                n == self.buffer@.len(),
                self.width == old(self).width,
                self.height == old(self).height,
                self.depth@ == old(self).depth@,
                self.buffer@.len() == old(self).buffer@.len(),
                forall|k: int| 0 <= k < i ==> self.buffer@[k] == white(),
            decreases n - i,
        {
            self.buffer[i] = Pixel::white();
            i = i + 1;
        }
        proof {
            assert(self@.colors =~= old(self)@.with_white_colors().colors);
        }
    }

    /// Sets every depth back to infinity; colours are left as they are.
    fn clear_depth(&mut self)
        requires
            old(self)@.wf(),
        ensures
            final(self)@ == old(self)@.with_far_depths(),
            final(self)@.wf(),
    {
        let far = Depth::infinity();
        let n = self.depth.len();
        let mut i: usize = 0;
        while i < n
            invariant
                i <= n,
                n == self.depth@.len(),
                far == far_depth(),
                self.width == old(self).width,
                self.height == old(self).height,
                self.buffer@ == old(self).buffer@,
                self.depth@.len() == old(self).depth@.len(),
                forall|k: int| 0 <= k < i ==> self.depth@[k] == far_depth(),
                forall|k: int| 0 <= k < n ==> !(#[trigger] self.depth@[k]).spec_is_nan(),
            decreases n - i,
        {
            self.depth[i] = far;
            i = i + 1;
        }
        proof {
            assert(self@.depths =~= old(self)@.with_far_depths().depths);
        }
    }

    /// Writes `pixel` at `(x, y)` when that lies on the screen, `z` is finite
    /// and `z` is nearer than the depth stored there; does nothing otherwise.
    fn put_pixel(&mut self, pos: (u32, u32), z: Depth, pixel: Pixel)
        requires
            old(self)@.wf(),
        ensures
            final(self)@ == old(self)@.put(pos.0 as int, pos.1 as int, z, pixel),
            final(self)@.wf(),
    {
        let (x, y) = pos;
        let n = self.buffer.len();
        if x < self.width && y < self.height {
            proof {
                lemma_index_in_bounds(x as int, y as int, self.width as int, self.height as int);
                assert(n == self.width * self.height);
            }
            let index = (y as usize) * (self.width as usize) + (x as usize);
            if z.is_finite() && z.lt(self.depth[index]) {
                self.buffer[index] = pixel;
                self.depth[index] = z;
                proof {
                    assert(self@ == old(self)@.put(x as int, y as int, z, pixel));
                }
            }
        }
    }
}

/// The frame buffer: a colour buffer and a depth buffer of one entry per
/// pixel each.
#[derive(Debug)]
pub struct Screen {
    planes: Planes,
}

impl View for Screen {
    type V = ScreenView;

    closed spec fn view(&self) -> ScreenView {
        self.planes@
    }
}

impl Screen {
    #[verifier::type_invariant]
    spec fn inv(&self) -> bool {
        self.planes@.wf()
    }

    /// A screen of the given size, white everywhere, every depth at infinity.
    pub fn new(width: u32, height: u32) -> (r: Screen)
        requires
            width * height <= usize::MAX,
        ensures
            r@.wf(),
            r@.width == width,
            r@.height == height,
            r@.colors == Seq::new((width * height) as nat, |i: int| white()),
            r@.depths == Seq::new((width * height) as nat, |i: int| far_depth()),
    {
        Screen { planes: Planes::new(width, height) }
    }

    /// Takes the buffers out, leaving an empty screen in their place.
    fn take(&mut self) -> (r: Planes)
        ensures
            r@ == old(self)@,
            r@.wf(),
            final(self)@.width == 0,
    {
        proof {
            use_type_invariant(&*self);
        }
        let mut planes = Planes::new(0, 0);
        std::mem::swap(&mut planes, &mut self.planes);
        planes
    }

    /// The size; a call also shows that the screen is well-formed.
    pub fn size(&self) -> (r: (u32, u32))
        ensures
            r.0 == self@.width,
            r.1 == self@.height,
            self@.wf(),
    {
        proof {
            use_type_invariant(self);
        }
        self.planes.size()
    }

    /// The colour buffer, row by row from the top left.
    pub fn buffer(&self) -> (r: &[Pixel])
        ensures
            r@ == self@.colors,
    {
        self.planes.buffer()
    }

    /// The depth buffer, in the order of the colour buffer.
    pub fn depth(&self) -> (r: &[Depth])
        ensures
            r@ == self@.depths,
    {
        self.planes.depth()
    }

    /// Paints every pixel white; depths are left as they are.
    pub fn clear_buffer(&mut self)
        ensures
            old(self)@.wf(),
            final(self)@ == old(self)@.with_white_colors(),
            final(self)@.wf(),
    {
        let mut planes = self.take();
        planes.clear_buffer();
        self.planes = planes;
    }

    /// Sets every depth back to infinity; colours are left as they are.
    pub fn clear_depth(&mut self)
        ensures
            old(self)@.wf(),
            final(self)@ == old(self)@.with_far_depths(),
            final(self)@.wf(),
    {
        let mut planes = self.take();
        planes.clear_depth();
        self.planes = planes;
    }

    /// Writes `pixel` at `(x, y)` when that lies on the screen, `z` is finite
    /// and `z` is nearer than the depth stored there; does nothing otherwise.
    pub fn put_pixel(&mut self, pos: (u32, u32), z: Depth, pixel: Pixel)
        ensures
            old(self)@.wf(),
            final(self)@ == old(self)@.put(pos.0 as int, pos.1 as int, z, pixel),
            final(self)@.wf(),
    {
        let mut planes = self.take();
        planes.put_pixel(pos, z, pixel);
        self.planes = planes;
    }
}

impl Clone for Screen {
    fn clone(&self) -> (r: Screen)
        ensures
            r@ == self@,
    {
        proof {
            use_type_invariant(self);
        }
        Screen { planes: self.planes.copy() }
    }
}

pub(crate) proof fn lemma_index_in_bounds(x: int, y: int, w: int, h: int)
    requires
        0 <= x < w,
        0 <= y < h,
    ensures
        0 <= y * w <= y * w + x < w * h,
{
    assert(y * w + x < w * h) by (nonlinear_arith)
        requires
            0 <= x < w,
            0 <= y < h,
    ;
    assert(0 <= y * w) by (nonlinear_arith)
        requires
            0 <= y,
            0 <= w,
    ;
}

/// After any sequence of writes a well-formed screen stays well-formed, and
/// the depth stored at each pixel is at most every finite depth that was
/// ever written there.
pub proof fn lemma_depth_bounded_by_writes(s: ScreenView, writes: Seq<PixelWrite>)
    requires
        s.wf(),
    ensures
        s.put_all(writes).wf(),
        s.put_all(writes).width == s.width,
        s.put_all(writes).height == s.height,
        s.put_all(writes).colors.len() == s.width * s.height,
        forall|k: int|
            0 <= k < writes.len() && (writes[k].0 as nat) < s.width && (writes[k].1 as nat)
                < s.height && (#[trigger] writes[k]).2.spec_is_finite() ==> s.put_all(
                writes,
            ).depths[s.index_of(writes[k].0 as int, writes[k].1 as int)].value()
                <= writes[k].2.value(),
    decreases writes.len(),
{
    if writes.len() > 0 {
        let prefix = writes.drop_last();
        lemma_depth_bounded_by_writes(s, prefix);
        let before = s.put_all(prefix);
        let w = writes.last();
        let after = before.put(w.0 as int, w.1 as int, w.2, w.3);
        assert(after == s.put_all(writes));
        lemma_put_keeps_wf(before, w.0 as int, w.1 as int, w.2, w.3);
        assert forall|k: int|
            0 <= k < writes.len() && (writes[k].0 as nat) < s.width && (writes[k].1 as nat)
                < s.height && (#[trigger] writes[k]).2.spec_is_finite() implies after.depths[s.index_of(
            writes[k].0 as int,
            writes[k].1 as int,
        )].value() <= writes[k].2.value() by {
            let i = s.index_of(writes[k].0 as int, writes[k].1 as int);
            lemma_index_in_bounds(writes[k].0 as int, writes[k].1 as int, s.width as int, s.height as int);
            let j = s.index_of(w.0 as int, w.1 as int);
            let wrote = 0 <= w.0 < before.width && 0 <= w.1 < before.height
                && w.2.spec_is_finite() && w.2.spec_lt(before.depths[j]);
            if wrote {
                lemma_index_in_bounds(w.0 as int, w.1 as int, s.width as int, s.height as int);
                assert(after.depths == before.depths.update(j, w.2));
            } else {
                assert(after == before);
            }
            if k < writes.len() - 1 {
                assert(writes[k] == prefix[k]);
                assert(before.depths[i].value() <= writes[k].2.value());
                if wrote && i == j {
                    assert(after.depths[i] == w.2);
                } else {
                    assert(after.depths[i] == before.depths[i]);
                }
            } else {
                assert(writes[k] == w);
                assert(i == j);
                assert(!before.depths[i].spec_is_nan());
                assert(!w.2.spec_is_nan());
            }
        }
    }
}

/// A single write keeps a screen well-formed.
pub proof fn lemma_put_keeps_wf(s: ScreenView, x: int, y: int, z: Depth, p: Pixel)
    requires
        s.wf(),
    ensures
        s.put(x, y, z, p).wf(),
        s.put(x, y, z, p).width == s.width,
        s.put(x, y, z, p).height == s.height,
{
    if 0 <= x < s.width && 0 <= y < s.height {
        lemma_index_in_bounds(x, y, s.width as int, s.height as int);
        let after = s.put(x, y, z, p);
        assert forall|i: int| 0 <= i < after.depths.len() implies !(
        #[trigger] after.depths[i]).spec_is_nan() by {
            if after != s && i == s.index_of(x, y) {
                assert(after.depths[i] == z);
            } else {
                assert(after.depths[i] == s.depths[i]);
            }
        }
    }
}

/// Painting white twice leaves the same screen as painting it once.
pub proof fn lemma_clear_buffer_idempotent(s: ScreenView)
    ensures
        s.with_white_colors().with_white_colors() == s.with_white_colors(),
{
    assert(s.with_white_colors().with_white_colors().colors =~= s.with_white_colors().colors);
}

/// Resetting the depths twice leaves the same screen as resetting them once.
pub proof fn lemma_clear_depth_idempotent(s: ScreenView)
    ensures
        s.with_far_depths().with_far_depths() == s.with_far_depths(),
{
    assert(s.with_far_depths().with_far_depths().depths =~= s.with_far_depths().depths);
}

/// A write one column right of the screen, or one row below it, changes
/// nothing.
pub proof fn lemma_put_outside_is_noop(s: ScreenView, z: Depth, p: Pixel)
    ensures
        s.put(s.width as int, 0, z, p) == s,
        s.put(0, s.height as int, z, p) == s,
{
}

/// A write at infinite depth changes nothing.
pub proof fn lemma_put_infinite_is_noop(s: ScreenView, x: int, y: int, p: Pixel)
    ensures
        s.put(x, y, far_depth(), p) == s,
{
    assert(crate::depth::exponent_field(crate::depth::INFINITY_BITS) == 255);
}

/// A write at exactly the stored depth does not replace the stored pixel:
/// the earlier write wins.
pub proof fn lemma_put_tie_keeps_first(s: ScreenView, x: int, y: int, z: Depth, p: Pixel)
    requires
        0 <= x < s.width,
        0 <= y < s.height,
        s.wf(),
        z.value() == s.depths[s.index_of(x, y)].value(),
    ensures
        s.put(x, y, z, p) == s,
{
}

} // verus!
