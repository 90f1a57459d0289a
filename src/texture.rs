use crate::pixel::{white, Pixel};
use vstd::prelude::*;

verus! {

/// What an image holds: its size and its pixels, row by row from the top.
pub struct ImageView {
    pub width: nat,
    pub height: nat,
    pub pixels: Seq<Pixel>,
}

impl ImageView {
    pub open spec fn wf(self) -> bool {
        self.pixels.len() == self.width * self.height
    }

    pub open spec fn at(self, x: int, y: int) -> Pixel {
        self.pixels[y * self.width + x]
    }
}

/// A decoded picture; read-only once loaded.
pub struct Image {
    data: Vec<Pixel>,
    width: u32,
    height: u32,
}

impl View for Image {
    type V = ImageView;

    closed spec fn view(&self) -> ImageView {
        ImageView { width: self.width as nat, height: self.height as nat, pixels: self.data@ }
    }
}

/// The pixels that a buffer of RGBA bytes describes, four bytes each.
pub open spec fn pixels_of_rgba(bytes: Seq<u8>, count: nat) -> Seq<Pixel> {
    Seq::new(
        count,
        |i: int| Pixel(bytes[4 * i], bytes[4 * i + 1], bytes[4 * i + 2], bytes[4 * i + 3]),
    )
}

impl Image {
    #[verifier::type_invariant]
    spec fn inv(&self) -> bool {
        self@.wf()
    }

    /// An image of the given size over a copy of `data`, row by row.
    pub fn load(width: u32, height: u32, data: &[Pixel]) -> (r: Image)
        requires
            data@.len() == width * height,
        ensures
            r@ == (ImageView { width: width as nat, height: height as nat, pixels: data@ }),
            r@.wf(),
    {
        let mut copy: Vec<Pixel> = Vec::new();
        let mut i: usize = 0;
        while i < data.len()
            invariant
                i <= data@.len(),
                copy@ == data@.subrange(0, i as int),
            decreases data@.len() - i,
        {
            copy.push(data[i]);
            i = i + 1;
            assert(copy@ =~= data@.subrange(0, i as int));
        }
        assert(copy@ =~= data@);
        Image { data: copy, width, height }
    }

    /// An image of the given size whose pixels are read from RGBA bytes,
    /// four per pixel, row by row; bytes past the last pixel are ignored.
    pub fn from_rgba8(width: u32, height: u32, bytes: &[u8]) -> (r: Image)
        requires
            bytes@.len() >= 4 * width * height,
        ensures
            r@ == (ImageView {
                width: width as nat,
                height: height as nat,
                pixels: pixels_of_rgba(bytes@, width as nat * height as nat),
            }),
            r@.wf(),
    {
        let len = bytes.len();
        proof {
            assert(4 * (width * height) <= bytes@.len() <= usize::MAX) by (nonlinear_arith)
                requires
                    4 * width * height <= bytes@.len(),
                    bytes@.len() <= usize::MAX,
            ;
        }
        let count = (width as usize) * (height as usize);
        let mut data: Vec<Pixel> = Vec::new();
        let mut i: usize = 0;
        while i < count
            invariant
                i <= count,
                count == width * height,
                4 * count <= bytes@.len(),
                bytes@.len() <= usize::MAX,
                data@ == pixels_of_rgba(bytes@, i as nat),
            decreases count - i,
        {
            assert(4 * i + 3 < 4 * count);
            let k = 4 * i;
            data.push(Pixel(bytes[k], bytes[k + 1], bytes[k + 2], bytes[k + 3]));
            i = i + 1;
            assert(data@ =~= pixels_of_rgba(bytes@, i as nat));
        }
        Image { data, width, height }
    }

    pub fn width(&self) -> (r: u32)
        ensures
            r == self@.width,
    {
        self.width
    }

    pub fn height(&self) -> (r: u32)
        ensures
            r == self@.height,
    {
        self.height
    }

    /// The pixel in column `x` of row `y`.
    pub fn get(&self, x: u32, y: u32) -> (r: Pixel)
        requires
            x < self@.width,
            y < self@.height,
        ensures
            r == self@.at(x as int, y as int),
    {
        proof {
            use_type_invariant(self);
            crate::screen::lemma_index_in_bounds(
                x as int,
                y as int,
                self.width as int,
                self.height as int,
            );
        }
        let n = self.data.len();
        assert(n == self.width * self.height);
        self.data[(y as usize) * (self.width as usize) + (x as usize)]
    }
}

/// A surface colouring: the default colour, one solid colour, or an image.
pub enum Texture {
    Blank,
    Solid(u8, u8, u8, u8),
    Image { image: Image },
}

impl Texture {
    pub open spec fn spec_width(&self) -> nat {
        match self {
            Texture::Image { image } => image@.width,
            _ => 1,
        }
    }

    pub open spec fn spec_height(&self) -> nat {
        match self {
            Texture::Image { image } => image@.height,
            _ => 1,
        }
    }

    /// The colour at a texel; only an image reads its arguments.
    pub open spec fn texel_at(&self, x: int, y: int) -> Pixel {
        match self {
            Texture::Blank => white(),
            Texture::Solid(r, g, b, a) => Pixel(*r, *g, *b, *a),
            Texture::Image { image } => image@.at(x, y),
        }
    }

    /// Whether a texel position may be read: an image needs it on the image.
    pub open spec fn readable(&self, x: int, y: int) -> bool {
        match self {
            Texture::Image { image } => 0 <= x < image@.width && 0 <= y < image@.height,
            _ => true,
        }
    }

    pub open spec fn clamp(v: int, size: nat) -> int {
        if v < size - 1 {
            v
        } else {
            size - 1
        }
    }

    pub fn get(&self, x: u32, y: u32) -> (r: Pixel)
        requires
            self.readable(x as int, y as int),
        ensures
            r == self.texel_at(x as int, y as int),
    {
        match self {
            Texture::Blank => Pixel::white(),
            Texture::Solid(r, g, b, a) => Pixel(*r, *g, *b, *a),
            Texture::Image { image } => image.get(x, y),
        }
    }

    pub fn width(&self) -> (r: u32)
        ensures
            r == self.spec_width(),
    {
        match self {
            Texture::Blank => 1,
            Texture::Solid(_, _, _, _) => 1,
            Texture::Image { image } => image.width(),
        }
    }

    pub fn height(&self) -> (r: u32)
        ensures
            r == self.spec_height(),
    {
        match self {
            Texture::Blank => 1,
            Texture::Solid(_, _, _, _) => 1,
            Texture::Image { image } => image.height(),
        }
    }

    /// The texel nearest to `(x, y)` on the texture: each coordinate is
    /// first clamped to the last column or row.
    pub fn texel(&self, x: u32, y: u32) -> (r: Pixel)
        requires
            self.spec_width() > 0,
            self.spec_height() > 0,
        ensures
            r == self.texel_at(
                Texture::clamp(x as int, self.spec_width()),
                Texture::clamp(y as int, self.spec_height()),
            ),
    {
        let last_x = self.width() - 1;
        let last_y = self.height() - 1;
        let tx = if x < last_x {
            x
        } else {
            last_x
        };
        let ty = if y < last_y {
            y
        } else {
            last_y
        };
        self.get(tx, ty)
    }
}

/// The named textures, as a map from name to texture: a later entry of a
/// name shadows an earlier one.
pub open spec fn map_of(entries: Seq<(String, Texture)>) -> Map<Seq<char>, Texture>
    decreases entries.len(),
{
    if entries.len() == 0 {
        Map::empty()
    } else {
        map_of(entries.drop_last()).insert(entries.last().0@, entries.last().1)
    }
}

/// The textures that a list of named images gives, a later image of a name
/// replacing an earlier one.
pub open spec fn images_map(images: Seq<(String, Image)>) -> Map<Seq<char>, Texture>
    decreases images.len(),
{
    if images.len() == 0 {
        Map::empty()
    } else {
        images_map(images.drop_last()).insert(
            images.last().0@,
            Texture::Image { image: images.last().1 },
        )
    }
}

/// The texture that a lookup of `name` yields: the stored one, or the blank
/// texture for a name that is not stored.
pub open spec fn lookup(m: Map<Seq<char>, Texture>, name: Seq<char>) -> Texture {
    if m.contains_key(name) {
        m[name]
    } else {
        Texture::Blank
    }
}

/// The store of textures by name. Lookups never fail: an unknown name yields
/// the blank texture.
pub struct Textures {
    entries: Vec<(String, Texture)>,
    blank: Texture,
}

impl View for Textures {
    type V = Map<Seq<char>, Texture>;

    closed spec fn view(&self) -> Map<Seq<char>, Texture> {
        map_of(self.entries@)
    }
}

proof fn lemma_map_of_last(entries: Seq<(String, Texture)>, i: int, name: Seq<char>)
    requires
        0 <= i < entries.len(),
        entries[i].0@ == name,
        forall|j: int| i < j < entries.len() ==> (#[trigger] entries[j]).0@ != name,
    ensures
        map_of(entries).contains_key(name),
        map_of(entries)[name] == entries[i].1,
    decreases entries.len(),
{
    if i < entries.len() - 1 {
        let prefix = entries.drop_last();
        assert forall|j: int| i < j < prefix.len() implies (#[trigger] prefix[j]).0@ != name by {
            assert(prefix[j] == entries[j]);
        }
        lemma_map_of_last(prefix, i, name);
        assert(entries[entries.len() - 1].0@ != name);
    }
}

proof fn lemma_map_of_absent(entries: Seq<(String, Texture)>, name: Seq<char>)
    requires
        forall|j: int| 0 <= j < entries.len() ==> (#[trigger] entries[j]).0@ != name,
    ensures
        !map_of(entries).contains_key(name),
    decreases entries.len(),
{
    if entries.len() > 0 {
        let prefix = entries.drop_last();
        assert forall|j: int| 0 <= j < prefix.len() implies (#[trigger] prefix[j]).0@ != name by {
            assert(prefix[j] == entries[j]);
        }
        lemma_map_of_absent(prefix, name);
        assert(entries[entries.len() - 1].0@ != name);
    }
}

impl Textures {
    #[verifier::type_invariant]
    spec fn inv(&self) -> bool {
        self.blank is Blank
    }

    /// The store over the given images, plus the blank texture under
    /// "none" and solid red under "solid_red".
    pub fn new(images: Vec<(String, Image)>) -> (r: Textures)
        ensures
            r@ == images_map(images@).insert("none"@, Texture::Blank).insert(
                "solid_red"@,
                Texture::Solid(255, 0, 0, 255),
            ),
    {
        let mut images = images;
        let ghost all = images@;
        let n = images.len();
        let mut entries: Vec<(String, Texture)> = Vec::new();
        let mut done: usize = 0;
        while images.len() > 0
            invariant
                done + images@.len() == all.len(),
                all.len() == n,
                images@ == all.subrange(done as int, all.len() as int),
                map_of(entries@) == images_map(all.subrange(0, done as int)),
            decreases images@.len(),
        {
            let (name, image) = images.remove(0);
            proof {
                assert(all[done as int] == (name, image));
                assert(all.subrange(0, done as int + 1).drop_last() =~= all.subrange(0, done as int));
            }
            let ghost prev = entries@;
            entries.push((name, Texture::Image { image }));
            done = done + 1;
            proof {
                assert(entries@.drop_last() =~= prev);
            }
            assert(images@ =~= all.subrange(done as int, all.len() as int));
        }
        assert(all.subrange(0, done as int) =~= all);
        let ghost first = entries@;
        entries.push(("none".to_owned(), Texture::Blank));
        let ghost second = entries@;
        entries.push(("solid_red".to_owned(), Texture::Solid(255, 0, 0, 255)));
        assert(second.drop_last() =~= first);
        assert(entries@.drop_last() =~= second);
        assert(map_of(first) == images_map(all));
        assert(second.last().0@ == "none"@);
        assert(map_of(second) == map_of(first).insert("none"@, Texture::Blank));
        assert(map_of(entries@) == map_of(second).insert("solid_red"@, Texture::Solid(255, 0, 0, 255)));
        Textures { entries, blank: Texture::Blank }
    }

    /// The texture stored under `name`, or the blank texture.
    pub fn get(&self, name: &str) -> (r: &Texture)
        ensures
            *r == lookup(self@, name@),
    {
        let key = name.to_owned();
        let mut i: usize = self.entries.len();
        while i > 0
            invariant
                i <= self.entries@.len(),
                key@ == name@,
                forall|j: int| i <= j < self.entries@.len() ==> (#[trigger] self.entries@[j]).0@ != name@,
            decreases i,
        {
            i = i - 1;
            if self.entries[i].0 == key {
                proof {
                    lemma_map_of_last(self.entries@, i as int, name@);
                }
                return &self.entries[i].1;
            }
        }
        proof {
            lemma_map_of_absent(self.entries@, name@);
            use_type_invariant(self);
        }
        &self.blank
    }

    /// Stores `texture` under `name`, replacing what was stored there.
    pub fn add(&mut self, name: &str, texture: Texture)
        ensures
            final(self)@ == old(self)@.insert(name@, texture),
    {
        let mut entries: Vec<(String, Texture)> = Vec::new();
        proof {
            use_type_invariant(&*self);
        }
        std::mem::swap(&mut entries, &mut self.entries);
        let ghost prev = entries@;
        entries.push((name.to_owned(), texture));
        assert(entries@.drop_last() =~= prev);
        self.entries = entries;
    }
}

} // verus!
