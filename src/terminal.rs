use crate::keys::Key;
use crate::pixel::Pixel;
use vstd::prelude::*;
use vstd::string::StringExecFns;

verus! {

/// Frames per second that the terminal aims at.
pub const FPS: u64 = 60;

/// Milliseconds between two frames.
pub const FRAME_MS: u64 = 1000 / FPS;

/// The glyphs of the brightness ramp, darkest first.
pub open spec fn ramp() -> Seq<char> {
    seq!['@', '%', '#', '*', '+', '=', '-', ':', '.', ' ']
}

/// The band of the ramp that a pixel falls in: its average channel value
/// over bands 25.5 wide, the last band taking in the top of the range.
pub open spec fn glyph_index(p: Pixel) -> nat {
    let band = (2 * p.channel_sum()) / 153;
    if band > 9 {
        9
    } else {
        band
    }
}

pub open spec fn decimal_digit(d: nat) -> char {
    seq!['0', '1', '2', '3', '4', '5', '6', '7', '8', '9'][d as int]
}

/// A byte in decimal, without leading zeros.
pub open spec fn decimal(n: u8) -> Seq<char> {
    if n < 10 {
        seq![decimal_digit(n as nat)]
    } else if n < 100 {
        seq![decimal_digit(n as nat / 10), decimal_digit(n as nat % 10)]
    } else {
        seq![
            decimal_digit(n as nat / 100),
            decimal_digit((n as nat / 10) % 10),
            decimal_digit(n as nat % 10),
        ]
    }
}

/// The control sequence that sets a truecolor foreground.
pub open spec fn truecolor_fg(r: u8, g: u8, b: u8) -> Seq<char> {
    seq!['\u{1b}', '[', '3', '8', ';', '2', ';'] + decimal(r) + seq![';'] + decimal(g) + seq![';']
        + decimal(b) + seq!['m']
}

/// What the terminal prints for one pixel: its colour, then its glyph.
pub open spec fn cell_text(p: Pixel) -> Seq<char> {
    truecolor_fg(p.0, p.1, p.2) + seq![ramp()[glyph_index(p) as int]]
}

/// What the terminal prints for a row-major run of pixels.
pub open spec fn frame_text(pixels: Seq<Pixel>) -> Seq<char>
    decreases pixels.len(),
{
    if pixels.len() == 0 {
        Seq::empty()
    } else {
        frame_text(pixels.drop_last()) + cell_text(pixels.last())
    }
}

/// Relies on `termion::color::Rgb::fg_string`: ESC, `[38;2;`, then the red,
/// green and blue channels in decimal separated by `;`, then `m`.
#[verifier::external_body]
fn fg_string(r: u8, g: u8, b: u8) -> (s: String)
    ensures
        s@ == truecolor_fg(r, g, b),
{
    termion::color::Rgb(r, g, b).fg_string()
}

/// The presentation logic of the terminal front end.
pub struct CliInterface;

impl CliInterface {
    /// The band of the brightness ramp for a pixel.
    pub fn glyph_index(pixel: &Pixel) -> (r: usize)
        ensures
            r == glyph_index(*pixel),
            r < 10,
    {
        let sum = pixel.0 as usize + pixel.1 as usize + pixel.2 as usize;
        let band = (2 * sum) / 153;
        if band > 9 {
            9
        } else {
            band
        }
    }

    /// One pixel as terminal text: a truecolor escape and a glyph.
    pub fn map_pixel(pixel: &Pixel) -> (r: String)
        ensures
            r@ == cell_text(*pixel),
    {
        let mut s = fg_string(pixel.0, pixel.1, pixel.2);
        let i = Self::glyph_index(pixel);
        let glyph = if i == 0 {
            "@"
        } else if i == 1 {
            "%"
        } else if i == 2 {
            "#"
        } else if i == 3 {
            "*"
        } else if i == 4 {
            "+"
        } else if i == 5 {
            "="
        } else if i == 6 {
            "-"
        } else if i == 7 {
            ":"
        } else if i == 8 {
            "."
        } else {
            " "
        };
        proof {
            reveal_strlit("@");
            reveal_strlit("%");
            reveal_strlit("#");
            reveal_strlit("*");
            reveal_strlit("+");
            reveal_strlit("=");
            reveal_strlit("-");
            reveal_strlit(":");
            reveal_strlit(".");
            reveal_strlit(" ");
            assert(glyph@ =~= seq![ramp()[i as int]]);
        }
        s.append(glyph);
        s
    }

    /// A whole buffer as terminal text, pixel after pixel.
    pub fn frame(pixels: &[Pixel]) -> (r: String)
        ensures
            r@ == frame_text(pixels@),
    {
        let mut text = String::new();
        let mut i: usize = 0;
        while i < pixels.len()
            invariant
                i <= pixels@.len(),
                text@ == frame_text(pixels@.subrange(0, i as int)),
            decreases pixels@.len() - i,
        {
            let cell = Self::map_pixel(&pixels[i]);
            proof {
                assert(pixels@.subrange(0, i as int + 1).drop_last() =~= pixels@.subrange(0, i as int));
            }
            text.append(cell.as_str());
            i = i + 1;
        }
        assert(pixels@.subrange(0, pixels@.len() as int) =~= pixels@);
        text
    }

    /// The steering key that a typed byte stands for: `h`, `j`, `k` and `l`
    /// for left, down, up and right.
    pub fn key_for(byte: u8) -> (r: Option<Key>)
        ensures
            r == (if byte == 0x6a {
                Some(Key::ArrowDown)
            } else if byte == 0x6b {
                Some(Key::ArrowUp)
            } else if byte == 0x68 {
                Some(Key::ArrowLeft)
            } else if byte == 0x6c {
                Some(Key::ArrowRight)
            } else {
                None
            }),
    {
        if byte == 0x6a {
            Some(Key::ArrowDown)
        } else if byte == 0x6b {
            Some(Key::ArrowUp)
        } else if byte == 0x68 {
            Some(Key::ArrowLeft)
        } else if byte == 0x6c {
            Some(Key::ArrowRight)
        } else {
            None
        }
    }

    /// Whether a typed byte ends the program: `q`.
    pub fn is_exit_key(byte: u8) -> (r: bool)
        ensures
            r == (byte == 0x71),
    {
        byte == 0x71
    }

    /// Advances the terminal's clock by one frame and lists, by position,
    /// the timers whose interval divides the new time.
    pub fn tick(elapsed: u64, intervals: &[u64]) -> (r: (u64, Vec<usize>))
        requires
            elapsed + FRAME_MS <= u64::MAX,
            forall|k: int| 0 <= k < intervals@.len() ==> intervals@[k] > 0,
        ensures
            r.0 == elapsed + FRAME_MS,
            forall|k: int| 0 <= k < r.1@.len() ==> (#[trigger] r.1@[k]) < intervals@.len(),
            forall|k: int, l: int| 0 <= k < l < r.1@.len() ==> r.1@[k] < r.1@[l],
            forall|t: int|
                0 <= t < intervals@.len() ==> (r.1@.contains(t as usize) <==> (r.0 % #[trigger] intervals@[t]
                    == 0)),
    {
        let now = elapsed + FRAME_MS;
        let mut due: Vec<usize> = Vec::new();
        let mut t: usize = 0;
        while t < intervals.len()
            invariant
                t <= intervals@.len(),
                forall|k: int| 0 <= k < intervals@.len() ==> intervals@[k] > 0,
                forall|k: int| 0 <= k < due@.len() ==> (#[trigger] due@[k]) < t,
                forall|k: int, l: int| 0 <= k < l < due@.len() ==> due@[k] < due@[l],
                forall|u: int|
                    0 <= u < t ==> (due@.contains(u as usize) <==> (now % #[trigger] intervals@[u]
                        == 0)),
            decreases intervals@.len() - t,
        {
            let ghost prev = due@;
            if now % intervals[t] == 0 {
                due.push(t);
            }
            proof {
                assert(!prev.contains(t));
                assert forall|u: int| 0 <= u < t + 1 implies (due@.contains(u as usize) <==> (now
                    % #[trigger] intervals@[u] == 0)) by {
                    if due@ != prev {
                        assert(due@ == prev.push(t));
                        if u < t {
                            if due@.contains(u as usize) {
                                let k = choose|k: int| 0 <= k < due@.len() && due@[k] == u as usize;
                                assert(k < prev.len());
                                assert(prev[k] == u as usize);
                            }
                            if prev.contains(u as usize) {
                                let k = choose|k: int| 0 <= k < prev.len() && prev[k] == u as usize;
                                assert(due@[k] == u as usize);
                            }
                        } else {
                            assert(due@[due@.len() - 1] == t);
                        }
                    }
                }
            }
            t = t + 1;
        }
        (now, due)
    }
}

} // verus!
