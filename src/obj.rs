use crate::loader::AssetError;
use vstd::prelude::*;

verus! {

/// ASCII whitespace: space, tab, line feed, form feed, carriage return.
pub open spec fn is_space(b: u8) -> bool {
    b == 0x20 || b == 0x09 || b == 0x0a || b == 0x0c || b == 0x0d
}

/// The byte that separates the parts of a text.
#[derive(Clone, Copy, Debug, PartialEq, Eq, Structural)]
pub enum Separator {
    Newline,
    Space,
    Slash,
}

impl Separator {
    pub open spec fn spec_matches(self, b: u8) -> bool {
        match self {
            Separator::Newline => b == 0x0a,
            Separator::Space => is_space(b),
            Separator::Slash => b == 0x2f,
        }
    }

    pub fn matches(self, b: u8) -> (r: bool)
        ensures
            r == self.spec_matches(b),
    {
        match self {
            Separator::Newline => b == 0x0a,
            Separator::Space => b == 0x20 || b == 0x09 || b == 0x0a || b == 0x0c || b == 0x0d,
            Separator::Slash => b == 0x2f,
        }
    }
}

/// The parts of `s` between separators, empty ones included: one more part
/// than there are separators.
pub open spec fn pieces(s: Seq<u8>, sep: Separator) -> Seq<Seq<u8>>
    decreases s.len(),
{
    if s.len() == 0 {
        seq![Seq::empty()]
    } else {
        let p = pieces(s.drop_last(), sep);
        if sep.spec_matches(s.last()) {
            p.push(Seq::empty())
        } else {
            p.update(p.len() - 1, p.last().push(s.last()))
        }
    }
}

/// The parts that are not empty, in order.
pub open spec fn nonempty(ps: Seq<Seq<u8>>) -> Seq<Seq<u8>>
    decreases ps.len(),
{
    if ps.len() == 0 {
        Seq::empty()
    } else if ps.last().len() > 0 {
        nonempty(ps.drop_last()).push(ps.last())
    } else {
        nonempty(ps.drop_last())
    }
}

/// The whitespace-separated words of a line.
pub open spec fn tokens(line: Seq<u8>) -> Seq<Seq<u8>> {
    nonempty(pieces(line, Separator::Space))
}

pub open spec fn views(v: Seq<Vec<u8>>) -> Seq<Seq<u8>> {
    v.map_values(|x: Vec<u8>| x@)
}

pub(crate) proof fn lemma_pieces_nonempty(s: Seq<u8>, sep: Separator)
    ensures
        pieces(s, sep).len() >= 1,
    decreases s.len(),
{
    if s.len() > 0 {
        lemma_pieces_nonempty(s.drop_last(), sep);
    }
}

/// Splits `s` at every separator byte, keeping empty parts.
pub fn split(s: &[u8], sep: Separator) -> (r: Vec<Vec<u8>>)
    ensures
        views(r@) == pieces(s@, sep),
{
    let mut out: Vec<Vec<u8>> = Vec::new();
    let mut cur: Vec<u8> = Vec::new();
    let mut i: usize = 0;
    while i < s.len()
        invariant
            i <= s@.len(),
            pieces(s@.subrange(0, i as int), sep) == views(out@).push(cur@),
        decreases s@.len() - i,
    {
        let b = s[i];
        let ghost before_out = out@;
        let ghost before_cur = cur@;
        proof {
            assert(s@.subrange(0, i as int + 1).drop_last() =~= s@.subrange(0, i as int));
        }
        if sep.matches(b) {
            out.push(cur);
            cur = Vec::new();
            proof {
                assert(views(out@) =~= views(before_out).push(before_cur));
                assert(views(out@).push(cur@) =~= views(before_out).push(before_cur).push(
                    Seq::empty(),
                ));
            }
        } else {
            cur.push(b);
            proof {
                assert(views(out@).push(cur@) =~= views(before_out).push(before_cur).update(
                    views(before_out).len() as int,
                    before_cur.push(b),
                ));
            }
        }
        i = i + 1;
    }
    let ghost before_out = out@;
    out.push(cur);
    assert(s@.subrange(0, s@.len() as int) =~= s@);
    assert(views(out@) =~= views(before_out).push(cur@));
    out
}

/// The whitespace-separated words of `line`.
pub fn split_tokens(line: &[u8]) -> (r: Vec<Vec<u8>>)
    ensures
        views(r@) == tokens(line@),
{
    let mut out: Vec<Vec<u8>> = Vec::new();
    let mut cur: Vec<u8> = Vec::new();
    let mut i: usize = 0;
    while i < line.len()
        invariant
            i <= line@.len(),
            pieces(line@.subrange(0, i as int), Separator::Space).len() >= 1,
            nonempty(pieces(line@.subrange(0, i as int), Separator::Space).drop_last()) == views(
                out@,
            ),
            pieces(line@.subrange(0, i as int), Separator::Space).last() == cur@,
        decreases line@.len() - i,
    {
        let b = line[i];
        let ghost before_out = out@;
        let ghost before_cur = cur@;
        let ghost p = pieces(line@.subrange(0, i as int), Separator::Space);
        proof {
            assert(line@.subrange(0, i as int + 1).drop_last() =~= line@.subrange(0, i as int));
        }
        if Separator::Space.matches(b) {
            if cur.len() > 0 {
                out.push(cur);
                proof {
                    assert(views(out@) =~= views(before_out).push(before_cur));
                }
            }
            cur = Vec::new();
            proof {
                let q = pieces(line@.subrange(0, i as int + 1), Separator::Space);
                assert(q == p.push(Seq::empty()));
                assert(q.drop_last() =~= p);
                assert(p.drop_last() =~= p.subrange(0, p.len() - 1));
            }
        } else {
            cur.push(b);
            proof {
                let q = pieces(line@.subrange(0, i as int + 1), Separator::Space);
                assert(q.drop_last() =~= p.drop_last());
            }
        }
        i = i + 1;
    }
    assert(line@.subrange(0, line@.len() as int) =~= line@);
    if cur.len() > 0 {
        let ghost before_out = out@;
        out.push(cur);
        assert(views(out@) =~= views(before_out).push(cur@));
    }
    out
}

pub open spec fn is_digit(b: u8) -> bool {
    0x30 <= b <= 0x39
}

/// The number that a run of decimal digits spells.
pub open spec fn digits_value(s: Seq<u8>) -> nat
    decreases s.len(),
{
    if s.len() == 0 {
        0
    } else {
        digits_value(s.drop_last()) * 10 + (s.last() - 0x30) as nat
    }
}

/// The digits of an unsigned number: a leading `+` is dropped when more
/// follows it.
pub open spec fn unsigned_digits(s: Seq<u8>) -> Seq<u8> {
    if s.len() > 1 && s[0] == 0x2b {
        s.drop_first()
    } else {
        s
    }
}

/// The `usize` that a word spells in decimal, as Rust's integer parsing
/// reads it; none when it is empty, holds another byte, or is too large.
pub open spec fn parse_usize(s: Seq<u8>) -> Option<nat> {
    let d = unsigned_digits(s);
    if d.len() > 0 && (forall|i: int| 0 <= i < d.len() ==> is_digit(#[trigger] d[i]))
        && digits_value(d) <= usize::MAX {
        Some(digits_value(d))
    } else {
        None
    }
}

proof fn lemma_digits_value_grows(d: Seq<u8>, k: int)
    requires
        0 <= k <= d.len(),
        forall|i: int| 0 <= i < d.len() ==> is_digit(#[trigger] d[i]),
    ensures
        digits_value(d.subrange(0, k)) <= digits_value(d),
    decreases d.len() - k,
{
    if k < d.len() {
        lemma_digits_value_grows(d, k + 1);
        assert(d.subrange(0, k + 1).drop_last() =~= d.subrange(0, k));
    } else {
        assert(d.subrange(0, k) =~= d);
    }
}

/// Reads a word as a decimal `usize`.
pub fn parse_index(s: &[u8]) -> (r: Option<usize>)
    ensures
        r matches Some(v) ==> parse_usize(s@) == Some(v as nat),
        r is None ==> parse_usize(s@) is None,
{
    let start: usize = if s.len() > 1 && s[0] == 0x2b {
        1
    } else {
        0
    };
    let ghost d = unsigned_digits(s@);
    assert(d =~= s@.subrange(start as int, s@.len() as int));
    if start == s.len() {
        return None;
    }
    let mut v: usize = 0;
    let mut i: usize = start;
    while i < s.len()
        invariant
            start <= i <= s@.len(),
            d == unsigned_digits(s@),
            d == s@.subrange(start as int, s@.len() as int),
            forall|k: int| 0 <= k < i - start ==> is_digit(#[trigger] d[k]),
            v == digits_value(d.subrange(0, i - start)),
        decreases s@.len() - i,
    {
        let b = s[i];
        if b < 0x30 || b > 0x39 {
            assert(d[i - start] == b);
            assert(!is_digit(d[i - start]));
            return None;
        }
        let digit = (b - 0x30) as usize;
        proof {
            assert(d.subrange(0, i - start + 1).drop_last() =~= d.subrange(0, i - start));
            assert(d.subrange(0, i - start + 1).last() == b);
            assert(d[i - start] == b);
        }
        if v > (usize::MAX - digit) / 10 {
            proof {
                assert(digits_value(d.subrange(0, i - start + 1)) > usize::MAX) by (nonlinear_arith)
                    requires
                        v > (usize::MAX - digit) / 10,
                        digits_value(d.subrange(0, i - start + 1)) == v * 10 + digit,
                        digit <= 9,
                ;
                if forall|k: int| 0 <= k < d.len() ==> is_digit(#[trigger] d[k]) {
                    lemma_digits_value_grows(d, i - start + 1);
                }
            }
            return None;
        }
        proof {
            assert(v * 10 + digit <= usize::MAX) by (nonlinear_arith)
                requires
                    v <= (usize::MAX - digit) / 10,
                    digit <= 9,
            ;
        }
        v = v * 10 + digit;
        i = i + 1;
    }
    assert(d.subrange(0, d.len() as int) =~= d);
    Some(v)
}

/// A corner index of a face: present, and at least one (indices count from
/// one).
pub open spec fn valid_index(part: Seq<u8>) -> bool {
    parse_usize(part) is Some && parse_usize(part)->Some_0 >= 1
}

/// The zero-based (position, texture coordinate) pair of a face corner
/// written `a`, `a/b` or `a/b/c`; the texture coordinate defaults to the
/// first one. Every part must be a valid index; a third one is ignored.
pub open spec fn corner(word: Seq<u8>) -> Option<(usize, usize)> {
    let parts = pieces(word, Separator::Slash);
    if forall|i: int| 0 <= i < parts.len() ==> valid_index(#[trigger] parts[i]) {
        Some(
            (
                (parse_usize(parts[0])->Some_0 - 1) as usize,
                if parts.len() == 1 {
                    0usize
                } else {
                    (parse_usize(parts[1])->Some_0 - 1) as usize
                },
            ),
        )
    } else {
        None
    }
}

/// Reads a face corner.
pub fn parse_corner(word: &[u8]) -> (r: Option<(usize, usize)>)
    ensures
        r == corner(word@),
{
    let parts = split(word, Separator::Slash);
    proof {
        lemma_pieces_nonempty(word@, Separator::Slash);
    }
    let ghost ps = pieces(word@, Separator::Slash);
    let mut values: Vec<usize> = Vec::new();
    let mut i: usize = 0;
    while i < parts.len()
        invariant
            i <= parts@.len(),
            ps == pieces(word@, Separator::Slash),
            views(parts@) == ps,
            values@.len() == i,
            forall|k: int| 0 <= k < i ==> valid_index(#[trigger] ps[k]),
            forall|k: int| 0 <= k < i ==> parse_usize(ps[k]) == Some(#[trigger] values@[k] as nat),
        decreases parts@.len() - i,
    {
        assert(ps[i as int] == parts@[i as int]@);
        match parse_index(parts[i].as_slice()) {
            Some(v) => {
                if v == 0 {
                    assert(!valid_index(ps[i as int]));
                    return None;
                }
                values.push(v);
            },
            None => {
                assert(!valid_index(ps[i as int]));
                return None;
            },
        }
        i = i + 1;
    }
    let uv = if values.len() == 1 {
        0
    } else {
        values[1] - 1
    };
    Some((values[0] - 1, uv))
}

/// The face index table entry: three corners of (position, texture
/// coordinate) indices.
pub type Indice = ((usize, usize), (usize, usize), (usize, usize));

/// What an OBJ file describes. Coordinates stay the words they were written
/// as; turning them into numbers is up to the renderer.
pub struct ObjSpec {
    pub positions: Seq<(Seq<u8>, Seq<u8>, Seq<u8>)>,
    pub uvs: Seq<(Seq<u8>, Seq<u8>)>,
    pub faces: Seq<Indice>,
    pub texture: Seq<u8>,
}

/// The texture name of a file without `usemtl`: "none".
pub open spec fn default_texture() -> Seq<u8> {
    seq![0x6e, 0x6f, 0x6e, 0x65]
}

pub open spec fn empty_obj() -> ObjSpec {
    ObjSpec { positions: seq![], uvs: seq![], faces: seq![], texture: default_texture() }
}

pub open spec fn keyword_v() -> Seq<u8> {
    seq![0x76]
}

pub open spec fn keyword_vt() -> Seq<u8> {
    seq![0x76, 0x74]
}

pub open spec fn keyword_f() -> Seq<u8> {
    seq![0x66]
}

pub open spec fn keyword_usemtl() -> Seq<u8> {
    seq![0x75, 0x73, 0x65, 0x6d, 0x74, 0x6c]
}

/// The effect of one line, given as its words; none when the line is
/// malformed. `v` takes three coordinates, `vt` two, `f` at least three
/// corners (only the first three make the face, but all must be valid),
/// `usemtl` a name. Other lines, blank ones included, are ignored.
pub open spec fn step(m: ObjSpec, t: Seq<Seq<u8>>) -> Option<ObjSpec> {
    if t.len() == 0 {
        Some(m)
    } else if t[0] == keyword_v() {
        if t.len() >= 4 {
            Some(ObjSpec { positions: m.positions.push((t[1], t[2], t[3])), ..m })
        } else {
            None
        }
    } else if t[0] == keyword_vt() {
        if t.len() >= 3 {
            Some(ObjSpec { uvs: m.uvs.push((t[1], t[2])), ..m })
        } else {
            None
        }
    } else if t[0] == keyword_f() {
        if t.len() >= 4 && forall|i: int| 1 <= i < t.len() ==> (#[trigger] corner(t[i])) is Some {
            Some(
                ObjSpec {
                    faces: m.faces.push(
                        (corner(t[1])->Some_0, corner(t[2])->Some_0, corner(t[3])->Some_0),
                    ),
                    ..m
                },
            )
        } else {
            None
        }
    } else if t[0] == keyword_usemtl() {
        if t.len() >= 2 {
            Some(ObjSpec { texture: t[1], ..m })
        } else {
            None
        }
    } else {
        Some(m)
    }
}

/// A file's lines read in order; the error is the zero-based number of the
/// first malformed line.
pub open spec fn parse_lines(lines: Seq<Seq<u8>>) -> Result<ObjSpec, nat>
    decreases lines.len(),
{
    if lines.len() == 0 {
        Ok(empty_obj())
    } else {
        match parse_lines(lines.drop_last()) {
            Err(e) => Err(e),
            Ok(m) => match step(m, tokens(lines.last())) {
                Some(next) => Ok(next),
                None => Err((lines.len() - 1) as nat),
            },
        }
    }
}

/// What the bytes of an OBJ file describe.
pub open spec fn parse_obj(data: Seq<u8>) -> Result<ObjSpec, nat> {
    parse_lines(pieces(data, Separator::Newline))
}

/// The parsed content of an OBJ file, coordinates kept as written.
pub struct ObjModel {
    pub positions: Vec<(Vec<u8>, Vec<u8>, Vec<u8>)>,
    pub uvs: Vec<(Vec<u8>, Vec<u8>)>,
    pub faces: Vec<Indice>,
    pub texture: Vec<u8>,
}

impl View for ObjModel {
    type V = ObjSpec;

    open spec fn view(&self) -> ObjSpec {
        ObjSpec {
            positions: self.positions@.map_values(
                |p: (Vec<u8>, Vec<u8>, Vec<u8>)| (p.0@, p.1@, p.2@),
            ),
            uvs: self.uvs@.map_values(|p: (Vec<u8>, Vec<u8>)| (p.0@, p.1@)),
            faces: self.faces@,
            texture: self.texture@,
        }
    }
}

fn is_keyword_v(w: &Vec<u8>) -> (r: bool)
    ensures
        r == (w@ == keyword_v()),
{
    let r = w.len() == 1 && w[0] == 0x76;
    proof {
        if r {
            assert(w@ =~= keyword_v());
        }
    }
    r
}

fn is_keyword_vt(w: &Vec<u8>) -> (r: bool)
    ensures
        r == (w@ == keyword_vt()),
{
    let r = w.len() == 2 && w[0] == 0x76 && w[1] == 0x74;
    proof {
        if r {
            assert(w@ =~= keyword_vt());
        }
    }
    r
}

fn is_keyword_f(w: &Vec<u8>) -> (r: bool)
    ensures
        r == (w@ == keyword_f()),
{
    let r = w.len() == 1 && w[0] == 0x66;
    proof {
        if r {
            assert(w@ =~= keyword_f());
        }
    }
    r
}

fn is_keyword_usemtl(w: &Vec<u8>) -> (r: bool)
    ensures
        r == (w@ == keyword_usemtl()),
{
    let r = w.len() == 6 && w[0] == 0x75 && w[1] == 0x73 && w[2] == 0x65 && w[3] == 0x6d && w[4]
        == 0x74 && w[5] == 0x6c;
    proof {
        if r {
            assert(w@ =~= keyword_usemtl());
        }
    }
    r
}

/// Applies one line, given as its words, to the model; false when the line
/// is malformed, and the model is then left as it was.
fn apply_line(m: &mut ObjModel, t: Vec<Vec<u8>>) -> (ok: bool)
    ensures
        ok == step(old(m)@, views(t@)) is Some,
        ok ==> final(m)@ == step(old(m)@, views(t@))->Some_0,
{
    let ghost tv = views(t@);
    if t.len() == 0 {
        return true;
    }
    assert(tv[0] == t@[0]@);
    let mut w = t;
    if is_keyword_v(&w[0]) {
        if w.len() < 4 {
            return false;
        }
        assert(tv[1] == w@[1]@ && tv[2] == w@[2]@ && tv[3] == w@[3]@);
        w.truncate(4);
        let z = w.pop().unwrap();
        let y = w.pop().unwrap();
        let x = w.pop().unwrap();
        m.positions.push((x, y, z));
        assert(m@.positions =~= old(m)@.positions.push((tv[1], tv[2], tv[3])));
        true
    } else if is_keyword_vt(&w[0]) {
        if w.len() < 3 {
            return false;
        }
        assert(tv[1] == w@[1]@ && tv[2] == w@[2]@);
        w.truncate(3);
        let v = w.pop().unwrap();
        let u = w.pop().unwrap();
        m.uvs.push((u, v));
        assert(m@.uvs =~= old(m)@.uvs.push((tv[1], tv[2])));
        true
    } else if is_keyword_f(&w[0]) {
        if w.len() < 4 {
            return false;
        }
        let mut corners: Vec<(usize, usize)> = Vec::new();
        let mut i: usize = 1;
        while i < w.len()
            invariant
                1 <= i <= w@.len(),
                w@.len() >= 4,
                tv == views(w@),
                tv == views(t@),
                corners@.len() == i - 1,
                forall|k: int| 1 <= k < i ==> (#[trigger] corner(tv[k])) is Some,
                forall|k: int| 0 <= k < corners@.len() ==> corner(tv[k + 1]) == Some(#[trigger] corners@[k]),
                tv[0] == keyword_f(),
                tv[0] != keyword_v(),
                tv[0] != keyword_vt(),
                *m == *old(m),
            decreases w@.len() - i,
        {
            assert(tv[i as int] == w@[i as int]@);
            match parse_corner(w[i].as_slice()) {
                Some(c) => {
                    corners.push(c);
                },
                None => {
                    assert(corner(tv[i as int]) is None);
                    assert(!(forall|k: int| 1 <= k < tv.len() ==> (#[trigger] corner(tv[k])) is Some));
                    assert(step(old(m)@, tv) is None);
                    return false;
                },
            }
            i = i + 1;
        }
        m.faces.push((corners[0], corners[1], corners[2]));
        assert(corner(tv[1]) == Some(corners@[0]));
        assert(corner(tv[2]) == Some(corners@[1]));
        assert(corner(tv[3]) == Some(corners@[2]));
        true
    } else if is_keyword_usemtl(&w[0]) {
        if w.len() < 2 {
            return false;
        }
        assert(tv[1] == w@[1]@);
        w.truncate(2);
        m.texture = w.pop().unwrap();
        true
    } else {
        true
    }
}

proof fn lemma_error_persists(ls: Seq<Seq<u8>>, k: int, e: nat)
    requires
        0 <= k <= ls.len(),
        parse_lines(ls.subrange(0, k)) == Err::<ObjSpec, nat>(e),
    ensures
        parse_lines(ls) == Err::<ObjSpec, nat>(e),
    decreases ls.len() - k,
{
    if k < ls.len() {
        assert(ls.subrange(0, k + 1).drop_last() =~= ls.subrange(0, k));
        lemma_error_persists(ls, k + 1, e);
    } else {
        assert(ls.subrange(0, k) =~= ls);
    }
}

/// Reads an OBJ file: `v x y z` positions, `vt u v` texture coordinates,
/// `f` faces of one-based `a/b/c` corners, and `usemtl name` for the
/// texture; other lines are ignored. The error names the first malformed
/// line, counting from zero.
pub fn load_obj(data: &[u8]) -> (r: Result<ObjModel, AssetError>)
    ensures
        match parse_obj(data@) {
            Ok(m) => r is Ok && r->Ok_0@ == m,
            Err(line) => r == Err::<ObjModel, AssetError>(AssetError::MalformedMesh(line as usize)),
        },
{
    let lines = split(data, Separator::Newline);
    let ghost ls = views(lines@);
    let mut m = ObjModel {
        positions: Vec::new(),
        uvs: Vec::new(),
        faces: Vec::new(),
        texture: Vec::new(),
    };
    m.texture.push(0x6e);
    m.texture.push(0x6f);
    m.texture.push(0x6e);
    m.texture.push(0x65);
    assert(m@.positions =~= seq![]);
    assert(m@.uvs =~= seq![]);
    assert(m@.texture =~= default_texture());
    assert(m@ == empty_obj());
    assert(ls.subrange(0, 0) =~= Seq::<Seq<u8>>::empty());
    let mut i: usize = 0;
    while i < lines.len()
        invariant
            i <= lines@.len(),
            ls == views(lines@),
            ls == pieces(data@, Separator::Newline),
            parse_lines(ls.subrange(0, i as int)) == Ok::<ObjSpec, nat>(m@),
        decreases lines@.len() - i,
    {
        let words = split_tokens(lines[i].as_slice());
        proof {
            assert(ls.subrange(0, i as int + 1).drop_last() =~= ls.subrange(0, i as int));
            assert(ls.subrange(0, i as int + 1).last() == lines@[i as int]@);
        }
        if !apply_line(&mut m, words) {
            proof {
                lemma_error_persists(ls, i as int + 1, i as nat);
            }
            return Err(AssetError::MalformedMesh(i));
        }
        i = i + 1;
    }
    assert(ls.subrange(0, ls.len() as int) =~= ls);
    Ok(m)
}

} // verus!
