use crate::obj::{
    corner, digits_value, empty_obj, is_digit, keyword_f, keyword_usemtl, keyword_v, keyword_vt,
    nonempty, parse_lines, parse_obj, parse_usize, pieces, step, tokens, unsigned_digits,
    valid_index, Indice, ObjSpec, Separator,
};
use vstd::prelude::*;

verus! {

/// The parts written one after another with the byte `b` between each two.
pub open spec fn join(parts: Seq<Seq<u8>>, b: u8) -> Seq<u8>
    decreases parts.len(),
{
    if parts.len() == 0 {
        Seq::empty()
    } else if parts.len() == 1 {
        parts[0]
    } else {
        join(parts.drop_last(), b).push(b) + parts.last()
    }
}

/// No byte of `s` is a separator of the given kind.
pub open spec fn free_of(s: Seq<u8>, sep: Separator) -> bool {
    forall|i: int| 0 <= i < s.len() ==> !sep.spec_matches(#[trigger] s[i])
}

/// A word that a line can hold as it is: not empty, no whitespace.
pub open spec fn plain_word(w: Seq<u8>) -> bool {
    w.len() > 0 && free_of(w, Separator::Space)
}

/// A number in decimal, without leading zeros.
pub open spec fn decimal(n: nat) -> Seq<u8>
    decreases n,
{
    if n < 10 {
        seq![(0x30 + n) as u8]
    } else {
        decimal(n / 10).push((0x30 + n % 10) as u8)
    }
}

pub open spec fn v_line(p: (Seq<u8>, Seq<u8>, Seq<u8>)) -> Seq<u8> {
    join(seq![keyword_v(), p.0, p.1, p.2], 0x20)
}

pub open spec fn vt_line(t: (Seq<u8>, Seq<u8>)) -> Seq<u8> {
    join(seq![keyword_vt(), t.0, t.1], 0x20)
}

pub open spec fn usemtl_line(name: Seq<u8>) -> Seq<u8> {
    join(seq![keyword_usemtl(), name], 0x20)
}

/// A corner as `a/b`, both indices counted from one.
pub open spec fn corner_word(c: (usize, usize)) -> Seq<u8> {
    join(seq![decimal((c.0 + 1) as nat), decimal((c.1 + 1) as nat)], 0x2f)
}

pub open spec fn f_line(f: Indice) -> Seq<u8> {
    join(seq![keyword_f(), corner_word(f.0), corner_word(f.1), corner_word(f.2)], 0x20)
}

/// The lines of a model's OBJ text: positions, texture coordinates, the
/// texture name, faces.
pub open spec fn model_lines(m: ObjSpec) -> Seq<Seq<u8>> {
    m.positions.map_values(|p: (Seq<u8>, Seq<u8>, Seq<u8>)| v_line(p)) + m.uvs.map_values(
        |t: (Seq<u8>, Seq<u8>)| vt_line(t),
    ) + seq![usemtl_line(m.texture)] + m.faces.map_values(|f: Indice| f_line(f))
}

/// A model written as OBJ text, every line ended by a line feed.
pub open spec fn obj_text(m: ObjSpec) -> Seq<u8> {
    join(model_lines(m).push(Seq::empty()), 0x0a)
}

/// A model that its text can carry: every word plain, and every index one
/// below a `usize`.
pub open spec fn writable(m: ObjSpec) -> bool {
    &&& forall|i: int|
        0 <= i < m.positions.len() ==> plain_word((#[trigger] m.positions[i]).0) && plain_word(
            m.positions[i].1,
        ) && plain_word(m.positions[i].2)
    &&& forall|i: int|
        0 <= i < m.uvs.len() ==> plain_word((#[trigger] m.uvs[i]).0) && plain_word(m.uvs[i].1)
    &&& plain_word(m.texture)
    &&& forall|i: int|
        0 <= i < m.faces.len() ==> small_corner((#[trigger] m.faces[i]).0) && small_corner(
            m.faces[i].1,
        ) && small_corner(m.faces[i].2)
}

pub open spec fn small_corner(c: (usize, usize)) -> bool {
    c.0 < usize::MAX && c.1 < usize::MAX
}

proof fn lemma_pieces_append_plain(s: Seq<u8>, t: Seq<u8>, sep: Separator)
    requires
        free_of(t, sep),
    ensures
        pieces(s + t, sep) == pieces(s, sep).update(
            pieces(s, sep).len() - 1,
            pieces(s, sep).last() + t,
        ),
    decreases t.len(),
{
    crate::obj::lemma_pieces_nonempty(s, sep);
    if t.len() == 0 {
        assert(s + t =~= s);
        assert(pieces(s, sep).last() + t =~= pieces(s, sep).last());
        assert(pieces(s, sep).update(pieces(s, sep).len() - 1, pieces(s, sep).last())
            =~= pieces(s, sep));
    } else {
        let u = t.drop_last();
        assert(free_of(u, sep)) by {
            assert forall|i: int| 0 <= i < u.len() implies !sep.spec_matches(#[trigger] u[i]) by {
                assert(u[i] == t[i]);
            }
        }
        lemma_pieces_append_plain(s, u, sep);
        assert((s + t).drop_last() =~= s + u);
        assert((s + t).last() == t.last());
        assert(!sep.spec_matches(t[t.len() - 1]));
        crate::obj::lemma_pieces_nonempty(s + u, sep);
        assert(pieces(s + t, sep) =~= pieces(s, sep).update(
            pieces(s, sep).len() - 1,
            pieces(s, sep).last() + t,
        )) by {
            assert(pieces(s, sep).last() + u + seq![t.last()] =~= pieces(s, sep).last() + t);
            assert((pieces(s, sep).last() + u).push(t.last()) =~= pieces(s, sep).last() + t);
        }
    }
}

proof fn lemma_pieces_join(parts: Seq<Seq<u8>>, b: u8, sep: Separator)
    requires
        parts.len() >= 1,
        sep.spec_matches(b),
        forall|i: int| 0 <= i < parts.len() ==> free_of(#[trigger] parts[i], sep),
    ensures
        pieces(join(parts, b), sep) == parts,
    decreases parts.len(),
{
    if parts.len() == 1 {
        lemma_pieces_append_plain(Seq::empty(), parts[0], sep);
        assert(Seq::<u8>::empty() + parts[0] =~= parts[0]);
        assert(pieces(Seq::<u8>::empty(), sep) == seq![Seq::<u8>::empty()]);
        assert(pieces(join(parts, b), sep) =~= parts);
    } else {
        let front = parts.drop_last();
        assert forall|i: int| 0 <= i < front.len() implies free_of(#[trigger] front[i], sep) by {
            assert(front[i] == parts[i]);
        }
        lemma_pieces_join(front, b, sep);
        let s = join(front, b).push(b);
        assert(s.drop_last() =~= join(front, b));
        assert(pieces(s, sep) == front.push(Seq::empty()));
        assert(free_of(parts.last(), sep));
        lemma_pieces_append_plain(s, parts.last(), sep);
        assert(Seq::<u8>::empty() + parts.last() =~= parts.last());
        assert(pieces(join(parts, b), sep) =~= parts);
    }
}

proof fn lemma_join_free(parts: Seq<Seq<u8>>, b: u8, sep: Separator)
    requires
        !sep.spec_matches(b),
        forall|i: int| 0 <= i < parts.len() ==> free_of(#[trigger] parts[i], sep),
    ensures
        free_of(join(parts, b), sep),
    decreases parts.len(),
{
    if parts.len() == 1 {
        assert(free_of(parts[0], sep));
    } else if parts.len() > 1 {
        let front = parts.drop_last();
        assert forall|i: int| 0 <= i < front.len() implies free_of(#[trigger] front[i], sep) by {
            assert(front[i] == parts[i]);
        }
        lemma_join_free(front, b, sep);
        let whole = join(front, b).push(b) + parts.last();
        assert(free_of(parts.last(), sep));
        assert forall|i: int| 0 <= i < whole.len() implies !sep.spec_matches(#[trigger] whole[i]) by {
            if i < join(front, b).len() {
                assert(whole[i] == join(front, b)[i]);
            } else if i == join(front, b).len() {
                assert(whole[i] == b);
            } else {
                assert(whole[i] == parts.last()[i - join(front, b).len() - 1]);
            }
        }
    }
}

proof fn lemma_nonempty_keeps(ps: Seq<Seq<u8>>)
    requires
        forall|i: int| 0 <= i < ps.len() ==> (#[trigger] ps[i]).len() > 0,
    ensures
        nonempty(ps) == ps,
    decreases ps.len(),
{
    if ps.len() > 0 {
        let front = ps.drop_last();
        assert forall|i: int| 0 <= i < front.len() implies (#[trigger] front[i]).len() > 0 by {
            assert(front[i] == ps[i]);
        }
        lemma_nonempty_keeps(front);
        assert(ps.last().len() > 0);
        assert(front.push(ps.last()) =~= ps);
    }
}

/// The words of a line of plain words joined by spaces are those words.
proof fn lemma_tokens_of_words(words: Seq<Seq<u8>>)
    requires
        words.len() >= 1,
        forall|i: int| 0 <= i < words.len() ==> plain_word(#[trigger] words[i]),
    ensures
        tokens(join(words, 0x20)) == words,
        free_of(join(words, 0x20), Separator::Newline),
{
    assert forall|i: int| 0 <= i < words.len() implies free_of(#[trigger] words[i], Separator::Space) by {
        assert(plain_word(words[i]));
    }
    lemma_pieces_join(words, 0x20, Separator::Space);
    lemma_nonempty_keeps(words);
    assert forall|i: int| 0 <= i < words.len() implies free_of(#[trigger] words[i], Separator::Newline) by {
        assert(plain_word(words[i]));
        assert forall|k: int| 0 <= k < words[i].len() implies !Separator::Newline.spec_matches(
            #[trigger] words[i][k],
        ) by {
            assert(!Separator::Space.spec_matches(words[i][k]));
        }
    }
    lemma_join_free(words, 0x20, Separator::Newline);
}

proof fn lemma_decimal(n: nat)
    ensures
        decimal(n).len() > 0,
        forall|i: int| 0 <= i < decimal(n).len() ==> is_digit(#[trigger] decimal(n)[i]),
        digits_value(decimal(n)) == n,
    decreases n,
{
    let d = decimal(n);
    if n >= 10 {
        lemma_decimal(n / 10);
        assert(d.drop_last() =~= decimal(n / 10));
        assert(forall|i: int| 0 <= i < d.len() - 1 ==> d[i] == decimal(n / 10)[i]);
        assert(d.last() == (0x30 + n % 10) as u8);
        assert((n / 10) * 10 + n % 10 == n) by (nonlinear_arith);
        assert(digits_value(d) == digits_value(decimal(n / 10)) * 10 + (n % 10));
    } else {
        assert(d.drop_last() =~= Seq::<u8>::empty());
        assert(d.last() == (0x30 + n) as u8);
        assert(digits_value(d) == digits_value(Seq::<u8>::empty()) * 10 + n);
    }
}

proof fn lemma_parse_decimal(n: nat)
    requires
        1 <= n <= usize::MAX,
    ensures
        parse_usize(decimal(n)) == Some(n),
        valid_index(decimal(n)),
        plain_word(decimal(n)),
        free_of(decimal(n), Separator::Slash),
{
    lemma_decimal(n);
    let d = decimal(n);
    assert(is_digit(d[0]));
    assert(unsigned_digits(d) == d);
    assert forall|i: int| 0 <= i < d.len() implies !Separator::Space.spec_matches(#[trigger] d[i]) by {
        assert(is_digit(d[i]));
    }
    assert forall|i: int| 0 <= i < d.len() implies !Separator::Slash.spec_matches(#[trigger] d[i]) by {
        assert(is_digit(d[i]));
    }
}

proof fn lemma_corner_word(c: (usize, usize))
    requires
        small_corner(c),
    ensures
        corner(corner_word(c)) == Some(c),
        plain_word(corner_word(c)),
{
    lemma_parse_decimal((c.0 + 1) as nat);
    lemma_parse_decimal((c.1 + 1) as nat);
    let parts = seq![decimal((c.0 + 1) as nat), decimal((c.1 + 1) as nat)];
    assert forall|i: int| 0 <= i < parts.len() implies free_of(#[trigger] parts[i], Separator::Slash) by {}
    lemma_pieces_join(parts, 0x2f, Separator::Slash);
    assert forall|i: int| 0 <= i < parts.len() implies valid_index(#[trigger] parts[i]) by {}
    assert forall|i: int| 0 <= i < parts.len() implies free_of(#[trigger] parts[i], Separator::Space) by {
        assert(plain_word(parts[i]));
    }
    lemma_join_free(parts, 0x2f, Separator::Space);
    assert(parts.drop_last() =~= seq![decimal((c.0 + 1) as nat)]);
    assert(join(parts.drop_last(), 0x2f) == decimal((c.0 + 1) as nat));
    assert(parts.last() == decimal((c.1 + 1) as nat));
    assert(join(parts, 0x2f) =~= decimal((c.0 + 1) as nat).push(0x2f) + decimal((c.1 + 1) as nat));
}

proof fn lemma_keywords_plain()
    ensures
        plain_word(keyword_v()),
        plain_word(keyword_vt()),
        plain_word(keyword_f()),
        plain_word(keyword_usemtl()),
        keyword_v() != keyword_vt(),
        keyword_v() != keyword_f(),
        keyword_v() != keyword_usemtl(),
        keyword_vt() != keyword_f(),
        keyword_vt() != keyword_usemtl(),
        keyword_f() != keyword_usemtl(),
{
    assert(keyword_v().len() != keyword_vt().len());
    assert(keyword_v()[0] != keyword_f()[0]);
    assert(keyword_v().len() != keyword_usemtl().len());
    assert(keyword_vt().len() != keyword_f().len());
    assert(keyword_vt().len() != keyword_usemtl().len());
    assert(keyword_f().len() != keyword_usemtl().len());
}

proof fn lemma_parse_push(ls: Seq<Seq<u8>>, line: Seq<u8>, m: ObjSpec)
    requires
        parse_lines(ls) == Ok::<ObjSpec, nat>(m),
    ensures
        parse_lines(ls.push(line)) == match step(m, tokens(line)) {
            Some(n) => Ok::<ObjSpec, nat>(n),
            None => Err(ls.len()),
        },
{
    assert(ls.push(line).drop_last() =~= ls);
}

proof fn lemma_positions(ls: Seq<Seq<u8>>, m: ObjSpec, ps: Seq<(Seq<u8>, Seq<u8>, Seq<u8>)>)
    requires
        parse_lines(ls) == Ok::<ObjSpec, nat>(m),
        forall|i: int|
            0 <= i < ps.len() ==> plain_word((#[trigger] ps[i]).0) && plain_word(ps[i].1)
                && plain_word(ps[i].2),
    ensures
        parse_lines(ls + ps.map_values(|p: (Seq<u8>, Seq<u8>, Seq<u8>)| v_line(p)))
            == Ok::<ObjSpec, nat>(ObjSpec { positions: m.positions + ps, ..m }),
    decreases ps.len(),
{
    let lines = ps.map_values(|p: (Seq<u8>, Seq<u8>, Seq<u8>)| v_line(p));
    if ps.len() == 0 {
        assert(ls + lines =~= ls);
        assert(m.positions + ps =~= m.positions);
    } else {
        let front = ps.drop_last();
        assert forall|i: int| 0 <= i < front.len() implies plain_word((#[trigger] front[i]).0)
            && plain_word(front[i].1) && plain_word(front[i].2) by {
            assert(front[i] == ps[i]);
        }
        lemma_positions(ls, m, front);
        let before = ls + front.map_values(|p: (Seq<u8>, Seq<u8>, Seq<u8>)| v_line(p));
        let n = ObjSpec { positions: m.positions + front, ..m };
        let p = ps.last();
        assert(ls + lines =~= before.push(v_line(p)));
        lemma_parse_push(before, v_line(p), n);
        lemma_keywords_plain();
        let words = seq![keyword_v(), p.0, p.1, p.2];
        assert forall|i: int| 0 <= i < words.len() implies plain_word(#[trigger] words[i]) by {}
        lemma_tokens_of_words(words);
        assert(n.positions.push((p.0, p.1, p.2)) =~= m.positions + ps);
    }
}

proof fn lemma_uvs(ls: Seq<Seq<u8>>, m: ObjSpec, ts: Seq<(Seq<u8>, Seq<u8>)>)
    requires
        parse_lines(ls) == Ok::<ObjSpec, nat>(m),
        forall|i: int| 0 <= i < ts.len() ==> plain_word((#[trigger] ts[i]).0) && plain_word(ts[i].1),
    ensures
        parse_lines(ls + ts.map_values(|t: (Seq<u8>, Seq<u8>)| vt_line(t))) == Ok::<ObjSpec, nat>(
            ObjSpec { uvs: m.uvs + ts, ..m },
        ),
    decreases ts.len(),
{
    let lines = ts.map_values(|t: (Seq<u8>, Seq<u8>)| vt_line(t));
    if ts.len() == 0 {
        assert(ls + lines =~= ls);
        assert(m.uvs + ts =~= m.uvs);
    } else {
        let front = ts.drop_last();
        assert forall|i: int| 0 <= i < front.len() implies plain_word((#[trigger] front[i]).0)
            && plain_word(front[i].1) by {
            assert(front[i] == ts[i]);
        }
        lemma_uvs(ls, m, front);
        let before = ls + front.map_values(|t: (Seq<u8>, Seq<u8>)| vt_line(t));
        let n = ObjSpec { uvs: m.uvs + front, ..m };
        let t = ts.last();
        assert(ls + lines =~= before.push(vt_line(t)));
        lemma_parse_push(before, vt_line(t), n);
        lemma_keywords_plain();
        let words = seq![keyword_vt(), t.0, t.1];
        assert forall|i: int| 0 <= i < words.len() implies plain_word(#[trigger] words[i]) by {}
        lemma_tokens_of_words(words);
        assert(n.uvs.push((t.0, t.1)) =~= m.uvs + ts);
    }
}

proof fn lemma_faces(ls: Seq<Seq<u8>>, m: ObjSpec, fs: Seq<Indice>)
    requires
        parse_lines(ls) == Ok::<ObjSpec, nat>(m),
        forall|i: int|
            0 <= i < fs.len() ==> small_corner((#[trigger] fs[i]).0) && small_corner(fs[i].1)
                && small_corner(fs[i].2),
    ensures
        parse_lines(ls + fs.map_values(|f: Indice| f_line(f))) == Ok::<ObjSpec, nat>(
            ObjSpec { faces: m.faces + fs, ..m },
        ),
    decreases fs.len(),
{
    let lines = fs.map_values(|f: Indice| f_line(f));
    if fs.len() == 0 {
        assert(ls + lines =~= ls);
        assert(m.faces + fs =~= m.faces);
    } else {
        let front = fs.drop_last();
        assert forall|i: int| 0 <= i < front.len() implies small_corner((#[trigger] front[i]).0)
            && small_corner(front[i].1) && small_corner(front[i].2) by {
            assert(front[i] == fs[i]);
        }
        lemma_faces(ls, m, front);
        let before = ls + front.map_values(|f: Indice| f_line(f));
        let n = ObjSpec { faces: m.faces + front, ..m };
        let f = fs.last();
        assert(ls + lines =~= before.push(f_line(f)));
        lemma_parse_push(before, f_line(f), n);
        lemma_keywords_plain();
        lemma_corner_word(f.0);
        lemma_corner_word(f.1);
        lemma_corner_word(f.2);
        let words = seq![keyword_f(), corner_word(f.0), corner_word(f.1), corner_word(f.2)];
        assert forall|i: int| 0 <= i < words.len() implies plain_word(#[trigger] words[i]) by {}
        lemma_tokens_of_words(words);
        let t = tokens(f_line(f));
        assert(forall|i: int| 1 <= i < t.len() ==> (#[trigger] corner(t[i])) is Some);
        assert(n.faces.push((f.0, f.1, f.2)) =~= m.faces + fs);
    }
}

proof fn lemma_line_free(m: ObjSpec, i: int)
    requires
        writable(m),
        0 <= i <= model_lines(m).len(),
    ensures
        free_of(model_lines(m).push(Seq::empty())[i], Separator::Newline),
{
    let all = model_lines(m).push(Seq::empty());
    let np = m.positions.len() as int;
    let nu = m.uvs.len() as int;
    lemma_keywords_plain();
    if i < np {
        let p = m.positions[i];
        assert(all[i] == v_line(p));
        let words = seq![keyword_v(), p.0, p.1, p.2];
        assert forall|k: int| 0 <= k < words.len() implies plain_word(#[trigger] words[k]) by {}
        lemma_tokens_of_words(words);
    } else if i < np + nu {
        let t = m.uvs[i - np];
        assert(all[i] == vt_line(t));
        let words = seq![keyword_vt(), t.0, t.1];
        assert forall|k: int| 0 <= k < words.len() implies plain_word(#[trigger] words[k]) by {}
        lemma_tokens_of_words(words);
    } else if i == np + nu {
        assert(all[i] == usemtl_line(m.texture));
        let words = seq![keyword_usemtl(), m.texture];
        assert forall|k: int| 0 <= k < words.len() implies plain_word(#[trigger] words[k]) by {}
        lemma_tokens_of_words(words);
    } else if i < model_lines(m).len() {
        let f = m.faces[i - np - nu - 1];
        assert(all[i] == f_line(f));
        lemma_corner_word(f.0);
        lemma_corner_word(f.1);
        lemma_corner_word(f.2);
        let words = seq![keyword_f(), corner_word(f.0), corner_word(f.1), corner_word(f.2)];
        assert forall|k: int| 0 <= k < words.len() implies plain_word(#[trigger] words[k]) by {}
        lemma_tokens_of_words(words);
    } else {
        assert(all[i] == Seq::<u8>::empty());
    }
}

/// Reading back the OBJ text of a model whose words are plain and whose
/// indices fit gives the model again: the same positions, texture
/// coordinates and faces in the same order, and the same texture name.
pub proof fn lemma_obj_round_trip(m: ObjSpec)
    requires
        writable(m),
    ensures
        parse_obj(obj_text(m)) == Ok::<ObjSpec, nat>(m),
{
    let empty: Seq<Seq<u8>> = Seq::empty();
    assert(parse_lines(empty) == Ok::<ObjSpec, nat>(empty_obj()));
    let e = empty_obj();
    lemma_positions(empty, e, m.positions);
    let ls1 = empty + m.positions.map_values(|p: (Seq<u8>, Seq<u8>, Seq<u8>)| v_line(p));
    let m1 = ObjSpec { positions: e.positions + m.positions, ..e };
    lemma_uvs(ls1, m1, m.uvs);
    let ls2 = ls1 + m.uvs.map_values(|t: (Seq<u8>, Seq<u8>)| vt_line(t));
    let m2 = ObjSpec { uvs: m1.uvs + m.uvs, ..m1 };
    lemma_parse_push(ls2, usemtl_line(m.texture), m2);
    lemma_keywords_plain();
    let words = seq![keyword_usemtl(), m.texture];
    assert forall|i: int| 0 <= i < words.len() implies plain_word(#[trigger] words[i]) by {}
    lemma_tokens_of_words(words);
    let ls3 = ls2.push(usemtl_line(m.texture));
    let m3 = ObjSpec { texture: m.texture, ..m2 };
    lemma_faces(ls3, m3, m.faces);
    let ls4 = ls3 + m.faces.map_values(|f: Indice| f_line(f));
    assert(ls4 =~= model_lines(m));
    let m4 = ObjSpec { faces: m3.faces + m.faces, ..m3 };
    assert(m4 =~= m) by {
        assert(m4.positions =~= m.positions);
        assert(m4.uvs =~= m.uvs);
        assert(m4.faces =~= m.faces);
    }
    // Every line is free of line feeds, so the text splits back into them,
    // plus the empty piece after the last line feed.
    let all = ls4.push(Seq::empty());
    assert forall|i: int| 0 <= i < all.len() implies free_of(#[trigger] all[i], Separator::Newline) by {
        lemma_line_free(m, i);
    }
    lemma_pieces_join(all, 0x0a, Separator::Newline);
    lemma_parse_push(ls4, Seq::empty(), m);
    assert(pieces(Seq::<u8>::empty(), Separator::Space) == seq![Seq::<u8>::empty()]);
    assert(seq![Seq::<u8>::empty()].drop_last() =~= Seq::<Seq<u8>>::empty());
    assert(nonempty(seq![Seq::<u8>::empty()]) == nonempty(Seq::<Seq<u8>>::empty()));
    assert(tokens(Seq::empty()) =~= Seq::<Seq<u8>>::empty());
}

} // verus!
