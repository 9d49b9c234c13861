use crate::bytes::{
    index_of, is_space, lemma_index_of, lemma_lines_cons, lemma_trim_solid, lines, trim, trim_end,
    trim_start,
};
use crate::color::{Color, Resolution};
use crate::config::{
    background_key, color_text, comma, line_text, logo_path_key, padded, parse_color, parse_resolution,
    resolution_key, resolution_text, serialize_text, times, ConfigView,
};
use crate::decimal::{all_digits, decimal, is_digit, lemma_decimal_round_trip};
use crate::keyvalue::{parse_line, parse_lines, parse_text, LineKind};
use crate::record::{record_released, RecordView};
use crate::store::{
    dirty_text, key_index, lemma_key_index_bounds, load_entries, lookup, released, typed_from, upsert,
    EntryView, StoreView,
};
use crate::menu::{next_state, Key, MenuState};
use crate::surface::{blitted, lemma_index_fits, lemma_index_injective, SourcePixel, SurfaceView};
use vstd::prelude::*;

verus! {

/// Non-empty, and neither starts nor ends with whitespace.
pub open spec fn solid(s: Seq<u8>) -> bool {
    s.len() > 0 && !is_space(s[0]) && !is_space(s.last())
}

/// Holds no comment mark, no `=` and no line feed.
pub open spec fn plain(s: Seq<u8>) -> bool {
    forall|j: int| 0 <= j < s.len() ==> #[trigger] s[j] != 0x23 && s[j] != 0x3d && s[j] != 0x0a
}

/// A logo path that the text format can hold: plain, and empty or solid.
pub open spec fn path_writable(p: Seq<u8>) -> bool {
    plain(p) && (p.len() == 0 || solid(p))
}

/// A record whose fields are all validly set for the text format.
pub open spec fn text_valid(d: ConfigView) -> bool {
    &&& d.resolution.width > 0
    &&& d.resolution.height > 0
    &&& path_writable(d.logo_path)
}

proof fn lemma_trim_padded(x: Seq<u8>)
    requires
        solid(x),
    ensures
        trim(x) == x,
        trim(seq![0x20u8] + x) == x,
        trim(x + seq![0x20u8]) == x,
{
    lemma_trim_solid(x);
    let a = seq![0x20u8] + x;
    assert(a.drop_first() =~= x);
    assert(trim_start(a) == trim_start(x));
    let b = x + seq![0x20u8];
    assert(b[0] == x[0]);
    assert(trim_start(b) == b);
    assert(b.drop_last() =~= x);
    assert(trim_end(b) == trim_end(x));
}

proof fn lemma_digits_solid(d: Seq<u8>)
    requires
        d.len() > 0,
        all_digits(d),
    ensures
        solid(d),
        forall|j: int| 0 <= j < d.len() ==> #[trigger] d[j] != comma() && d[j] != times() && d[j] != 0x23
            && d[j] != 0x3d && d[j] != 0x0a,
{
    assert(is_digit(d[0]));
    assert(is_digit(d[d.len() - 1]));
    assert forall|j: int| 0 <= j < d.len() implies #[trigger] d[j] != comma() && d[j] != times() && d[j] != 0x23
        && d[j] != 0x3d && d[j] != 0x0a by {
        assert(is_digit(d[j]));
    }
}

proof fn lemma_color_round_trip(c: Color)
    ensures
        parse_color(color_text(c)) == Some(c),
        solid(color_text(c)),
        plain(color_text(c)),
{
    let d1 = decimal(c.r as nat);
    let d2 = decimal(c.g as nat);
    let d3 = decimal(c.b as nat);
    lemma_decimal_round_trip(c.r as nat);
    lemma_decimal_round_trip(c.g as nat);
    lemma_decimal_round_trip(c.b as nat);
    lemma_digits_solid(d1);
    lemma_digits_solid(d2);
    lemma_digits_solid(d3);
    let sep = seq![comma(), 0x20u8];
    let t = color_text(c);
    assert(t == d1 + sep + d2 + sep + d3);
    assert forall|j: int| 0 <= j < d1.len() implies t[j] != comma() by {
        assert(t[j] == d1[j]);
    }
    lemma_index_of(t, comma(), d1.len() as int);
    let i = d1.len() as int;
    let rest = t.subrange(i + 1, t.len() as int);
    assert(rest =~= seq![0x20u8] + d2 + sep + d3);
    assert forall|j: int| 0 <= j < 1 + d2.len() implies rest[j] != comma() by {
        if j > 0 {
            assert(rest[j] == d2[j - 1]);
        }
    }
    lemma_index_of(rest, comma(), 1 + d2.len() as int);
    let j = 1 + d2.len() as int;
    let third = rest.subrange(j + 1, rest.len() as int);
    assert(third =~= seq![0x20u8] + d3);
    assert forall|m: int| 0 <= m < third.len() implies third[m] != comma() by {
        if m > 0 {
            assert(third[m] == d3[m - 1]);
        }
    }
    lemma_index_of(third, comma(), third.len() as int);
    assert(t.subrange(0, i) =~= d1);
    assert(rest.subrange(0, j) =~= seq![0x20u8] + d2);
    lemma_trim_padded(d1);
    lemma_trim_padded(d2);
    lemma_trim_padded(d3);
    assert(t[0] == d1[0]);
    assert(t.last() == d3.last());
    assert forall|m: int| 0 <= m < t.len() implies #[trigger] t[m] != 0x23 && t[m] != 0x3d && t[m] != 0x0a by {
        if m < d1.len() {
            assert(t[m] == d1[m]);
        } else if m < d1.len() + 2 {
        } else if m < d1.len() + 2 + d2.len() {
            assert(t[m] == d2[m - d1.len() - 2]);
        } else if m < d1.len() + 4 + d2.len() {
        } else {
            assert(t[m] == d3[m - d1.len() - 4 - d2.len()]);
        }
    }
}

proof fn lemma_resolution_round_trip(r: Resolution)
    requires
        r.width > 0,
        r.height > 0,
    ensures
        parse_resolution(resolution_text(r)) == Some(r),
        solid(resolution_text(r)),
        plain(resolution_text(r)),
{
    let dw = decimal(r.width as nat);
    let dh = decimal(r.height as nat);
    lemma_decimal_round_trip(r.width as nat);
    lemma_decimal_round_trip(r.height as nat);
    lemma_digits_solid(dw);
    lemma_digits_solid(dh);
    let t = resolution_text(r);
    assert forall|j: int| 0 <= j < dw.len() implies t[j] != times() by {
        assert(t[j] == dw[j]);
    }
    lemma_index_of(t, times(), dw.len() as int);
    assert(t.subrange(0, dw.len() as int) =~= dw);
    assert(t.subrange(dw.len() as int + 1, t.len() as int) =~= dh);
    lemma_trim_padded(dw);
    lemma_trim_padded(dh);
    assert(t[0] == dw[0]);
    assert(t.last() == dh.last());
    assert forall|m: int| 0 <= m < t.len() implies #[trigger] t[m] != 0x23 && t[m] != 0x3d && t[m] != 0x0a by {
        if m < dw.len() {
            assert(t[m] == dw[m]);
        } else if m > dw.len() {
            assert(t[m] == dh[m - dw.len() - 1]);
        }
    }
}

pub open spec fn line_body(k: Seq<u8>, v: Seq<u8>) -> Seq<u8> {
    k + seq![0x20u8, 0x3d] + (if v.len() > 0 { seq![0x20u8] + v } else { Seq::empty() })
}

proof fn lemma_parse_line_body(k: Seq<u8>, v: Seq<u8>)
    requires
        solid(k),
        plain(k),
        path_writable(v),
    ensures
        parse_line(line_body(k, v)) == LineKind::Pair(k, v),
        line_text(k, v) == line_body(k, v) + seq![0x0au8],
        forall|j: int| 0 <= j < line_body(k, v).len() ==> #[trigger] line_body(k, v)[j] != 0x0a,
{
    let opt: Seq<u8> = if v.len() > 0 { seq![0x20u8] + v } else { Seq::empty() };
    let body = line_body(k, v);
    assert(body == k + seq![0x20u8, 0x3d] + opt);
    assert(line_text(k, v) =~= body + seq![0x0au8]);
    let kl = k.len() as int;
    assert forall|j: int| 0 <= j < opt.len() implies #[trigger] opt[j] != 0x23 && opt[j] != 0x3d && opt[j] != 0x0a by {
        if j > 0 {
            assert(opt[j] == v[j - 1]);
        }
    }
    assert forall|j: int| 0 <= j < body.len() implies #[trigger] body[j] != 0x23 && body[j] != 0x0a
        && (body[j] == 0x3d <==> j == kl + 1) by {
        if j < kl {
            assert(body[j] == k[j]);
        } else if j >= kl + 2 {
            assert(body[j] == opt[j - kl - 2]);
        }
    }
    lemma_index_of(body, 0x23, body.len() as int);
    assert(body.subrange(0, body.len() as int) =~= body);
    assert(body[0] == k[0]);
    if v.len() > 0 {
        assert(body.last() == v.last());
    }
    lemma_trim_solid(body);
    lemma_index_of(body, 0x3d, kl + 1);
    let rest = body.subrange(kl + 2, body.len() as int);
    assert(rest =~= opt);
    lemma_index_of(rest, 0x3d, rest.len() as int);
    assert(body.subrange(0, kl + 1) =~= k + seq![0x20u8]);
    lemma_trim_padded(k);
    if v.len() > 0 {
        lemma_trim_padded(v);
    } else {
        assert(trim(opt) == opt);
    }
    assert(index_of(body, 0x23) == body.len());
    assert(trim(body) == body);
    let c = body.subrange(0, index_of(body, 0x23));
    assert(c == body);
    assert(index_of(c, 0x3d) == kl + 1);
    assert(c.subrange(kl + 2, c.len() as int) == opt);
    assert(trim(c.subrange(0, kl + 1)) == k);
    assert(trim(opt) == v);
}

proof fn lemma_lines_of_text(d: ConfigView)
    requires
        text_valid(d),
    ensures
        lines(serialize_text(d)) == seq![
            line_body(background_key(), color_text(d.background)),
            line_body(logo_path_key(), d.logo_path),
            line_body(resolution_key(), resolution_text(d.resolution)),
            Seq::<u8>::empty()
        ],
        parse_line(line_body(background_key(), color_text(d.background)))
            == LineKind::Pair(background_key(), color_text(d.background)),
        parse_line(line_body(logo_path_key(), d.logo_path)) == LineKind::Pair(logo_path_key(), d.logo_path),
        parse_line(line_body(resolution_key(), resolution_text(d.resolution)))
            == LineKind::Pair(resolution_key(), resolution_text(d.resolution)),
{
    let bk = background_key();
    let lk = logo_path_key();
    let rk = resolution_key();
    assert(solid(bk) && plain(bk)) by {
        assert forall|j: int| 0 <= j < bk.len() implies #[trigger] bk[j] != 0x23 && bk[j] != 0x3d && bk[j] != 0x0a by {}
    }
    assert(solid(lk) && plain(lk)) by {
        assert forall|j: int| 0 <= j < lk.len() implies #[trigger] lk[j] != 0x23 && lk[j] != 0x3d && lk[j] != 0x0a by {}
    }
    assert(solid(rk) && plain(rk)) by {
        assert forall|j: int| 0 <= j < rk.len() implies #[trigger] rk[j] != 0x23 && rk[j] != 0x3d && rk[j] != 0x0a by {}
    }
    let ct = color_text(d.background);
    let rt = resolution_text(d.resolution);
    lemma_color_round_trip(d.background);
    lemma_resolution_round_trip(d.resolution);
    lemma_parse_line_body(bk, ct);
    lemma_parse_line_body(lk, d.logo_path);
    lemma_parse_line_body(rk, rt);
    let b1 = line_body(bk, ct);
    let b2 = line_body(lk, d.logo_path);
    let b3 = line_body(rk, rt);
    let nl = seq![0x0au8];
    let e = Seq::<u8>::empty();
    assert(serialize_text(d) =~= b1 + nl + (b2 + nl + (b3 + nl + e)));
    lemma_lines_cons(b1, b2 + nl + (b3 + nl + e));
    lemma_lines_cons(b2, b3 + nl + e);
    lemma_lines_cons(b3, e);
    assert(lines(e) == seq![e]);
    assert(lines(serialize_text(d)) =~= seq![b1, b2, b3, e]);
}

/// Writing a validly set record in the text format and reading the text back
/// gives the same record.
pub proof fn lemma_text_round_trip(d: ConfigView)
    requires
        text_valid(d),
    ensures
        parse_text(serialize_text(d)) is Some,
        typed_from(load_entries(parse_text(serialize_text(d)).unwrap())) == d,
{
    let bk = background_key();
    let lk = logo_path_key();
    let rk = resolution_key();
    let ct = color_text(d.background);
    let rt = resolution_text(d.resolution);
    lemma_lines_of_text(d);
    let ls = lines(serialize_text(d));
    let e = Seq::<u8>::empty();
    assert(parse_line(e) is Blank) by {
        lemma_index_of(e, 0x23, 0);
        assert(e.subrange(0, 0) =~= e);
    }
    let l3 = seq![e];
    assert(ls.drop_first().drop_first().drop_first() =~= l3);
    assert(l3[0] == e);
    assert(l3.drop_first() =~= Seq::<Seq<u8>>::empty());
    assert(parse_lines(l3.drop_first()) == Some(Seq::<(Seq<u8>, Seq<u8>)>::empty()));
    assert(parse_lines(l3) == Some(Seq::<(Seq<u8>, Seq<u8>)>::empty()));
    let ps = seq![(bk, ct), (lk, d.logo_path), (rk, rt)];
    assert(parse_lines(ls.drop_first().drop_first()) =~= Some(seq![(rk, rt)]));
    assert(parse_lines(ls.drop_first()) =~= Some(seq![(lk, d.logo_path), (rk, rt)]));
    assert(parse_lines(ls) =~= Some(ps));
    assert(bk[0] != lk[0] && bk[0] != rk[0] && lk[0] != rk[0]);
    let e0 = Seq::<EntryView>::empty();
    let e1 = upsert(e0, bk, ct, false);
    assert(ps.drop_last().drop_last().drop_last() =~= Seq::<(Seq<u8>, Seq<u8>)>::empty());
    assert(ps.drop_last().drop_last() =~= seq![(bk, ct)]);
    assert(ps.drop_last() =~= seq![(bk, ct), (lk, d.logo_path)]);
    assert(e1 =~= seq![(bk, ct, false)]);
    assert(key_index(e1.drop_first(), lk) == 0);
    let e2 = upsert(e1, lk, d.logo_path, false);
    assert(e2 =~= seq![(bk, ct, false), (lk, d.logo_path, false)]);
    assert(key_index(e2.drop_first().drop_first(), rk) == 0);
    assert(key_index(e2.drop_first(), rk) == 1);
    let e3 = upsert(e2, rk, rt, false);
    assert(e3 =~= seq![(bk, ct, false), (lk, d.logo_path, false), (rk, rt, false)]);
    assert(load_entries(ps.drop_last().drop_last().drop_last()) == e0);
    assert(load_entries(ps.drop_last().drop_last()) == e1);
    assert(load_entries(ps.drop_last()) == e2);
    assert(load_entries(ps) == e3);
    assert(key_index(e3, bk) == 0);
    assert(key_index(e3.drop_first(), lk) == 0);
    assert(key_index(e3, lk) == 1);
    assert(key_index(e3.drop_first().drop_first(), rk) == 0);
    assert(key_index(e3.drop_first(), rk) == 1);
    assert(key_index(e3, rk) == 2);
    assert(lookup(e3, bk) == Some(ct));
    assert(lookup(e3, lk) == Some(d.logo_path));
    assert(lookup(e3, rk) == Some(rt));
    lemma_color_round_trip(d.background);
    lemma_resolution_round_trip(d.resolution);
    let t = typed_from(e3);
    assert(t.background == d.background);
    assert(t.logo_path == d.logo_path);
    assert(t.resolution == d.resolution);
}

proof fn lemma_upsert_clean(es: Seq<EntryView>, k: Seq<u8>, v: Seq<u8>)
    requires
        forall|j: int| 0 <= j < es.len() ==> !(#[trigger] es[j]).2,
    ensures
        forall|j: int| 0 <= j < upsert(es, k, v, false).len() ==> !(#[trigger] upsert(es, k, v, false)[j]).2,
{
    lemma_key_index_bounds(es, k);
}

proof fn lemma_loaded_entries_clean(ps: Seq<(Seq<u8>, Seq<u8>)>)
    ensures
        forall|j: int| 0 <= j < load_entries(ps).len() ==> !(#[trigger] load_entries(ps)[j]).2,
    decreases ps.len(),
{
    if ps.len() > 0 {
        lemma_loaded_entries_clean(ps.drop_last());
        lemma_upsert_clean(load_entries(ps.drop_last()), ps.last().0, ps.last().1);
    }
}

proof fn lemma_dirty_text_clean(es: Seq<EntryView>)
    requires
        forall|j: int| 0 <= j < es.len() ==> !(#[trigger] es[j]).2,
    ensures
        dirty_text(es) == Seq::<u8>::empty(),
    decreases es.len(),
{
    if es.len() > 0 {
        lemma_dirty_text_clean(es.drop_last());
        assert(!es[es.len() - 1].2);
        assert(dirty_text(es) =~= Seq::<u8>::empty());
    }
}

proof fn lemma_dirty_text_single(es: Seq<EntryView>, i: int)
    requires
        0 <= i < es.len(),
        es[i].2,
        forall|j: int| 0 <= j < es.len() && j != i ==> !(#[trigger] es[j]).2,
    ensures
        dirty_text(es) == line_text(es[i].0, es[i].1),
    decreases es.len(),
{
    let last = es.len() - 1;
    if i == last {
        lemma_dirty_text_clean(es.drop_last());
        assert(dirty_text(es) =~= line_text(es[i].0, es[i].1));
    } else {
        lemma_dirty_text_single(es.drop_last(), i);
        assert(!es[last].2);
        assert(dirty_text(es) =~= line_text(es[i].0, es[i].1));
    }
}

/// A store just read from text writes nothing when released; after one
/// value is set in it, it writes the line of that entry alone, padded with
/// spaces to the old length.
pub proof fn lemma_text_dirty_tracking(ps: Seq<(Seq<u8>, Seq<u8>)>, stored_len: nat, k: Seq<u8>, v: Seq<u8>)
    ensures
        released(StoreView { entries: load_entries(ps), stored_len }) is None,
        released(StoreView { entries: upsert(load_entries(ps), k, v, true), stored_len })
            == Some(padded(line_text(k, v), stored_len)),
{
    let es = load_entries(ps);
    lemma_loaded_entries_clean(ps);
    lemma_key_index_bounds(es, k);
    let i = key_index(es, k);
    let after = upsert(es, k, v, true);
    assert(after[i] == (k, v, true));
    assert forall|j: int| 0 <= j < after.len() && j != i implies !(#[trigger] after[j]).2 by {
        assert(after[j] == es[j]);
    }
    lemma_dirty_text_single(after, i);
}

/// A record just read writes nothing when released; after one field is set,
/// it writes its whole encoding, padded with spaces to the old length.
pub proof fn lemma_record_dirty_tracking(d: ConfigView, stored_len: nat, encoded: Seq<u8>, r: Resolution)
    ensures
        record_released(RecordView { data: d, dirty: false, stored_len }, encoded) is None,
        record_released(RecordView { data: ConfigView { resolution: r, ..d }, dirty: true, stored_len }, encoded)
            == Some(padded(encoded, stored_len)),
{
}

/// A value that was set is what a later read returns.
pub proof fn lemma_get_after_set(es: Seq<EntryView>, k: Seq<u8>, v: Seq<u8>, dirty: bool)
    ensures
        lookup(upsert(es, k, v, dirty), k) == Some(v),
{
    lemma_key_index_bounds(es, k);
    let i = key_index(es, k);
    let after = upsert(es, k, v, dirty);
    if i < es.len() {
        assert forall|j: int| 0 <= j < i implies after[j].0 != k by {
            assert(after[j] == es[j]);
            assert(es[j].0 != k) by { lemma_key_index_prefix(es, k, j); }
        }
        crate::store::lemma_key_index(after, k, i);
    } else {
        assert forall|j: int| 0 <= j < i implies after[j].0 != k by {
            assert(after[j] == es[j]);
            lemma_key_index_prefix(es, k, j);
        }
        crate::store::lemma_key_index(after, k, i);
    }
}

proof fn lemma_key_index_prefix(es: Seq<EntryView>, k: Seq<u8>, j: int)
    requires
        0 <= j < key_index(es, k),
    ensures
        j < es.len(),
        es[j].0 != k,
    decreases es.len(),
{
    if es.len() > 0 && es[0].0 != k && j > 0 {
        lemma_key_index_prefix(es.drop_first(), k, j - 1);
    }
}

/// Replacing a text of length `old_len` with shorter content leaves exactly
/// that content followed by spaces, `old_len` bytes in all.
pub proof fn lemma_padding(content: Seq<u8>, old_len: nat)
    requires
        content.len() < old_len,
    ensures
        padded(content, old_len).len() == old_len,
        padded(content, old_len).subrange(0, content.len() as int) == content,
        forall|j: int| content.len() <= j < old_len ==> #[trigger] padded(content, old_len)[j] == 0x20u8,
{
    assert(padded(content, old_len).subrange(0, content.len() as int) =~= content);
}

/// A write at a position off the visible surface changes nothing.
pub proof fn lemma_write_outside(v: SurfaceView, x: int, y: int, color: u32)
    requires
        x < 0 || y < 0 || x >= v.width || y >= v.height,
    ensures
        v.written(x, y, color) == v,
{
}

/// Up from the first entry goes to the last, and Down from the last goes to
/// the first.
pub proof fn lemma_menu_wraparound(n: usize)
    requires
        n > 0,
    ensures
        next_state(n as nat, MenuState::Choosing(0), Key::Up) == MenuState::Choosing((n - 1) as usize),
        next_state(n as nat, MenuState::Choosing((n - 1) as usize), Key::Down) == MenuState::Choosing(0),
{
    let m = n as int;
    assert((0 + m - 1) % m == m - 1) by (nonlinear_arith) requires m > 0;
    assert((m - 1 + 1) % m == 0) by (nonlinear_arith) requires m > 0;
}

proof fn lemma_written_at(v: SurfaceView, x: int, y: int, c: u32, px: int, py: int)
    requires
        v.wf(),
        v.in_bounds(px, py),
    ensures
        v.written(x, y, c).wf(),
        v.written(x, y, c).same_shape(v),
        v.written(x, y, c).at(px, py) == (if x == px && y == py { c } else { v.at(px, py) }),
{
    lemma_index_fits(v, px, py);
    if v.in_bounds(x, y) {
        lemma_index_fits(v, x, y);
        if v.index(x, y) == v.index(px, py) {
            lemma_index_injective(v.stride as int, x, y, px, py);
        }
    }
}

proof fn lemma_blit_shape(v: SurfaceView, pixels: Seq<SourcePixel>, mask: u32, dx: int, dy: int)
    requires
        v.wf(),
    ensures
        blitted(v, pixels, mask, dx, dy).wf(),
        blitted(v, pixels, mask, dx, dy).same_shape(v),
    decreases pixels.len(),
{
    if pixels.len() > 0 {
        lemma_blit_shape(v, pixels.drop_last(), mask, dx, dy);
        let before = blitted(v, pixels.drop_last(), mask, dx, dy);
        let p = pixels.last();
        if before.in_bounds(p.x + dx, p.y + dy) {
            lemma_index_fits(before, p.x + dx, p.y + dy);
        }
    }
}

/// Where the pixel at position `j` of `pixels` lands.
pub open spec fn lands_at(pixels: Seq<SourcePixel>, j: int, dx: int, dy: int, x: int, y: int) -> bool {
    pixels[j].x + dx == x && pixels[j].y + dy == y
}

/// Pixels at distinct positions of the source land at distinct positions.
pub open spec fn distinct_positions(pixels: Seq<SourcePixel>) -> bool {
    forall|j: int, k: int| 0 <= j < pixels.len() && 0 <= k < pixels.len() && j != k
        ==> #[trigger] pixels[j].x != #[trigger] pixels[k].x || pixels[j].y != pixels[k].y
}

proof fn lemma_blit_untouched(v: SurfaceView, pixels: Seq<SourcePixel>, mask: u32, dx: int, dy: int, x: int, y: int)
    requires
        v.wf(),
        v.in_bounds(x, y),
        forall|j: int| 0 <= j < pixels.len() && lands_at(pixels, j, dx, dy, x, y) ==> #[trigger] pixels[j].color == mask,
    ensures
        blitted(v, pixels, mask, dx, dy).at(x, y) == v.at(x, y),
    decreases pixels.len(),
{
    if pixels.len() > 0 {
        let rest = pixels.drop_last();
        assert forall|j: int| 0 <= j < rest.len() && lands_at(rest, j, dx, dy, x, y) implies #[trigger] rest[j].color == mask by {
            assert(rest[j] == pixels[j]);
            assert(lands_at(pixels, j, dx, dy, x, y));
        }
        lemma_blit_untouched(v, rest, mask, dx, dy, x, y);
        lemma_blit_shape(v, rest, mask, dx, dy);
        let before = blitted(v, rest, mask, dx, dy);
        let p = pixels.last();
        assert(lands_at(pixels, pixels.len() - 1, dx, dy, x, y) ==> pixels[pixels.len() - 1].color == mask);
        lemma_written_at(before, p.x + dx, p.y + dy, p.color, x, y);
    }
}

/// Compositing a source whose pixels sit at distinct positions: where a pixel
/// lands on the surface, the surface takes its colour, unless the pixel has
/// the mask colour, in which case the surface keeps its old colour there.
/// Positions that no pixel reaches keep their colour.
pub proof fn lemma_masked_blit(v: SurfaceView, pixels: Seq<SourcePixel>, mask: u32, dx: int, dy: int, x: int, y: int)
    requires
        v.wf(),
        v.in_bounds(x, y),
        distinct_positions(pixels),
    ensures
        forall|j: int| 0 <= j < pixels.len() && lands_at(pixels, j, dx, dy, x, y) ==>
            blitted(v, pixels, mask, dx, dy).at(x, y) == (if #[trigger] pixels[j].color == mask {
                v.at(x, y)
            } else {
                pixels[j].color
            }),
        (forall|j: int| 0 <= j < pixels.len() ==> !#[trigger] lands_at(pixels, j, dx, dy, x, y))
            ==> blitted(v, pixels, mask, dx, dy).at(x, y) == v.at(x, y),
    decreases pixels.len(),
{
    lemma_blit_untouched_all(v, pixels, mask, dx, dy, x, y);
    if pixels.len() > 0 {
        let rest = pixels.drop_last();
        let last = pixels.len() - 1;
        let p = pixels.last();
        assert(distinct_positions(rest)) by {
            assert forall|j: int, k: int| 0 <= j < rest.len() && 0 <= k < rest.len() && j != k
                implies #[trigger] rest[j].x != #[trigger] rest[k].x || rest[j].y != rest[k].y by {
                assert(rest[j] == pixels[j] && rest[k] == pixels[k]);
            }
        }
        lemma_masked_blit(v, rest, mask, dx, dy, x, y);
        lemma_blit_shape(v, rest, mask, dx, dy);
        let before = blitted(v, rest, mask, dx, dy);
        lemma_written_at(before, p.x + dx, p.y + dy, p.color, x, y);
        assert forall|j: int| 0 <= j < pixels.len() && lands_at(pixels, j, dx, dy, x, y) implies
            blitted(v, pixels, mask, dx, dy).at(x, y) == (if #[trigger] pixels[j].color == mask {
                v.at(x, y)
            } else {
                pixels[j].color
            }) by {
            if j == last {
                assert forall|m: int| 0 <= m < rest.len() && lands_at(rest, m, dx, dy, x, y) implies #[trigger] rest[m].color == mask by {
                    assert(rest[m] == pixels[m]);
                    assert(pixels[m].x != pixels[last].x || pixels[m].y != pixels[last].y);
                }
                lemma_blit_untouched(v, rest, mask, dx, dy, x, y);
            } else {
                assert(rest[j] == pixels[j]);
                assert(lands_at(rest, j, dx, dy, x, y));
                assert(pixels[j].x != pixels[last].x || pixels[j].y != pixels[last].y);
            }
        }
    }
}

proof fn lemma_blit_untouched_all(v: SurfaceView, pixels: Seq<SourcePixel>, mask: u32, dx: int, dy: int, x: int, y: int)
    requires
        v.wf(),
        v.in_bounds(x, y),
    ensures
        (forall|j: int| 0 <= j < pixels.len() ==> !#[trigger] lands_at(pixels, j, dx, dy, x, y))
            ==> blitted(v, pixels, mask, dx, dy).at(x, y) == v.at(x, y),
{
    if forall|j: int| 0 <= j < pixels.len() ==> !#[trigger] lands_at(pixels, j, dx, dy, x, y) {
        lemma_blit_untouched(v, pixels, mask, dx, dy, x, y);
    }
}

} // verus!
