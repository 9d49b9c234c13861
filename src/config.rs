use crate::bytes::{find_byte, index_of, trim, trim_bounds, trim_start};
use crate::color::{Color, Resolution};
use crate::decimal::{decimal, parse_nat, parse_usize, write_decimal};
use vstd::prelude::*;

verus! {

/// `background`
pub open spec fn background_key() -> Seq<u8> {
    seq![0x62u8, 0x61, 0x63, 0x6b, 0x67, 0x72, 0x6f, 0x75, 0x6e, 0x64]
}

/// `logo_path`
pub open spec fn logo_path_key() -> Seq<u8> {
    seq![0x6cu8, 0x6f, 0x67, 0x6f, 0x5f, 0x70, 0x61, 0x74, 0x68]
}

/// `resolution`
pub open spec fn resolution_key() -> Seq<u8> {
    seq![0x72u8, 0x65, 0x73, 0x6f, 0x6c, 0x75, 0x74, 0x69, 0x6f, 0x6e]
}

pub fn background_key_bytes() -> (r: Vec<u8>)
    ensures
        r@ == background_key(),
{
    let r = vec![0x62u8, 0x61, 0x63, 0x6b, 0x67, 0x72, 0x6f, 0x75, 0x6e, 0x64];
    assert(r@ =~= background_key());
    r
}

pub fn logo_path_key_bytes() -> (r: Vec<u8>)
    ensures
        r@ == logo_path_key(),
{
    let r = vec![0x6cu8, 0x6f, 0x67, 0x6f, 0x5f, 0x70, 0x61, 0x74, 0x68];
    assert(r@ =~= logo_path_key());
    r
}

pub fn resolution_key_bytes() -> (r: Vec<u8>)
    ensures
        r@ == resolution_key(),
{
    let r = vec![0x72u8, 0x65, 0x73, 0x6f, 0x6c, 0x75, 0x74, 0x69, 0x6f, 0x6e];
    assert(r@ =~= resolution_key());
    r
}

pub open spec fn comma() -> u8 {
    0x2c
}

pub open spec fn times() -> u8 {
    0x78
}

/// A colour as `r, g, b` in decimal.
pub open spec fn color_text(c: Color) -> Seq<u8> {
    decimal(c.r as nat) + seq![comma(), 0x20u8] + decimal(c.g as nat) + seq![comma(), 0x20u8] + decimal(c.b as nat)
}

/// A resolution as `<width>x<height>` in decimal.
pub open spec fn resolution_text(r: Resolution) -> Seq<u8> {
    decimal(r.width as nat) + seq![times()] + decimal(r.height as nat)
}

/// One colour channel: a trimmed decimal number up to 255.
pub open spec fn channel(s: Seq<u8>) -> Option<u8> {
    match parse_nat(trim(s)) {
        Some(v) => if v <= 255 { Some(v as u8) } else { None },
        None => None,
    }
}

/// Three channels separated by two commas.
pub open spec fn parse_color(v: Seq<u8>) -> Option<Color> {
    let i = index_of(v, comma());
    let rest = v.subrange(i + 1, v.len() as int);
    let j = index_of(rest, comma());
    let third = rest.subrange(j + 1, rest.len() as int);
    if i >= v.len() || j >= rest.len() || index_of(third, comma()) < third.len() {
        None
    } else {
        match (channel(v.subrange(0, i)), channel(rest.subrange(0, j)), channel(third)) {
            (Some(r), Some(g), Some(b)) => Some(Color { r, g, b }),
            _ => None,
        }
    }
}

/// One side of a resolution: a trimmed positive decimal number.
pub open spec fn dimension(s: Seq<u8>) -> Option<usize> {
    match parse_nat(trim(s)) {
        Some(v) => if 0 < v <= usize::MAX { Some(v as usize) } else { None },
        None => None,
    }
}

/// Width and height separated by the first `x`.
pub open spec fn parse_resolution(v: Seq<u8>) -> Option<Resolution> {
    let i = index_of(v, times());
    if i >= v.len() {
        None
    } else {
        match (dimension(v.subrange(0, i)), dimension(v.subrange(i + 1, v.len() as int))) {
            (Some(width), Some(height)) => Some(Resolution { width, height }),
            _ => None,
        }
    }
}

fn parse_channel(v: &[u8], lo: usize, hi: usize) -> (r: Option<u8>)
    requires
        lo <= hi <= v@.len(),
    ensures
        r == channel(v@.subrange(lo as int, hi as int)),
{
    let (a, b) = trim_bounds(v, lo, hi);
    match parse_usize(v, a, b) {
        Some(n) => if n <= 255 { Some(n as u8) } else { None },
        None => None,
    }
}

fn parse_dimension(v: &[u8], lo: usize, hi: usize) -> (r: Option<usize>)
    requires
        lo <= hi <= v@.len(),
    ensures
        r == dimension(v@.subrange(lo as int, hi as int)),
{
    let (a, b) = trim_bounds(v, lo, hi);
    match parse_usize(v, a, b) {
        Some(n) => if n > 0 { Some(n) } else { None },
        None => None,
    }
}

/// Reads a colour written as `r, g, b`.
pub fn parse_color_bytes(v: &[u8]) -> (r: Option<Color>)
    ensures
        r == parse_color(v@),
{
    let n = v.len();
    let ghost s = v@;
    let i = find_byte(v, 0, n, 0x2c);
    assert(s.subrange(0, n as int) =~= s);
    if i == n {
        return None;
    }
    let ghost rest = s.subrange(i + 1, n as int);
    let j = find_byte(v, i + 1, n, 0x2c);
    if j == n {
        return None;
    }
    let ghost third = rest.subrange(j - i, rest.len() as int);
    assert(third =~= s.subrange(j + 1, n as int));
    assert(rest.subrange(0, j - i - 1) =~= s.subrange(i + 1, j as int));
    let k = find_byte(v, j + 1, n, 0x2c);
    if k < n {
        return None;
    }
    assert(s.subrange(0, i as int) =~= v@.subrange(0, i as int));
    let r = parse_channel(v, 0, i);
    let g = parse_channel(v, i + 1, j);
    let b = parse_channel(v, j + 1, n);
    match (r, g, b) {
        (Some(r), Some(g), Some(b)) => Some(Color { r, g, b }),
        _ => None,
    }
}

/// Reads a resolution written as `<width>x<height>`.
pub fn parse_resolution_bytes(v: &[u8]) -> (r: Option<Resolution>)
    ensures
        r == parse_resolution(v@),
{
    let n = v.len();
    let i = find_byte(v, 0, n, 0x78);
    assert(v@.subrange(0, n as int) =~= v@);
    if i == n {
        return None;
    }
    let w = parse_dimension(v, 0, i);
    let h = parse_dimension(v, i + 1, n);
    match (w, h) {
        (Some(width), Some(height)) => Some(Resolution { width, height }),
        _ => None,
    }
}

/// Appends `r, g, b`.
pub fn write_color(out: &mut Vec<u8>, c: Color)
    ensures
        final(out)@ == old(out)@ + color_text(c),
{
    write_decimal(out, c.r as usize);
    out.push(0x2c);
    out.push(0x20);
    write_decimal(out, c.g as usize);
    out.push(0x2c);
    out.push(0x20);
    write_decimal(out, c.b as usize);
    assert(out@ =~= old(out)@ + color_text(c));
}

/// Appends `<width>x<height>`.
pub fn write_resolution(out: &mut Vec<u8>, r: Resolution)
    ensures
        final(out)@ == old(out)@ + resolution_text(r),
{
    write_decimal(out, r.width);
    out.push(0x78);
    write_decimal(out, r.height);
    assert(out@ =~= old(out)@ + resolution_text(r));
}

impl Resolution {
    /// The resolution as the menu shows it: `<width>x<height>`.
    pub fn label(&self) -> (t: Vec<u8>)
        ensures
            t@ == resolution_text(*self),
    {
        let mut t: Vec<u8> = Vec::new();
        write_resolution(&mut t, *self);
        assert(t@ =~= resolution_text(*self));
        t
    }
}

/// The typed configuration record.
#[derive(Debug)]
pub struct ConfigData {
    pub background: Color,
    /// Path of the logo image; empty means the built-in logo.
    pub logo_path: Vec<u8>,
    pub resolution: Resolution,
}

pub struct ConfigView {
    pub background: Color,
    pub logo_path: Seq<u8>,
    pub resolution: Resolution,
}

impl View for ConfigData {
    type V = ConfigView;

    open spec fn view(&self) -> ConfigView {
        ConfigView { background: self.background, logo_path: self.logo_path@, resolution: self.resolution }
    }
}

pub open spec fn default_config() -> ConfigView {
    ConfigView {
        background: Color { r: 0, g: 0, b: 0 },
        logo_path: Seq::empty(),
        resolution: Resolution { width: 0, height: 0 },
    }
}

impl ConfigData {
    /// Black background, built-in logo, no resolution chosen.
    pub fn new() -> (d: ConfigData)
        ensures
            d@ == default_config(),
    {
        ConfigData {
            background: Color { r: 0, g: 0, b: 0 },
            logo_path: Vec::new(),
            resolution: Resolution { width: 0, height: 0 },
        }
    }

    /// A copy of this record.
    pub fn duplicate(&self) -> (d: ConfigData)
        ensures
            d@ == self@,
    {
        let mut path: Vec<u8> = Vec::new();
        crate::bytes::append_bytes(&mut path, self.logo_path.as_slice());
        assert(path@ =~= self.logo_path@);
        ConfigData { background: self.background, logo_path: path, resolution: self.resolution }
    }
}

/// A line of the text format: `key =`, then a space and the value unless the
/// value is empty, then a line feed.
pub open spec fn line_text(k: Seq<u8>, v: Seq<u8>) -> Seq<u8> {
    k + seq![0x20u8, 0x3d] + (if v.len() > 0 { seq![0x20u8] + v } else { Seq::empty() }) + seq![0x0au8]
}

/// The record in the text format: one line per field.
pub open spec fn serialize_text(d: ConfigView) -> Seq<u8> {
    line_text(background_key(), color_text(d.background))
        + line_text(logo_path_key(), d.logo_path)
        + line_text(resolution_key(), resolution_text(d.resolution))
}

/// Appends the line for `k` and `v`.
pub fn write_line(out: &mut Vec<u8>, k: &[u8], v: &[u8])
    ensures
        final(out)@ == old(out)@ + line_text(k@, v@),
{
    crate::bytes::append_bytes(out, k);
    out.push(0x20);
    out.push(0x3d);
    if v.len() > 0 {
        out.push(0x20);
        crate::bytes::append_bytes(out, v);
    }
    out.push(0x0a);
    assert(out@ =~= old(out)@ + line_text(k@, v@));
}

impl ConfigData {
    /// The record in the text format.
    pub fn to_text(&self) -> (t: Vec<u8>)
        ensures
            t@ == serialize_text(self@),
    {
        let mut t: Vec<u8> = Vec::new();
        let mut color: Vec<u8> = Vec::new();
        write_color(&mut color, self.background);
        let mut res: Vec<u8> = Vec::new();
        write_resolution(&mut res, self.resolution);
        assert(color@ =~= color_text(self.background));
        assert(res@ =~= resolution_text(self.resolution));
        let bk = background_key_bytes();
        let lk = logo_path_key_bytes();
        let rk = resolution_key_bytes();
        write_line(&mut t, bk.as_slice(), color.as_slice());
        write_line(&mut t, lk.as_slice(), self.logo_path.as_slice());
        write_line(&mut t, rk.as_slice(), res.as_slice());
        assert(t@ =~= serialize_text(self@));
        t
    }
}

/// `content`, followed by spaces up to `old_len` bytes when it is shorter.
pub open spec fn padded(content: Seq<u8>, old_len: nat) -> Seq<u8> {
    if content.len() < old_len {
        content + Seq::new((old_len - content.len()) as nat, |i: int| 0x20u8)
    } else {
        content
    }
}

/// The bytes that replace a store of `old_len` bytes with `content`: whatever
/// of the old length `content` leaves uncovered is overwritten with spaces.
pub fn pad_to(content: &[u8], old_len: usize) -> (r: Vec<u8>)
    ensures
        r@ == padded(content@, old_len as nat),
{
    let mut r: Vec<u8> = Vec::new();
    crate::bytes::append_bytes(&mut r, content);
    let ghost c = r@;
    assert(c =~= content@);
    while r.len() < old_len
        invariant
            c == content@,
            c.len() <= r@.len(),
            r@.subrange(0, c.len() as int) == c,
            forall|j: int| c.len() <= j < r@.len() ==> r@[j] == 0x20u8,
            r@.len() <= old_len || r@.len() == c.len(),
        decreases old_len - r@.len(),
    {
        r.push(0x20);
        assert(r@.subrange(0, c.len() as int) =~= c);
    }
    if content.len() < old_len {
        assert(r@ =~= padded(content@, old_len as nat));
    } else {
        assert(r@ =~= c);
    }
    r
}

/// Position of the last `b` in `s`, or -1 when there is none.
pub open spec fn last_index_of(s: Seq<u8>, b: u8) -> int
    decreases s.len(),
{
    if s.len() == 0 {
        -1
    } else if s.last() == b {
        s.len() - 1
    } else {
        last_index_of(s.drop_last(), b)
    }
}

/// `.json`
pub open spec fn json_extension() -> Seq<u8> {
    seq![0x2eu8, 0x6a, 0x73, 0x6f, 0x6e]
}

/// The configuration file that belongs to a boot image: the image path with
/// its extension (from the last `.`) replaced by `.json`; `None` when the path
/// has no `.`.
pub fn config_path_for(image_path: &[u8]) -> (r: Option<Vec<u8>>)
    ensures
        match r {
            Some(p) => last_index_of(image_path@, 0x2e) >= 0 && p@ == image_path@.subrange(0,
                last_index_of(image_path@, 0x2e)) + json_extension(),
            None => last_index_of(image_path@, 0x2e) < 0,
        },
{
    let mut i = image_path.len();
    assert(image_path@.subrange(0, i as int) =~= image_path@);
    while i > 0 && image_path[i - 1] != 0x2e
        invariant
            i <= image_path@.len(),
            last_index_of(image_path@, 0x2e) == last_index_of(image_path@.subrange(0, i as int), 0x2e),
        decreases i,
    {
        assert(image_path@.subrange(0, i as int).drop_last() =~= image_path@.subrange(0, i - 1));
        i -= 1;
    }
    if i == 0 {
        assert(image_path@.subrange(0, 0) =~= Seq::<u8>::empty());
        return None;
    }
    let mut p = crate::bytes::copy_range(image_path, 0, i - 1);
    let ext = vec![0x2eu8, 0x6a, 0x73, 0x6f, 0x6e];
    crate::bytes::append_bytes(&mut p, ext.as_slice());
    assert(ext@ =~= json_extension());
    Some(p)
}

/// The two encodings of the configuration file.
#[derive(Clone, Copy, PartialEq, Eq, Structural, Debug)]
pub enum Encoding {
    /// `key = value` lines with `#` comments.
    Text,
    /// One JSON object holding the whole record.
    Structured,
}

/// A file whose first non-blank byte opens a JSON object, or which holds
/// nothing but whitespace, is a structured record; any other is text.
pub open spec fn encoding_of(bytes: Seq<u8>) -> Encoding {
    let t = trim_start(bytes);
    if t.len() == 0 || t[0] == 0x7b {
        Encoding::Structured
    } else {
        Encoding::Text
    }
}

/// Tells which encoding a configuration file uses.
pub fn detect_encoding(bytes: &[u8]) -> (e: Encoding)
    ensures
        e == encoding_of(bytes@),
{
    let n = bytes.len();
    let mut i: usize = 0;
    assert(bytes@.subrange(0, n as int) =~= bytes@);
    while i < n && crate::bytes::is_space_byte(bytes[i])
        invariant
            i <= n == bytes@.len(),
            trim_start(bytes@) == trim_start(bytes@.subrange(i as int, n as int)),
        decreases n - i,
    {
        assert(bytes@.subrange(i as int, n as int).drop_first() =~= bytes@.subrange(i + 1, n as int));
        i += 1;
    }
    let ghost t = bytes@.subrange(i as int, n as int);
    assert(trim_start(t) == t);
    if i == n || bytes[i] == 0x7b {
        Encoding::Structured
    } else {
        Encoding::Text
    }
}

} // verus!
