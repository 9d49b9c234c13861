use crate::bytes::{copy_range, find_byte, index_of, lemma_index_of_bounds, lines, trim, trim_bounds};
use vstd::prelude::*;

verus! {

pub open spec fn hash_byte() -> u8 {
    0x23
}

pub open spec fn eq_byte() -> u8 {
    0x3d
}

pub open spec fn newline_byte() -> u8 {
    0x0a
}

/// What one line of the text format holds.
pub enum LineKind {
    /// Nothing but whitespace and comment.
    Blank,
    /// A key and its value, both trimmed.
    Pair(Seq<u8>, Seq<u8>),
    /// Text without exactly one `=` separator.
    Malformed,
}

/// The line with its comment (from the first `#` on) removed and then trimmed.
pub open spec fn line_content(line: Seq<u8>) -> Seq<u8> {
    trim(line.subrange(0, index_of(line, hash_byte())))
}

/// What a line holds. A pair may have an empty key, which names no field.
pub open spec fn parse_line(line: Seq<u8>) -> LineKind {
    let c = line_content(line);
    let e = index_of(c, eq_byte());
    let rest = c.subrange(e + 1, c.len() as int);
    let key = trim(c.subrange(0, e));
    if c.len() == 0 {
        LineKind::Blank
    } else if e >= c.len() || index_of(rest, eq_byte()) < rest.len() {
        LineKind::Malformed
    } else {
        LineKind::Pair(key, trim(rest))
    }
}

/// The pairs of the lines `ls`, in order; `None` when a line is malformed.
pub open spec fn parse_lines(ls: Seq<Seq<u8>>) -> Option<Seq<(Seq<u8>, Seq<u8>)>>
    decreases ls.len(),
{
    if ls.len() == 0 {
        Some(Seq::empty())
    } else {
        match parse_line(ls[0]) {
            LineKind::Malformed => None,
            LineKind::Blank => parse_lines(ls.drop_first()),
            LineKind::Pair(k, v) => match parse_lines(ls.drop_first()) {
                Some(rest) => Some(seq![(k, v)] + rest),
                None => None,
            },
        }
    }
}

/// The pairs of a configuration text, in order of appearance.
pub open spec fn parse_text(s: Seq<u8>) -> Option<Seq<(Seq<u8>, Seq<u8>)>> {
    parse_lines(lines(s))
}

pub open spec fn pairs_view(v: Seq<(Vec<u8>, Vec<u8>)>) -> Seq<(Seq<u8>, Seq<u8>)> {
    Seq::new(v.len(), |i: int| (v[i].0@, v[i].1@))
}

/// A line of the text format, as the parser hands it over.
pub enum ParsedLine {
    Blank,
    Pair(Vec<u8>, Vec<u8>),
    Malformed,
}

pub open spec fn parsed_line_matches(p: ParsedLine, k: LineKind) -> bool {
    match p {
        ParsedLine::Blank => k is Blank,
        ParsedLine::Malformed => k is Malformed,
        ParsedLine::Pair(a, b) => k == LineKind::Pair(a@, b@),
    }
}

/// Reads the line `text[lo..hi]`.
pub fn parse_line_at(text: &[u8], lo: usize, hi: usize) -> (r: ParsedLine)
    requires
        lo <= hi <= text@.len(),
    ensures
        parsed_line_matches(r, parse_line(text@.subrange(lo as int, hi as int))),
{
    let ghost line = text@.subrange(lo as int, hi as int);
    let h = find_byte(text, lo, hi, 0x23);
    assert(line.subrange(0, h - lo) =~= text@.subrange(lo as int, h as int));
    let (a, b) = trim_bounds(text, lo, h);
    let ghost c = text@.subrange(a as int, b as int);
    assert(c == line_content(line));
    if a == b {
        return ParsedLine::Blank;
    }
    let e = find_byte(text, a, b, 0x3d);
    if e == b {
        return ParsedLine::Malformed;
    }
    assert(c.subrange(e - a + 1, c.len() as int) =~= text@.subrange(e + 1, b as int));
    assert(c.subrange(0, e - a) =~= text@.subrange(a as int, e as int));
    let e2 = find_byte(text, e + 1, b, 0x3d);
    if e2 < b {
        return ParsedLine::Malformed;
    }
    let (ka, kb) = trim_bounds(text, a, e);
    let (va, vb) = trim_bounds(text, e + 1, b);
    ParsedLine::Pair(copy_range(text, ka, kb), copy_range(text, va, vb))
}

/// The pairs of a configuration text; `None` when some line is malformed.
pub fn parse_pairs(text: &[u8]) -> (r: Option<Vec<(Vec<u8>, Vec<u8>)>>)
    ensures
        match parse_text(text@) {
            Some(ps) => r matches Some(v) && pairs_view(v@) == ps,
            None => r is None,
        },
{
    let n = text.len();
    let mut out: Vec<(Vec<u8>, Vec<u8>)> = Vec::new();
    let mut start: usize = 0;
    let mut more = true;
    proof {
        assert(text@.subrange(0, n as int) =~= text@);
        let all = parse_lines(lines(text@));
        if all is Some {
            assert(pairs_view(out@) + all.unwrap() =~= all.unwrap());
        }
    }
    while more
        invariant
            n == text@.len(),
            more ==> start <= n,
            more ==> parse_text(text@) == (match parse_lines(lines(text@.subrange(start as int, n as int))) {
                Some(rest) => Some(pairs_view(out@) + rest),
                None => None,
            }),
            !more ==> parse_text(text@) == Some(pairs_view(out@)),
        decreases (if more { n - start + 1 } else { 0 }),
    {
        let ghost s = text@.subrange(start as int, n as int);
        let k = find_byte(text, start, n, 0x0a);
        let ghost ls = lines(s);
        let ghost line = text@.subrange(start as int, k as int);
        proof {
            lemma_index_of_bounds(s, 0x0a);
            assert(s.subrange(0, k - start) =~= line);
            if k < n {
                assert(s.subrange(k - start + 1, s.len() as int) =~= text@.subrange(k + 1, n as int));
                assert(ls.drop_first() =~= lines(text@.subrange(k + 1, n as int)));
            } else {
                assert(line =~= s);
                assert(ls.drop_first() =~= Seq::<Seq<u8>>::empty());
            }
            assert(ls[0] == line);
        }
        let p = parse_line_at(text, start, k);
        match p {
            ParsedLine::Malformed => {
                return None;
            },
            ParsedLine::Blank => {},
            ParsedLine::Pair(key, value) => {
                let ghost before = out@;
                out.push((key, value));
                proof {
                    assert(pairs_view(out@) =~= pairs_view(before) + seq![(key@, value@)]);
                    let rest = parse_lines(ls.drop_first());
                    if rest is Some {
                        assert(pairs_view(before) + (seq![(key@, value@)] + rest.unwrap())
                            =~= pairs_view(out@) + rest.unwrap());
                    }
                }
            },
        }
        if k < n {
            start = k + 1;
        } else {
            more = false;
            proof {
                assert(parse_lines(ls.drop_first()) == Some(Seq::<(Seq<u8>, Seq<u8>)>::empty()));
                assert(pairs_view(out@) + Seq::<(Seq<u8>, Seq<u8>)>::empty() =~= pairs_view(out@));
            }
        }
    }
    Some(out)
}

} // verus!
