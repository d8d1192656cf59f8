//! A small XML scanner for GPX documents: start and end tags with
//! `lat`/`lon` attributes, trimmed text, comments and declarations.

use vstd::prelude::*;

verus! {

/// The `lat` and `lon` attribute values seen on a start tag, as byte
/// ranges of the document.
#[derive(Clone, Copy, Debug)]
pub struct StartAttrs {
    pub has_lat: bool,
    pub lat_start: usize,
    pub lat_end: usize,
    pub has_lon: bool,
    pub lon_start: usize,
    pub lon_end: usize,
}

/// One scanned piece of markup or text.
#[derive(Clone, Copy, Debug)]
pub enum GpxEvent {
    /// A start tag; `empty` marks a self-closing tag.
    Start { name_start: usize, name_end: usize, attrs: StartAttrs, empty: bool },
    /// An end tag.
    End { name_start: usize, name_end: usize },
    /// Text between tags, trimmed of surrounding whitespace.
    Text { start: usize, end: usize },
    /// Markup without meaning here: comments, declarations,
    /// whitespace-only text.
    Skip,
    /// The end of the document.
    Eof,
    /// Malformed markup.
    Bad,
}

/// XML whitespace.
pub open spec fn is_xws(b: u8) -> bool {
    b == 32 || b == 9 || b == 10 || b == 13
}

/// A byte that ends a tag or attribute name.
pub open spec fn is_name_term(b: u8) -> bool {
    is_xws(b) || b == 62 || b == 47 || b == 60 || b == 61 || b == 34 || b == 39
}

/// First index at or after `from` holding `b`, or the length.
pub open spec fn find_byte_s(s: Seq<u8>, from: int, b: u8) -> int
    decreases s.len() - from,
{
    if from < 0 || from >= s.len() {
        s.len() as int
    } else if s[from] == b {
        from
    } else {
        find_byte_s(s, from + 1, b)
    }
}

/// First index at or after `from` (bounded by `to`) holding
/// something other than whitespace.
pub open spec fn skip_ws_s(s: Seq<u8>, from: int, to: int) -> int
    decreases to - from,
{
    if from < 0 || from >= to {
        to
    } else if is_xws(s[from]) {
        skip_ws_s(s, from + 1, to)
    } else {
        from
    }
}

/// Last bound at or before `to` whose preceding byte is not
/// whitespace, at least `from`.
pub open spec fn ws_rend_s(s: Seq<u8>, from: int, to: int) -> int
    decreases to - from,
{
    if to <= from {
        to
    } else if is_xws(s[to - 1]) {
        ws_rend_s(s, from, to - 1)
    } else {
        to
    }
}

/// First index past a tag or attribute name starting at `from`.
pub open spec fn name_end_s(s: Seq<u8>, from: int) -> int
    decreases s.len() - from,
{
    if from < 0 || from >= s.len() {
        s.len() as int
    } else if is_name_term(s[from]) {
        from
    } else {
        name_end_s(s, from + 1)
    }
}

/// The index just past the first `-->` at or after `from`, or minus
/// one when there is none.
pub open spec fn comment_end_s(s: Seq<u8>, from: int) -> int
    decreases s.len() - from,
{
    if from < 0 || from + 3 > s.len() {
        -1
    } else if s[from] == 45 && s[from + 1] == 45 && s[from + 2] == 62 {
        from + 3
    } else {
        comment_end_s(s, from + 1)
    }
}

/// The byte range `[a, e)` spells `lat`.
pub open spec fn range_is_lat(s: Seq<u8>, a: int, e: int) -> bool {
    e - a == 3 && s[a] == 108 && s[a + 1] == 97 && s[a + 2] == 116
}

/// The byte range `[a, e)` spells `lon`.
pub open spec fn range_is_lon(s: Seq<u8>, a: int, e: int) -> bool {
    e - a == 3 && s[a] == 108 && s[a + 1] == 111 && s[a + 2] == 110
}

/// Scans the attributes of a start tag from `p`, keeping the ranges
/// of the `lat` and `lon` values; ends at `>` or `/>`. The fuel
/// bounds the number of attributes and only runs out on inputs
/// longer than the document.
pub open spec fn scan_attrs_s(
    s: Seq<u8>,
    ns: int,
    ne: int,
    p: int,
    acc: StartAttrs,
    fuel: nat,
) -> (GpxEvent, int)
    decreases fuel,
{
    if fuel == 0 {
        (GpxEvent::Bad, s.len() as int)
    } else {
        let w = skip_ws_s(s, p, s.len() as int);
        if w >= s.len() {
            (GpxEvent::Bad, s.len() as int)
        } else if s[w] == 62 {
            (
                GpxEvent::Start {
                    name_start: ns as usize,
                    name_end: ne as usize,
                    attrs: acc,
                    empty: false,
                },
                w + 1,
            )
        } else if s[w] == 47 {
            if w + 1 < s.len() && s[w + 1] == 62 {
                (
                    GpxEvent::Start {
                        name_start: ns as usize,
                        name_end: ne as usize,
                        attrs: acc,
                        empty: true,
                    },
                    w + 2,
                )
            } else {
                (GpxEvent::Bad, s.len() as int)
            }
        } else {
            let ane = name_end_s(s, w);
            if ane == w {
                (GpxEvent::Bad, s.len() as int)
            } else {
                let w2 = skip_ws_s(s, ane, s.len() as int);
                if w2 >= s.len() || s[w2] != 61 {
                    (GpxEvent::Bad, s.len() as int)
                } else {
                    let w3 = skip_ws_s(s, w2 + 1, s.len() as int);
                    if w3 >= s.len() || (s[w3] != 34 && s[w3] != 39) {
                        (GpxEvent::Bad, s.len() as int)
                    } else {
                        let vs = w3 + 1;
                        let ve = find_byte_s(s, vs, s[w3]);
                        if ve >= s.len() {
                            (GpxEvent::Bad, s.len() as int)
                        } else {
                            let acc2 = if range_is_lat(s, w, ane) {
                                StartAttrs {
                                    has_lat: true,
                                    lat_start: vs as usize,
                                    lat_end: ve as usize,
                                    ..acc
                                }
                            } else if range_is_lon(s, w, ane) {
                                StartAttrs {
                                    has_lon: true,
                                    lon_start: vs as usize,
                                    lon_end: ve as usize,
                                    ..acc
                                }
                            } else {
                                acc
                            };
                            scan_attrs_s(s, ns, ne, ve + 1, acc2, (fuel - 1) as nat)
                        }
                    }
                }
            }
        }
    }
}

/// No attributes seen yet.
pub open spec fn empty_attrs() -> StartAttrs {
    StartAttrs {
        has_lat: false,
        lat_start: 0,
        lat_end: 0,
        has_lon: false,
        lon_start: 0,
        lon_end: 0,
    }
}

/// The next event at `pos` and the position just after it.
pub open spec fn next_event_s(s: Seq<u8>, pos: int) -> (GpxEvent, int) {
    let n = s.len() as int;
    if pos >= n {
        (GpxEvent::Eof, pos)
    } else if s[pos] != 60 {
        let e = find_byte_s(s, pos, 60);
        let a = skip_ws_s(s, pos, e);
        if a == e {
            (GpxEvent::Skip, e)
        } else {
            (GpxEvent::Text { start: a as usize, end: ws_rend_s(s, a, e) as usize }, e)
        }
    } else if pos + 3 < n && s[pos + 1] == 33 && s[pos + 2] == 45 && s[pos + 3] == 45 {
        let ce = comment_end_s(s, pos + 4);
        if ce < 0 {
            (GpxEvent::Bad, n)
        } else {
            (GpxEvent::Skip, ce)
        }
    } else if pos + 1 < n && (s[pos + 1] == 33 || s[pos + 1] == 63) {
        let g = find_byte_s(s, pos + 1, 62);
        if g >= n {
            (GpxEvent::Bad, n)
        } else {
            (GpxEvent::Skip, g + 1)
        }
    } else if pos + 1 < n && s[pos + 1] == 47 {
        let ns = pos + 2;
        let ne = name_end_s(s, ns);
        if ne == ns {
            (GpxEvent::Bad, n)
        } else {
            let w = skip_ws_s(s, ne, n);
            if w < n && s[w] == 62 {
                (GpxEvent::End { name_start: ns as usize, name_end: ne as usize }, w + 1)
            } else {
                (GpxEvent::Bad, n)
            }
        }
    } else if pos + 1 < n {
        let ns = pos + 1;
        let ne = name_end_s(s, ns);
        if ne == ns {
            (GpxEvent::Bad, n)
        } else {
            scan_attrs_s(s, ns, ne, ne, empty_attrs(), (n - ne + 1) as nat)
        }
    } else {
        (GpxEvent::Bad, n)
    }
}

/// First index at or after `from` holding `b`, or the length.
fn find_byte(bytes: &Vec<u8>, from: usize, b: u8) -> (r: usize)
    requires
        from <= bytes@.len(),
    ensures
        r as int == find_byte_s(bytes@, from as int, b),
        from <= r <= bytes@.len(),
        r < bytes@.len() ==> bytes@[r as int] == b,
{
    let n = bytes.len();
    let mut i: usize = from;
    while i < n
        invariant
            n == bytes@.len(),
            from <= i <= n,
            find_byte_s(bytes@, from as int, b) == find_byte_s(bytes@, i as int, b),
        decreases n - i,
    {
        if bytes[i] == b {
            return i;
        }
        i += 1;
    }
    n
}

/// First index at or after `from` (bounded by `to`) holding
/// something other than whitespace.
fn skip_ws(bytes: &Vec<u8>, from: usize, to: usize) -> (r: usize)
    requires
        from <= to <= bytes@.len(),
    ensures
        r as int == skip_ws_s(bytes@, from as int, to as int),
        from <= r <= to,
        r < to ==> !is_xws(bytes@[r as int]),
{
    let mut i: usize = from;
    while i < to
        invariant
            from <= i <= to <= bytes@.len(),
            skip_ws_s(bytes@, from as int, to as int) == skip_ws_s(bytes@, i as int, to as int),
        decreases to - i,
    {
        let c = bytes[i];
        if !(c == 32 || c == 9 || c == 10 || c == 13) {
            return i;
        }
        i += 1;
    }
    to
}

/// Last bound at or before `to` whose preceding byte is not
/// whitespace, at least `from`.
fn ws_rend(bytes: &Vec<u8>, from: usize, to: usize) -> (r: usize)
    requires
        from <= to <= bytes@.len(),
    ensures
        r as int == ws_rend_s(bytes@, from as int, to as int),
        from <= r <= to,
{
    let mut i: usize = to;
    while i > from
        invariant
            from <= i <= to <= bytes@.len(),
            ws_rend_s(bytes@, from as int, to as int) == ws_rend_s(bytes@, from as int, i as int),
        decreases i,
    {
        let c = bytes[i - 1];
        if !(c == 32 || c == 9 || c == 10 || c == 13) {
            return i;
        }
        i -= 1;
    }
    from
}

/// First index past a tag or attribute name starting at `from`.
fn name_end(bytes: &Vec<u8>, from: usize) -> (r: usize)
    requires
        from <= bytes@.len(),
    ensures
        r as int == name_end_s(bytes@, from as int),
        from <= r <= bytes@.len(),
{
    let n = bytes.len();
    let mut i: usize = from;
    while i < n
        invariant
            from <= i <= n == bytes@.len(),
            name_end_s(bytes@, from as int) == name_end_s(bytes@, i as int),
        decreases n - i,
    {
        let c = bytes[i];
        if c == 32 || c == 9 || c == 10 || c == 13 || c == 62 || c == 47 || c == 60 || c == 61
            || c == 34 || c == 39 {
            return i;
        }
        i += 1;
    }
    n
}

/// The index just past the first `-->` at or after `from`, or the
/// length plus one when there is none.
fn comment_end(bytes: &Vec<u8>, from: usize) -> (r: Option<usize>)
    requires
        from <= bytes@.len(),
    ensures
        match r {
            Option::Some(v) => v as int == comment_end_s(bytes@, from as int) && from < v
                <= bytes@.len(),
            Option::None => comment_end_s(bytes@, from as int) < 0,
        },
{
    let n = bytes.len();
    if n < 3 {
        return Option::None;
    }
    let mut i: usize = from;
    while i <= n - 3
        invariant
            from <= i,
            i <= n,
            n == bytes@.len(),
            n >= 3,
            comment_end_s(bytes@, from as int) == comment_end_s(bytes@, i as int),
        decreases n - i,
    {
        if bytes[i] == 45 && bytes[i + 1] == 45 && bytes[i + 2] == 62 {
            return Option::Some(i + 3);
        }
        i += 1;
    }
    Option::None
}

/// Scans the next event at `pos`, exactly as the scanner's
/// specification reads it; every event but the end of the document
/// advances the position.
#[verifier::loop_isolation(false)]
#[verifier::rlimit(100)]
pub fn next_event(bytes: &Vec<u8>, pos: usize) -> (r: (GpxEvent, usize))
    requires
        pos <= bytes@.len(),
    ensures
        r.0 == next_event_s(bytes@, pos as int).0,
        r.1 as int == next_event_s(bytes@, pos as int).1,
        !(r.0 is Eof) ==> pos < r.1 <= bytes@.len(),
        r.0 is Eof ==> r.1 == pos,
        match r.0 {
            GpxEvent::Start { name_start, name_end, attrs, empty } => {
                &&& name_start <= name_end <= bytes@.len()
                &&& (attrs.has_lat ==> attrs.lat_start <= attrs.lat_end <= bytes@.len())
                &&& (attrs.has_lon ==> attrs.lon_start <= attrs.lon_end <= bytes@.len())
            },
            GpxEvent::End { name_start, name_end } => name_start <= name_end <= bytes@.len(),
            GpxEvent::Text { start, end } => start <= end <= bytes@.len(),
            _ => true,
        },
{
    let ghost gs = bytes@;
    let n = bytes.len();
    if pos >= n {
        return (GpxEvent::Eof, pos);
    }
    if bytes[pos] != 60 {
        let e = find_byte(bytes, pos, 60);
        let a = skip_ws(bytes, pos, e);
        if a == e {
            return (GpxEvent::Skip, e);
        }
        let rend = ws_rend(bytes, a, e);
        return (GpxEvent::Text { start: a, end: rend }, e);
    }
    if n - pos > 3 && bytes[pos + 1] == 33 && bytes[pos + 2] == 45 && bytes[pos + 3] == 45 {
        match comment_end(bytes, pos + 4) {
            Option::Some(ce) => {
                return (GpxEvent::Skip, ce);
            },
            Option::None => {
                return (GpxEvent::Bad, n);
            },
        }
    }
    if n - pos > 1 && (bytes[pos + 1] == 33 || bytes[pos + 1] == 63) {
        let g = find_byte(bytes, pos + 1, 62);
        if g >= n {
            return (GpxEvent::Bad, n);
        }
        return (GpxEvent::Skip, g + 1);
    }
    if n - pos > 1 && bytes[pos + 1] == 47 {
        let ns = pos + 2;
        if ns > n {
            return (GpxEvent::Bad, n);
        }
        let ne = name_end(bytes, ns);
        if ne == ns {
            return (GpxEvent::Bad, n);
        }
        let w = skip_ws(bytes, ne, n);
        if w < n && bytes[w] == 62 {
            return (GpxEvent::End { name_start: ns, name_end: ne }, w + 1);
        }
        return (GpxEvent::Bad, n);
    }
    if n - pos <= 1 {
        return (GpxEvent::Bad, n);
    }
    let ns = pos + 1;
    let ne = name_end(bytes, ns);
    if ne == ns {
        return (GpxEvent::Bad, n);
    }

    // Attributes of a start tag.
    let ghost fuel0 = (n - ne + 1) as nat;
    let mut acc = StartAttrs {
        has_lat: false,
        lat_start: 0,
        lat_end: 0,
        has_lon: false,
        lon_start: 0,
        lon_end: 0,
    };
    let mut p: usize = ne;
    let ghost mut fuel = fuel0;
    loop
        invariant
            ne <= p <= n,
            n == gs.len(),
            gs == bytes@,
            ns == pos + 1,
            ne as int == name_end_s(gs, ns as int),
            ne > ns,
            fuel >= n - p + 1,
            acc.has_lat ==> acc.lat_start <= acc.lat_end <= n,
            acc.has_lon ==> acc.lon_start <= acc.lon_end <= n,
            scan_attrs_s(gs, ns as int, ne as int, ne as int, empty_attrs(), fuel0)
                == scan_attrs_s(gs, ns as int, ne as int, p as int, acc, fuel),
            next_event_s(gs, pos as int) == scan_attrs_s(
                gs,
                ns as int,
                ne as int,
                ne as int,
                empty_attrs(),
                fuel0,
            ),
        decreases n - p,
    {
        let w = skip_ws(bytes, p, n);
        if w >= n {
            return (GpxEvent::Bad, n);
        }
        let cw = bytes[w];
        if cw == 62 {
            return (
                GpxEvent::Start { name_start: ns, name_end: ne, attrs: acc, empty: false },
                w + 1,
            );
        }
        if cw == 47 {
            if n - w > 1 && bytes[w + 1] == 62 {
                return (
                    GpxEvent::Start { name_start: ns, name_end: ne, attrs: acc, empty: true },
                    w + 2,
                );
            }
            return (GpxEvent::Bad, n);
        }
        let ane = name_end(bytes, w);
        if ane == w {
            return (GpxEvent::Bad, n);
        }
        let w2 = skip_ws(bytes, ane, n);
        if w2 >= n || bytes[w2] != 61 {
            return (GpxEvent::Bad, n);
        }
        let w3 = skip_ws(bytes, w2 + 1, n);
        if w3 >= n {
            return (GpxEvent::Bad, n);
        }
        let q = bytes[w3];
        if q != 34 && q != 39 {
            return (GpxEvent::Bad, n);
        }
        let vs = w3 + 1;
        let ve = find_byte(bytes, vs, q);
        if ve >= n {
            return (GpxEvent::Bad, n);
        }
        let is_lat = ane - w == 3 && bytes[w] == 108 && bytes[w + 1] == 97 && bytes[w + 2] == 116;
        let is_lon = ane - w == 3 && bytes[w] == 108 && bytes[w + 1] == 111 && bytes[w + 2] == 110;
        if is_lat {
            acc = StartAttrs { has_lat: true, lat_start: vs, lat_end: ve, ..acc };
        } else if is_lon {
            acc = StartAttrs { has_lon: true, lon_start: vs, lon_end: ve, ..acc };
        }
        proof {
            fuel = (fuel - 1) as nat;
        }
        p = ve + 1;
    }
}

} // verus!
