//! Loading a GPX track: scanning the document, collecting track
//! points with elevations and monotone time offsets.

use vstd::prelude::*;
use vstd::string::StrSliceExecFns;
use crate::io::gpx_num::{
    dec_ok, dec_scaled_val, fast_time_ms, fast_time_ok, parse_dec_scaled, parse_fast_time,
    parse_rfc3339, rfc3339_ms, rfc3339_ok,
};
use crate::io::gpx_xml::{GpxEvent, next_event, next_event_s};
use crate::io::io_errors::{IOError, IOErrorType};
use crate::model::common::SpatialTrack;
use crate::model::points::SpatialPoint;

verus! {

/// The running state of the document scan: the pending point's
/// fields, which container elements are open, the track start, and
/// the running time offset.
#[derive(Clone, Copy, Debug)]
pub struct LoaderCore {
    pub lat: i64,
    pub lon: i64,
    pub elev: i64,
    pub in_time: bool,
    pub in_ele: bool,
    pub have_start: bool,
    pub start_ms: i64,
    pub base_tod: i64,
    pub cur_delta: i64,
    pub prev_delta: i64,
}

/// Which stage a failed load blames: the document structure or a
/// field's content.
#[derive(Clone, Copy, Debug, PartialEq, Eq, Structural)]
pub enum LoadFail {
    Reader,
    Parser,
}

/// The scan state before any event.
pub open spec fn init_core() -> LoaderCore {
    LoaderCore {
        lat: 0,
        lon: 0,
        elev: 0,
        in_time: false,
        in_ele: false,
        have_start: false,
        start_ms: 0,
        base_tod: 0,
        cur_delta: 0,
        prev_delta: 0,
    }
}

/// The byte range `[a, e)` spells `trkpt`.
pub open spec fn name_is_trkpt(s: Seq<u8>, a: int, e: int) -> bool {
    e - a == 5 && s[a] == 116 && s[a + 1] == 114 && s[a + 2] == 107 && s[a + 3] == 112 && s[a + 4]
        == 116
}

/// The byte range `[a, e)` spells `time`.
pub open spec fn name_is_time(s: Seq<u8>, a: int, e: int) -> bool {
    e - a == 4 && s[a] == 116 && s[a + 1] == 105 && s[a + 2] == 109 && s[a + 3] == 101
}

/// The byte range `[a, e)` spells `ele`.
pub open spec fn name_is_ele(s: Seq<u8>, a: int, e: int) -> bool {
    e - a == 3 && s[a] == 101 && s[a + 1] == 108 && s[a + 2] == 101
}

/// One scan step: the state after an event, and the point the event
/// emits, if any.
pub open spec fn spec_step(s: Seq<u8>, st: LoaderCore, ev: GpxEvent) -> Result<
    (LoaderCore, Option<SpatialPoint>),
    LoadFail,
> {
    match ev {
        GpxEvent::Start { name_start, name_end, attrs, empty } => {
            if empty {
                Result::Ok((st, Option::None))
            } else if name_is_time(s, name_start as int, name_end as int) {
                Result::Ok((LoaderCore { in_time: true, ..st }, Option::None))
            } else if name_is_ele(s, name_start as int, name_end as int) {
                Result::Ok((LoaderCore { in_ele: true, ..st }, Option::None))
            } else if name_is_trkpt(s, name_start as int, name_end as int) {
                if !attrs.has_lat || !attrs.has_lon {
                    Result::Err(LoadFail::Parser)
                } else if !dec_ok(s, attrs.lat_start as int, attrs.lat_end as int) || !dec_ok(
                    s,
                    attrs.lon_start as int,
                    attrs.lon_end as int,
                ) {
                    Result::Err(LoadFail::Parser)
                } else {
                    Result::Ok(
                        (
                            LoaderCore {
                                lat: dec_scaled_val(
                                    s,
                                    attrs.lat_start as int,
                                    attrs.lat_end as int,
                                    6,
                                ) as i64,
                                lon: dec_scaled_val(
                                    s,
                                    attrs.lon_start as int,
                                    attrs.lon_end as int,
                                    6,
                                ) as i64,
                                ..st
                            },
                            Option::None,
                        ),
                    )
                }
            } else {
                Result::Ok((st, Option::None))
            }
        },
        GpxEvent::End { name_start, name_end } => {
            if name_is_trkpt(s, name_start as int, name_end as int) {
                Result::Ok(
                    (
                        LoaderCore { lat: 0, lon: 0, elev: 0, ..st },
                        Option::Some(
                            SpatialPoint {
                                lon: st.lon,
                                lat: st.lat,
                                elev: Option::Some(st.elev),
                                delta_ms: Option::Some(st.cur_delta),
                            },
                        ),
                    ),
                )
            } else if name_is_time(s, name_start as int, name_end as int) {
                Result::Ok((LoaderCore { in_time: false, ..st }, Option::None))
            } else if name_is_ele(s, name_start as int, name_end as int) {
                Result::Ok((LoaderCore { in_ele: false, ..st }, Option::None))
            } else {
                Result::Ok((st, Option::None))
            }
        },
        GpxEvent::Text { start, end } => {
            if st.in_time && !st.in_ele {
                if !st.have_start {
                    if rfc3339_ok(s, start as int, end as int) && rfc3339_ms(
                        s,
                        start as int,
                        end as int,
                    ) >= 0 {
                        let v = rfc3339_ms(s, start as int, end as int);
                        Result::Ok(
                            (
                                LoaderCore {
                                    have_start: true,
                                    start_ms: v as i64,
                                    base_tod: (v % 86400000) as i64,
                                    cur_delta: 0,
                                    prev_delta: 0,
                                    in_time: false,
                                    ..st
                                },
                                Option::None,
                            ),
                        )
                    } else {
                        Result::Err(LoadFail::Parser)
                    }
                } else {
                    if fast_time_ok(s, start as int, end as int) {
                        let delta = fast_time_ms(s, start as int, end as int) - st.base_tod;
                        if delta < st.prev_delta {
                            Result::Err(LoadFail::Parser)
                        } else {
                            Result::Ok(
                                (
                                    LoaderCore {
                                        cur_delta: delta as i64,
                                        prev_delta: delta as i64,
                                        in_time: false,
                                        ..st
                                    },
                                    Option::None,
                                ),
                            )
                        }
                    } else {
                        Result::Err(LoadFail::Parser)
                    }
                }
            } else if st.in_ele && !st.in_time {
                if dec_ok(s, start as int, end as int) {
                    Result::Ok(
                        (
                            LoaderCore {
                                elev: dec_scaled_val(s, start as int, end as int, 3) as i64,
                                ..st
                            },
                            Option::None,
                        ),
                    )
                } else {
                    Result::Err(LoadFail::Reader)
                }
            } else {
                Result::Ok((st, Option::None))
            }
        },
        GpxEvent::Skip => Result::Ok((st, Option::None)),
        GpxEvent::Bad => Result::Err(LoadFail::Reader),
        GpxEvent::Eof => Result::Ok((st, Option::None)),
    }
}

/// The whole scan from `pos`: folds `spec_step` over the events until
/// the end of the document; the fuel only runs out on runs longer
/// than the document.
pub open spec fn spec_run(
    s: Seq<u8>,
    pos: int,
    st: LoaderCore,
    acc: Seq<SpatialPoint>,
    fuel: nat,
) -> Result<(Seq<SpatialPoint>, i64), LoadFail>
    decreases fuel,
{
    if fuel == 0 {
        Result::Err(LoadFail::Reader)
    } else {
        let (ev, np) = next_event_s(s, pos);
        if ev is Eof {
            Result::Ok(
                (
                    acc,
                    if st.have_start {
                        st.start_ms
                    } else {
                        0
                    },
                ),
            )
        } else {
            match spec_step(s, st, ev) {
                Result::Err(k) => Result::Err(k),
                Result::Ok(p) => {
                    let acc2 = match p.1 {
                        Option::Some(pt) => acc.push(pt),
                        Option::None => acc,
                    };
                    spec_run(s, np, p.0, acc2, (fuel - 1) as nat)
                },
            }
        }
    }
}

/// The result the loader owes for a document: the scan from the
/// start with fuel for every event.
pub open spec fn spec_load(s: Seq<u8>) -> Result<(Seq<SpatialPoint>, i64), LoadFail> {
    spec_run(s, 0, init_core(), Seq::empty(), (s.len() + 1) as nat)
}

/// The byte range `[a, e)` spells `trkpt`.
fn check_trkpt(bytes: &Vec<u8>, a: usize, e: usize) -> (r: bool)
    requires
        a <= e <= bytes@.len(),
    ensures
        r == name_is_trkpt(bytes@, a as int, e as int),
{
    e - a == 5 && bytes[a] == 116 && bytes[a + 1] == 114 && bytes[a + 2] == 107 && bytes[a + 3]
        == 112 && bytes[a + 4] == 116
}

/// The byte range `[a, e)` spells `time`.
fn check_time(bytes: &Vec<u8>, a: usize, e: usize) -> (r: bool)
    requires
        a <= e <= bytes@.len(),
    ensures
        r == name_is_time(bytes@, a as int, e as int),
{
    e - a == 4 && bytes[a] == 116 && bytes[a + 1] == 105 && bytes[a + 2] == 109 && bytes[a + 3]
        == 101
}

/// The byte range `[a, e)` spells `ele`.
fn check_ele(bytes: &Vec<u8>, a: usize, e: usize) -> (r: bool)
    requires
        a <= e <= bytes@.len(),
    ensures
        r == name_is_ele(bytes@, a as int, e as int),
{
    e - a == 3 && bytes[a] == 101 && bytes[a + 1] == 108 && bytes[a + 2] == 101
}

/// Applies a start tag to the scan state: opens `time` or `ele`,
/// or reads a track point's `lat` and `lon` attributes.
fn step_start(
    bytes: &Vec<u8>,
    st: &mut LoaderCore,
    name_start: usize,
    name_end: usize,
    attrs: crate::io::gpx_xml::StartAttrs,
    empty: bool,
) -> (r: Result<(), IOError>)
    requires
        name_start <= name_end <= bytes@.len(),
        attrs.has_lat ==> attrs.lat_start <= attrs.lat_end <= bytes@.len(),
        attrs.has_lon ==> attrs.lon_start <= attrs.lon_end <= bytes@.len(),
    ensures
        match r {
            Result::Ok(_) => spec_step(
                bytes@,
                *old(st),
                GpxEvent::Start { name_start, name_end, attrs, empty },
            ) == Result::<(LoaderCore, Option<SpatialPoint>), LoadFail>::Ok(
                (*final(st), Option::None),
            ),
            Result::Err(e) => {
                &&& spec_step(
                    bytes@,
                    *old(st),
                    GpxEvent::Start { name_start, name_end, attrs, empty },
                ) == Result::<(LoaderCore, Option<SpatialPoint>), LoadFail>::Err(LoadFail::Parser)
                &&& e.etype is XmlParsingFail
            },
        },
        final(st).base_tod == old(st).base_tod,
{
    if empty {
        return Result::Ok(());
    }
    if check_time(bytes, name_start, name_end) {
        st.in_time = true;
        return Result::Ok(());
    }
    if check_ele(bytes, name_start, name_end) {
        st.in_ele = true;
        return Result::Ok(());
    }
    if check_trkpt(bytes, name_start, name_end) {
        if !attrs.has_lat || !attrs.has_lon {
            return Result::Err(
                IOError::xml_parser(
                    "gpx document",
                    "a track point is missing its lat or lon attribute",
                ),
            );
        }
        let latv = match parse_dec_scaled(bytes, attrs.lat_start, attrs.lat_end, 6) {
            Option::Some(v) => v,
            Option::None => {
                return Result::Err(
                    IOError::xml_parser("gpx document", "invalid data in a lat field"),
                );
            },
        };
        let lonv = match parse_dec_scaled(bytes, attrs.lon_start, attrs.lon_end, 6) {
            Option::Some(v) => v,
            Option::None => {
                return Result::Err(
                    IOError::xml_parser("gpx document", "invalid data in a lon field"),
                );
            },
        };
        st.lat = latv;
        st.lon = lonv;
        return Result::Ok(());
    }
    Result::Ok(())
}

/// Applies an end tag to the scan state: emits the pending track
/// point or closes `time` or `ele`.
fn step_end(bytes: &Vec<u8>, st: &mut LoaderCore, name_start: usize, name_end: usize) -> (emit:
    Option<SpatialPoint>)
    requires
        name_start <= name_end <= bytes@.len(),
    ensures
        spec_step(bytes@, *old(st), GpxEvent::End { name_start, name_end }) == Result::<
            (LoaderCore, Option<SpatialPoint>),
            LoadFail,
        >::Ok((*final(st), emit)),
        final(st).base_tod == old(st).base_tod,
{
    if check_trkpt(bytes, name_start, name_end) {
        let pt = SpatialPoint {
            lon: st.lon,
            lat: st.lat,
            elev: Option::Some(st.elev),
            delta_ms: Option::Some(st.cur_delta),
        };
        st.lat = 0;
        st.lon = 0;
        st.elev = 0;
        return Option::Some(pt);
    }
    if check_time(bytes, name_start, name_end) {
        st.in_time = false;
        return Option::None;
    }
    if check_ele(bytes, name_start, name_end) {
        st.in_ele = false;
        return Option::None;
    }
    Option::None
}

/// Applies a text node to the scan state: the track start, a sample
/// time, or an elevation.
fn step_text(bytes: &Vec<u8>, st: &mut LoaderCore, start: usize, end: usize) -> (r: Result<
    (),
    IOError,
>)
    requires
        start <= end <= bytes@.len(),
        0 <= old(st).base_tod < 86400000,
    ensures
        match r {
            Result::Ok(_) => spec_step(bytes@, *old(st), GpxEvent::Text { start, end })
                == Result::<(LoaderCore, Option<SpatialPoint>), LoadFail>::Ok(
                (*final(st), Option::None),
            ),
            Result::Err(e) => {
                &&& spec_step(bytes@, *old(st), GpxEvent::Text { start, end }) is Err
                &&& (spec_step(bytes@, *old(st), GpxEvent::Text { start, end }) == Result::<
                    (LoaderCore, Option<SpatialPoint>),
                    LoadFail,
                >::Err(LoadFail::Parser) ==> e.etype is XmlParsingFail)
                &&& (spec_step(bytes@, *old(st), GpxEvent::Text { start, end }) == Result::<
                    (LoaderCore, Option<SpatialPoint>),
                    LoadFail,
                >::Err(LoadFail::Reader) ==> e.etype is XmlReaderFail)
            },
        },
        0 <= final(st).base_tod < 86400000,
{
    if st.in_time && !st.in_ele {
        if !st.have_start {
            let v = match parse_rfc3339(bytes, start, end) {
                Option::Some(v) => v,
                Option::None => {
                    return Result::Err(
                        IOError::xml_parser(
                            "gpx document",
                            "the track start time is not a valid timestamp",
                        ),
                    );
                },
            };
            if v < 0 {
                return Result::Err(
                    IOError::xml_parser(
                        "gpx document",
                        "the track start time is before the epoch",
                    ),
                );
            }
            st.have_start = true;
            st.start_ms = v;
            st.base_tod = v % 86400000;
            st.cur_delta = 0;
            st.prev_delta = 0;
            st.in_time = false;
            return Result::Ok(());
        }
        let tod = match parse_fast_time(bytes, start, end) {
            Option::Some(v) => v,
            Option::None => {
                return Result::Err(
                    IOError::xml_parser(
                        "gpx document",
                        "a sample time does not carry the fixed clock layout",
                    ),
                );
            },
        };
        let delta = tod - st.base_tod;
        if delta < st.prev_delta {
            return Result::Err(
                IOError::xml_parser("gpx document", "sample times do not increase"),
            );
        }
        st.cur_delta = delta;
        st.prev_delta = delta;
        st.in_time = false;
        return Result::Ok(());
    }
    if st.in_ele && !st.in_time {
        let ev2 = match parse_dec_scaled(bytes, start, end, 3) {
            Option::Some(v) => v,
            Option::None => {
                return Result::Err(
                    IOError::xml_reader("gpx document", "invalid data in an elevation field"),
                );
            },
        };
        st.elev = ev2;
        return Result::Ok(());
    }
    Result::Ok(())
}

/// Scans a GPX document into its track points and start timestamp,
/// exactly as the scan specification reads it.
#[verifier::loop_isolation(false)]
#[verifier::rlimit(100)]
pub fn load_track_bytes(bytes: &Vec<u8>) -> (r: Result<(Vec<SpatialPoint>, i64), IOError>)
    ensures
        match r {
            Result::Ok(out) => spec_load(bytes@) == Result::<_, LoadFail>::Ok(
                (out.0@, out.1 as i64),
            ),
            Result::Err(e) => {
                &&& spec_load(bytes@) is Err
                &&& (spec_load(bytes@) == Result::<(Seq<SpatialPoint>, i64), _>::Err(
                    LoadFail::Reader,
                ) ==> e.etype is XmlReaderFail)
                &&& (spec_load(bytes@) == Result::<(Seq<SpatialPoint>, i64), _>::Err(
                    LoadFail::Parser,
                ) ==> e.etype is XmlParsingFail)
            },
        },
{
    let ghost gs = bytes@;
    let n = bytes.len();
    let ghost fuel0 = (n + 1) as nat;
    let mut st = LoaderCore {
        lat: 0,
        lon: 0,
        elev: 0,
        in_time: false,
        in_ele: false,
        have_start: false,
        start_ms: 0,
        base_tod: 0,
        cur_delta: 0,
        prev_delta: 0,
    };
    let mut points: Vec<SpatialPoint> = Vec::new();
    let mut pos: usize = 0;
    let ghost mut fuel = fuel0;
    loop
        invariant
            pos <= n,
            n == gs.len(),
            gs == bytes@,
            0 <= st.base_tod < 86400000,
            fuel >= n - pos + 1,
            spec_load(gs) == spec_run(gs, pos as int, st, points@, fuel),
        decreases n - pos,
    {
        let ev_np = next_event(bytes, pos);
        let ev = ev_np.0;
        let np = ev_np.1;
        proof {
            assert(fuel > 0);
        }
        match ev {
            GpxEvent::Eof => {
                let start = if st.have_start {
                    st.start_ms
                } else {
                    0
                };
                return Result::Ok((points, start));
            },
            GpxEvent::Bad => {
                proof {
                    assert(spec_step(gs, st, GpxEvent::Bad) == Result::<
                        (LoaderCore, Option<SpatialPoint>),
                        LoadFail,
                    >::Err(LoadFail::Reader));
                }
                return Result::Err(
                    IOError::xml_reader("gpx document", "malformed markup in the document"),
                );
            },
            GpxEvent::Skip => {
                proof {
                    assert(spec_step(gs, st, GpxEvent::Skip) == Result::<
                        (LoaderCore, Option<SpatialPoint>),
                        LoadFail,
                    >::Ok((st, Option::None)));
                }
            },
            GpxEvent::Start { name_start, name_end, attrs, empty } => {
                match step_start(bytes, &mut st, name_start, name_end, attrs, empty) {
                    Result::Ok(_) => {},
                    Result::Err(e) => {
                        return Result::Err(e);
                    },
                }
            },
            GpxEvent::End { name_start, name_end } => {
                match step_end(bytes, &mut st, name_start, name_end) {
                    Option::Some(pt) => {
                        points.push(pt);
                    },
                    Option::None => {},
                }
            },
            GpxEvent::Text { start, end } => {
                match step_text(bytes, &mut st, start, end) {
                    Result::Ok(_) => {},
                    Result::Err(e) => {
                        return Result::Err(e);
                    },
                }
            },
        }
        pos = np;
        proof {
            fuel = (fuel - 1) as nat;
        }
    }
}

/// The start of the file name: the index after the last slash.
pub open spec fn stem_start(s: Seq<char>, i: int) -> int
    decreases i,
{
    if i <= 0 {
        0
    } else if s[i - 1] == '/' {
        i
    } else {
        stem_start(s, i - 1)
    }
}

/// The index of the last dot at or after `lo`, or minus one.
pub open spec fn last_dot(s: Seq<char>, i: int, lo: int) -> int
    decreases i - lo,
{
    if i <= lo {
        -1
    } else if s[i - 1] == '.' {
        i - 1
    } else {
        last_dot(s, i - 1, lo)
    }
}

/// The path's file name carries an extension: a dot after the
/// name's first character.
pub open spec fn path_has_ext(s: Seq<char>) -> bool {
    last_dot(s, s.len() as int, stem_start(s, s.len() as int)) > stem_start(s, s.len() as int)
}

/// The path's extension is exactly `gpx`.
pub open spec fn path_ext_is_gpx(s: Seq<char>) -> bool {
    let d = last_dot(s, s.len() as int, stem_start(s, s.len() as int));
    &&& path_has_ext(s)
    &&& s.len() - d - 1 == 3
    &&& s[d + 1] == 'g'
    &&& s[d + 2] == 'p'
    &&& s[d + 3] == 'x'
}

/// Loads a track from a GPX document: the path must end in the
/// `gpx` extension, and the document is scanned into samples in
/// document order with monotone time offsets.
#[verifier::loop_isolation(false)]
pub fn load_track(path: &str, bytes: &Vec<u8>) -> (r: Result<SpatialTrack, IOError>)
    ensures
        match r {
            Result::Ok(tr) => {
                &&& path_ext_is_gpx(path@)
                &&& spec_load(bytes@) == Result::<_, LoadFail>::Ok(
                    (tr.track@, tr.start_time_ms as i64),
                )
            },
            Result::Err(e) => {
                &&& !(path_ext_is_gpx(path@) && spec_load(bytes@) is Ok)
                &&& (!path_has_ext(path@) ==> e.etype is InvalidPath)
                &&& (path_has_ext(path@) && !path_ext_is_gpx(path@)
                    ==> e.etype is FormatNotSupported)
                &&& (path_ext_is_gpx(path@) && spec_load(bytes@) == Result::<
                    (Seq<SpatialPoint>, i64),
                    _,
                >::Err(LoadFail::Reader) ==> e.etype is XmlReaderFail)
                &&& (path_ext_is_gpx(path@) && spec_load(bytes@) == Result::<
                    (Seq<SpatialPoint>, i64),
                    _,
                >::Err(LoadFail::Parser) ==> e.etype is XmlParsingFail)
            },
        },
{
    let ghost gp = path@;
    let n = path.unicode_len();
    // The start of the file name.
    let mut fs: usize = n;
    while fs > 0
        invariant
            fs <= n,
            n == gp.len(),
            stem_start(gp, n as int) == stem_start(gp, fs as int),
        decreases fs,
    {
        let c = path.get_char(fs - 1);
        if c == '/' {
            break ;
        }
        fs -= 1;
    }
    proof {
        assert(stem_start(gp, fs as int) == fs || fs == 0);
        assert(stem_start(gp, n as int) == fs);
    }
    // The last dot of the file name.
    let mut d: usize = n;
    let mut found = false;
    while d > fs && !found
        invariant
            fs <= d <= n,
            n == gp.len(),
            !found ==> last_dot(gp, n as int, fs as int) == last_dot(gp, d as int, fs as int),
            found ==> d >= fs && (d as int) < n && gp[d as int] == '.' && last_dot(
                gp,
                n as int,
                fs as int,
            ) == d as int,
        decreases d - fs,
    {
        let c = path.get_char(d - 1);
        if c == '.' {
            d -= 1;
            found = true;
        } else {
            d -= 1;
        }
    }
    if !found {
        proof {
            assert(last_dot(gp, n as int, fs as int) == -1);
        }
        return Result::Err(
            IOError::invalid_path(path, "could not collect the path extension"),
        );
    }
    if d == fs {
        return Result::Err(
            IOError::invalid_path(path, "could not collect the path extension"),
        );
    }
    let ext_ok = n - d - 1 == 3 && path.get_char(d + 1) == 'g' && path.get_char(d + 2) == 'p'
        && path.get_char(d + 3) == 'x';
    if !ext_ok {
        return Result::Err(
            IOError::format_not_supported(path, "only the gpx track format is supported"),
        );
    }
    let loaded = match load_track_bytes(bytes) {
        Result::Ok(out) => out,
        Result::Err(e) => {
            return Result::Err(e);
        },
    };
    Result::Ok(SpatialTrack { track: loaded.0, start_time_ms: loaded.1 })
}

/// The delta of a loaded sample.
pub open spec fn sample_delta(p: SpatialPoint) -> int {
    match p.delta_ms {
        Option::Some(d) => d as int,
        Option::None => 0,
    }
}

/// The invariant the scan keeps of its time offsets.
pub open spec fn deltas_sorted(acc: Seq<SpatialPoint>, st: LoaderCore) -> bool {
    &&& forall|i: int|
        0 < i < acc.len() ==> sample_delta(acc[i - 1]) <= #[trigger] sample_delta(acc[i])
    &&& acc.len() > 0 ==> sample_delta(acc[acc.len() - 1]) <= st.cur_delta
    &&& st.prev_delta == st.cur_delta
    &&& st.cur_delta >= 0
    &&& 0 <= st.base_tod < 86400000
    &&& !st.have_start ==> st.cur_delta == 0
}

/// Time offsets never decrease along a successful scan.
pub proof fn lemma_run_deltas_monotone(
    s: Seq<u8>,
    pos: int,
    st: LoaderCore,
    acc: Seq<SpatialPoint>,
    fuel: nat,
    pts: Seq<SpatialPoint>,
    t: i64,
)
    requires
        deltas_sorted(acc, st),
        spec_run(s, pos, st, acc, fuel) == Result::<_, LoadFail>::Ok((pts, t)),
    ensures
        forall|i: int|
            0 < i < pts.len() ==> sample_delta(pts[i - 1]) <= #[trigger] sample_delta(pts[i]),
    decreases fuel,
{
    if fuel > 0 {
        let (ev, np) = next_event_s(s, pos);
        if ev is Eof {
        } else {
            match spec_step(s, st, ev) {
                Result::Err(_) => {},
                Result::Ok(p) => {
                    let acc2 = match p.1 {
                        Option::Some(pt) => acc.push(pt),
                        Option::None => acc,
                    };
                    assert(deltas_sorted(acc2, p.0)) by {
                        match ev {
                            GpxEvent::Start { name_start, name_end, attrs, empty } => {
                                assert(acc2 == acc);
                                assert(p.0.cur_delta == st.cur_delta);
                                assert(p.0.prev_delta == st.prev_delta);
                                assert(p.0.have_start == st.have_start);
                            },
                            GpxEvent::End { name_start, name_end } => {
                                assert(p.0.cur_delta == st.cur_delta);
                                assert(p.0.prev_delta == st.prev_delta);
                                assert(p.0.have_start == st.have_start);
                                match p.1 {
                                    Option::Some(pt) => {
                                        assert(pt.delta_ms == Option::Some(st.cur_delta));
                                        assert(acc2 == acc.push(pt));
                                        assert forall|i: int|
                                            0 < i < acc2.len() implies sample_delta(acc2[i - 1])
                                            <= (#[trigger] sample_delta(acc2[i])) by {
                                            if i < acc2.len() - 1 {
                                                assert(acc2[i] == acc[i]);
                                                assert(acc2[i - 1] == acc[i - 1]);
                                            } else {
                                                assert(acc2[i] == pt);
                                                if i >= 1 {
                                                    assert(acc2[i - 1] == acc[i - 1]);
                                                }
                                            }
                                        }
                                        assert(sample_delta(acc2[acc2.len() - 1])
                                            == st.cur_delta);
                                    },
                                    Option::None => {
                                        assert(acc2 == acc);
                                    },
                                }
                            },
                            GpxEvent::Text { start, end } => {
                                assert(acc2 == acc);
                                if st.in_time && !st.in_ele {
                                    if !st.have_start {
                                        assert(st.cur_delta == 0);
                                        let v = rfc3339_ms(s, start as int, end as int);
                                        vstd::arithmetic::div_mod::lemma_mod_bound(v, 86400000);
                                        assert(p.0.cur_delta == 0);
                                        assert(p.0.prev_delta == 0);
                                    } else {
                                        crate::io::gpx_num::lemma_fast_time_ms_bounds(
                                            s,
                                            start as int,
                                            end as int,
                                        );
                                        assert(p.0.cur_delta >= st.cur_delta);
                                        assert(p.0.prev_delta == p.0.cur_delta);
                                    }
                                } else {
                                    assert(p.0.cur_delta == st.cur_delta);
                                    assert(p.0.prev_delta == st.prev_delta);
                                    assert(p.0.have_start == st.have_start);
                                }
                            },
                            _ => {
                                assert(acc2 == acc);
                                assert(p.0 == st);
                            },
                        }
                    }
                    lemma_run_deltas_monotone(s, np, p.0, acc2, (fuel - 1) as nat, pts, t);
                },
            }
        }
    }
}

/// The samples of a loaded track carry nondecreasing time offsets.
pub proof fn lemma_loaded_deltas_monotone(s: Seq<u8>, pts: Seq<SpatialPoint>, t: i64)
    requires
        spec_load(s) == Result::<_, LoadFail>::Ok((pts, t)),
    ensures
        forall|i: int|
            0 < i < pts.len() ==> sample_delta(pts[i - 1]) <= #[trigger] sample_delta(pts[i]),
{
    lemma_run_deltas_monotone(
        s,
        0,
        init_core(),
        Seq::empty(),
        (s.len() + 1) as nat,
        pts,
        t,
    );
}

} // verus!
