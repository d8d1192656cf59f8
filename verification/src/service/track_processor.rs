//! Matching rider tracks against reference tracks: the pre-flight
//! checks, the snap itself, and rider identification from file
//! names.

use vstd::prelude::*;
use crate::config::snapping::SnappingConfig;
use crate::errors::service_errors::{ServiceError, ServiceErrorType};
use crate::model::grid::Grid;
use crate::model::points::MatchPoint;
use crate::model::reference::ReferenceTrack;
use crate::model::riders::{MatchedTrack, RiderTrack};
use crate::service::snapping::{snap, snap_prefix};
use crate::text::{
    ascii_eq_ignore_case, is_u32_numeral, parse_u32_str, str_eq_ignore_ascii_case, trim_str,
    trimmed, u32_numeral_val,
};

verus! {

/// The rider and reference agree on CRS identifier (up to ASCII
/// case) and track origin.
pub open spec fn frames_match(rider_track: &RiderTrack, ref_track: &ReferenceTrack) -> bool {
    &&& ascii_eq_ignore_case(rider_track.projection@, ref_track.projection@)
    &&& rider_track.track_origin == ref_track.origin
}

/// Snaps a rider track onto a reference track through the grid built
/// over the reference. Fails exactly when the two tracks disagree on
/// CRS identifier or track origin; otherwise returns the matched
/// track, one match per rider vertex, under the rider's identity and
/// the reference's frame.
pub fn snap_rider_track(
    rider_track: &RiderTrack,
    ref_track: &ReferenceTrack,
    grid: &Grid,
    snapping_config: &SnappingConfig,
) -> (r: Result<MatchedTrack, ServiceError>)
    requires
        rider_track.wf(),
        ref_track.wf(),
        grid.wf(ref_track.track@),
        grid.dims_in_range(),
        1 <= ref_track.track@.len() <= 0xFFFF_FFFF,
    ensures
        match r {
            Result::Ok(mt) => {
                &&& frames_match(rider_track, ref_track)
                &&& mt.track@ == snap_prefix(
                    rider_track.track@,
                    ref_track.track@,
                    *grid,
                    snapping_config.spec_continuity_clamp(),
                    rider_track.track@.len() as int,
                )
                &&& mt.track@.len() == rider_track.track@.len()
                &&& mt.bound_uuid == rider_track.rider_uuid
                &&& mt.variant == rider_track.variant
                &&& mt.projection@ == ref_track.projection@
                &&& mt.start_time_ms == rider_track.start_time_ms
                &&& mt.track_origin == ref_track.origin
            },
            Result::Err(e) => {
                &&& !frames_match(rider_track, ref_track)
                &&& e.etype matches ServiceErrorType::TrackSnappingError(_)
            },
        },
{
    if !str_eq_ignore_ascii_case(rider_track.projection.as_str(), ref_track.projection.as_str()) {
        return Result::Err(
            ServiceError::track_snapping_error("the tracks are not in the same space"),
        );
    }
    if !(rider_track.track_origin == ref_track.origin) {
        return Result::Err(
            ServiceError::track_snapping_error("the tracks do not have the same track origin"),
        );
    }
    let mut mapped_track: Vec<MatchPoint> = Vec::new();
    snap(&rider_track.track, &ref_track.track, grid, &mut mapped_track, snapping_config);
    Result::Ok(
        MatchedTrack {
            bound_uuid: rider_track.rider_uuid,
            variant: rider_track.variant,
            projection: ref_track.projection.clone(),
            start_time_ms: rider_track.start_time_ms,
            track_origin: ref_track.origin,
            track: mapped_track,
        },
    )
}

/// Snaps the reference track onto the rider track, trading the time
/// information for a match of every reference vertex; the grid must
/// be built over the rider track, since that is the polyline searched
/// here. Fails exactly when the two tracks disagree on CRS identifier
/// or track origin.
pub fn snap_rider_track_inverse(
    rider_track: &RiderTrack,
    ref_track: &ReferenceTrack,
    grid: &Grid,
    snapping_config: &SnappingConfig,
) -> (r: Result<MatchedTrack, ServiceError>)
    requires
        rider_track.wf(),
        ref_track.wf(),
        grid.wf(rider_track.track@),
        grid.dims_in_range(),
        1 <= rider_track.track@.len() <= 0xFFFF_FFFF,
    ensures
        match r {
            Result::Ok(mt) => {
                &&& frames_match(rider_track, ref_track)
                &&& mt.track@ == snap_prefix(
                    ref_track.track@,
                    rider_track.track@,
                    *grid,
                    snapping_config.spec_continuity_clamp(),
                    ref_track.track@.len() as int,
                )
                &&& mt.track@.len() == ref_track.track@.len()
                &&& mt.bound_uuid == rider_track.rider_uuid
                &&& mt.variant == rider_track.variant
                &&& mt.projection@ == ref_track.projection@
                &&& mt.start_time_ms == rider_track.start_time_ms
                &&& mt.track_origin == ref_track.origin
            },
            Result::Err(e) => {
                &&& !frames_match(rider_track, ref_track)
                &&& e.etype matches ServiceErrorType::TrackSnappingError(_)
            },
        },
{
    if !str_eq_ignore_ascii_case(rider_track.projection.as_str(), ref_track.projection.as_str()) {
        return Result::Err(
            ServiceError::track_snapping_error("the tracks are not in the same space"),
        );
    }
    if !(rider_track.track_origin == ref_track.origin) {
        return Result::Err(
            ServiceError::track_snapping_error("the tracks do not have the same track origin"),
        );
    }
    let mut mapped_track: Vec<MatchPoint> = Vec::new();
    snap(&ref_track.track, &rider_track.track, grid, &mut mapped_track, snapping_config);
    Result::Ok(
        MatchedTrack {
            bound_uuid: rider_track.rider_uuid,
            variant: rider_track.variant,
            projection: ref_track.projection.clone(),
            start_time_ms: rider_track.start_time_ms,
            track_origin: ref_track.origin,
            track: mapped_track,
        },
    )
}

/// The bounds of the `k`-th underscore-separated field of `s`: start
/// index and end index (exclusive).
pub open spec fn field_start(s: Seq<char>, k: int) -> int
    decreases k,
{
    if k <= 0 {
        0
    } else {
        sep_after(s, field_start(s, k - 1)) + 1
    }
}

/// The index of the first underscore at or after `from`, or the
/// length.
pub open spec fn sep_after(s: Seq<char>, from: int) -> int
    decreases s.len() - from,
{
    if from < 0 || from >= s.len() {
        s.len() as int
    } else if s[from] == '_' {
        from
    } else {
        sep_after(s, from + 1)
    }
}

/// The `k`-th underscore-separated field of `s`.
pub open spec fn field_of(s: Seq<char>, k: int) -> Seq<char> {
    s.subrange(field_start(s, k), sep_after(s, field_start(s, k)))
}

/// The file stem has at least three underscore-separated fields.
pub open spec fn has_three_fields(s: Seq<char>) -> bool {
    field_start(s, 2) <= s.len()
}

/// A file stem names a rider when it has at least three
/// underscore-separated fields and the second and third, trimmed, are
/// `u32` numerals: day, bib and variant.
pub open spec fn stem_names_rider(s: Seq<char>) -> bool {
    &&& has_three_fields(s)
    &&& is_u32_numeral(trimmed(field_of(s, 1)))
    &&& is_u32_numeral(trimmed(field_of(s, 2)))
}

/// Reads bib and variant from a file stem of the form
/// `day_bib_variant`. Fails exactly when the stem has fewer than
/// three underscore-separated fields or one of the two numbers is not
/// a `u32` numeral.
pub fn compute_bib_from_file_name(stem: &str) -> (r: Result<(u32, u32), ServiceError>)
    ensures
        match r {
            Result::Ok(bv) => {
                &&& stem_names_rider(stem@)
                &&& bv.0 as int == u32_numeral_val(trimmed(field_of(stem@, 1)))
                &&& bv.1 as int == u32_numeral_val(trimmed(field_of(stem@, 2)))
            },
            Result::Err(e) => {
                &&& !stem_names_rider(stem@)
                &&& e.etype matches ServiceErrorType::InvalidData(_)
            },
        },
{
    let n = stem.unicode_len();
    let d0 = find_sep(stem, 0);
    proof {
        assert(field_start(stem@, 0) == 0);
        assert(sep_after(stem@, 0) == d0 as int);
    }
    if d0 == n {
        proof {
            assert(field_start(stem@, 1) == n + 1);
            assert(field_start(stem@, 2) == sep_after(stem@, n as int + 1) + 1);
            assert(sep_after(stem@, n as int + 1) == n);
        }
        return Result::Err(
            ServiceError::invalid_data("file name is not of the expected day, bib, variant form"),
        );
    }
    let d1 = find_sep(stem, d0 + 1);
    proof {
        assert(field_start(stem@, 1) == d0 + 1);
        assert(sep_after(stem@, d0 as int + 1) == d1 as int);
    }
    if d1 == n {
        proof {
            assert(field_start(stem@, 2) == n + 1);
            assert(sep_after(stem@, n as int + 1) == n);
        }
        return Result::Err(
            ServiceError::invalid_data("file name is not of the expected day, bib, variant form"),
        );
    }
    let d2 = find_sep(stem, d1 + 1);
    proof {
        assert(field_start(stem@, 2) == d1 + 1);
        assert(sep_after(stem@, d1 as int + 1) == d2 as int);
    }
    let part1 = stem.substring_char(d0 + 1, d1);
    let part2 = stem.substring_char(d1 + 1, d2);
    proof {
        assert(part1@ == field_of(stem@, 1));
        assert(part2@ == field_of(stem@, 2));
    }
    let bib = match parse_u32_str(trim_str(part1)) {
        Option::Some(v) => v,
        Option::None => {
            return Result::Err(
                ServiceError::invalid_data(
                    "bib part is not of unsigned integer type or does not fit on 32 bits",
                ),
            );
        },
    };
    let variant = match parse_u32_str(trim_str(part2)) {
        Option::Some(v) => v,
        Option::None => {
            return Result::Err(
                ServiceError::invalid_data(
                    "variant part is not of unsigned integer type or does not fit on 32 bits",
                ),
            );
        },
    };
    Result::Ok((bib, variant))
}

/// The index of the first underscore at or after `from`, or the
/// length of the string.
fn find_sep(stem: &str, from: usize) -> (r: usize)
    requires
        from <= stem@.len(),
    ensures
        r as int == sep_after(stem@, from as int),
        from <= r <= stem@.len(),
{
    let n = stem.unicode_len();
    let mut i: usize = from;
    while i < n
        invariant
            n == stem@.len(),
            from <= i <= n,
            sep_after(stem@, from as int) == sep_after(stem@, i as int),
        decreases n - i,
    {
        let c = stem.get_char(i) as u32;
        if c == 95 {
            proof {
                assert(stem@[i as int] == '_');
            }
            return i;
        }
        proof {
            assert(stem@[i as int] != '_');
        }
        i += 1;
    }
    n
}

} // verus!
