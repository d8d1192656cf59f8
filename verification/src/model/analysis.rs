//! The ordered severity ladder assigned to snapped samples.

use vstd::prelude::*;
use crate::config::analysis::AnalysisConfig;
use crate::model::points::MatchPoint;

verus! {

/// How far a snapped sample deviates from expected course behaviour,
/// from no deviation to the capped maximum.
#[derive(Debug, Clone, Copy, PartialEq, Eq, Structural)]
pub enum Severity {
    Fine,
    Minor,
    Moderate,
    Severe,
    Max,
}

/// The rank of a severity on the ladder.
pub open spec fn severity_rank(s: Severity) -> int {
    match s {
        Severity::Fine => 0,
        Severity::Minor => 1,
        Severity::Moderate => 2,
        Severity::Severe => 3,
        Severity::Max => 4,
    }
}

/// The severity at a given raw rank, capping everything at the top of
/// the ladder.
pub open spec fn severity_of_raw(v: int) -> Severity {
    if v <= 0 {
        Severity::Fine
    } else if v == 1 {
        Severity::Minor
    } else if v == 2 {
        Severity::Moderate
    } else if v == 3 {
        Severity::Severe
    } else {
        Severity::Max
    }
}

impl Severity {
    /// Maps a raw ladder rank to its severity, capped at the maximum.
    pub fn from_u16(v: u16) -> (s: Severity)
        ensures
            s == severity_of_raw(v as int),
    {
        match v {
            0 => Severity::Fine,
            1 => Severity::Minor,
            2 => Severity::Moderate,
            3 => Severity::Severe,
            _ => Severity::Max,
        }
    }
}

/// Millimetres rounded to whole metres, half away from zero, for a
/// nonnegative length.
pub open spec fn round_to_m(mm: int) -> int {
    (mm + 500) / 1000
}

/// Lateral severity of one match: within the allowed deviance the
/// sample is clean; beyond it, the excess and the severity step are
/// both rounded to whole metres and their quotient, plus one, is the
/// ladder rank.
pub open spec fn spec_lateral_severity(lateral: int, allowed: int, inc: int) -> Severity {
    if lateral <= allowed {
        Severity::Fine
    } else {
        severity_of_raw(round_to_m(lateral - allowed) / round_to_m(inc) + 1)
    }
}

/// Directional severity of one match: a non-positive similarity is
/// the capped maximum; below the directional threshold the gap,
/// rounded to whole multiples of the metre-rounded severity step,
/// plus one, is the ladder rank; at or above the threshold the sample
/// is clean.
pub open spec fn spec_directional_severity(sim: int, dir_dev: int, inc: int) -> Severity {
    if sim <= 0 {
        Severity::Max
    } else if sim < dir_dev {
        let i = round_to_m(inc);
        severity_of_raw((dir_dev - sim + 500 * i) / (1000 * i) + 1)
    } else {
        Severity::Fine
    }
}

/// The start of the maximal run of non-clean entries that ends just
/// before `i`: walks back while the previous entry is not clean.
pub open spec fn run_start(s: Seq<Severity>, i: int) -> int
    decreases i,
{
    if i <= 0 {
        0
    } else if s[i - 1] != Severity::Fine {
        run_start(s, i - 1)
    } else {
        i
    }
}

/// The end of the run of non-clean entries starting at `i`: walks
/// forward while the entry is not clean.
pub open spec fn run_end(s: Seq<Severity>, i: int) -> int
    decreases s.len() - i,
{
    if i >= s.len() {
        s.len() as int
    } else if s[i] != Severity::Fine {
        run_end(s, i + 1)
    } else {
        i
    }
}

/// The length of the maximal run of non-clean entries containing
/// `i`; meaningful when `s[i]` is not clean.
pub open spec fn run_len(s: Seq<Severity>, i: int) -> int {
    run_end(s, i) - run_start(s, i)
}

/// The continuous-run filter on severities: a non-clean entry
/// survives exactly when its maximal run reaches the minimum length;
/// all other entries are clean.
pub open spec fn spec_filtered(s: Seq<Severity>, min: int) -> Seq<Severity> {
    Seq::new(
        s.len(),
        |i: int|
            if s[i] != Severity::Fine && run_len(s, i) >= min {
                s[i]
            } else {
                Severity::Fine
            },
    )
}

/// The continuous-run filter on matches: the error flag is raised on
/// every entry whose severity survives the filter; nothing else
/// changes.
pub open spec fn spec_flagged(ms: Seq<MatchPoint>, s: Seq<Severity>, min: int) -> Seq<MatchPoint> {
    Seq::new(
        ms.len(),
        |i: int|
            MatchPoint {
                count_to_error: ms[i].count_to_error || (s[i] != Severity::Fine && run_len(s, i)
                    >= min),
                ..ms[i]
            },
    )
}

/// What `run_start` yields: the run back from `i` is non-clean, and
/// it is bounded by the sequence start or a clean entry.
pub proof fn lemma_run_start_char(s: Seq<Severity>, i: int)
    requires
        0 <= i <= s.len(),
    ensures
        0 <= run_start(s, i) <= i,
        forall|q: int| run_start(s, i) <= q < i ==> (#[trigger] s[q]) != Severity::Fine,
        run_start(s, i) == 0 || s[run_start(s, i) - 1] == Severity::Fine,
    decreases i,
{
    if i > 0 && s[i - 1] != Severity::Fine {
        lemma_run_start_char(s, i - 1);
    }
}

/// `run_start` is pinned down by the characterisation.
pub proof fn lemma_run_start_unique(s: Seq<Severity>, i: int, a: int)
    requires
        0 <= a <= i <= s.len(),
        forall|q: int| a <= q < i ==> (#[trigger] s[q]) != Severity::Fine,
        a == 0 || s[a - 1] == Severity::Fine,
    ensures
        run_start(s, i) == a,
    decreases i,
{
    if i > a {
        lemma_run_start_unique(s, i - 1, a);
    }
}

/// What `run_end` yields: the run from `i` is non-clean, and it is
/// bounded by the sequence end or a clean entry.
pub proof fn lemma_run_end_char(s: Seq<Severity>, i: int)
    requires
        0 <= i <= s.len(),
    ensures
        i <= run_end(s, i) <= s.len(),
        forall|q: int| i <= q < run_end(s, i) ==> (#[trigger] s[q]) != Severity::Fine,
        run_end(s, i) == s.len() || s[run_end(s, i)] == Severity::Fine,
    decreases s.len() - i,
{
    if i < s.len() && s[i] != Severity::Fine {
        lemma_run_end_char(s, i + 1);
    }
}

/// `run_end` is pinned down by the characterisation.
pub proof fn lemma_run_end_unique(s: Seq<Severity>, i: int, e: int)
    requires
        0 <= i <= e <= s.len(),
        forall|q: int| i <= q < e ==> (#[trigger] s[q]) != Severity::Fine,
        e == s.len() || s[e] == Severity::Fine,
    ensures
        run_end(s, i) == e,
    decreases e - i,
{
    if i < e {
        lemma_run_end_unique(s, i + 1, e);
    }
}

/// Filter idempotence: the continuous-run filter is a no-op on an
/// already-filtered severity sequence.
pub proof fn lemma_filter_idempotent(s: Seq<Severity>, min: int)
    requires
        min >= 1,
    ensures
        spec_filtered(spec_filtered(s, min), min) == spec_filtered(s, min),
{
    let t = spec_filtered(s, min);
    assert forall|i: int| 0 <= i < t.len() implies spec_filtered(t, min)[i] == t[i] by {
        if t[i] != Severity::Fine {
            let a = run_start(s, i);
            let e = run_end(s, i);
            lemma_run_start_char(s, i);
            lemma_run_end_char(s, i + 1);
            lemma_run_end_char(s, i);
            assert forall|q: int| a <= q < e implies (#[trigger] t[q]) != Severity::Fine by {
                if q < i {
                    lemma_run_start_unique(s, q, a);
                    lemma_run_end_unique(s, q, e);
                } else if q > i {
                    lemma_run_start_unique(s, q, a);
                    lemma_run_end_unique(s, q, e);
                }
                assert(run_len(s, q) == e - a);
            }
            assert(a == 0 || t[a - 1] == Severity::Fine);
            assert(e == t.len() || t[e] == Severity::Fine);
            lemma_run_start_unique(t, i, a);
            lemma_run_end_unique(t, i, e);
            assert(run_len(t, i) == e - a);
            assert(run_len(s, i) == e - a);
        }
    }
    assert(spec_filtered(t, min) =~= t);
}


/// The per-point lateral severities of a matched track.
pub open spec fn lateral_severities(ms: Seq<MatchPoint>, allowed: int, inc: int) -> Seq<Severity> {
    Seq::new(ms.len(), |q: int| spec_lateral_severity(ms[q].lateral as int, allowed, inc))
}

/// The per-point directional severities of a matched track.
pub open spec fn directional_severities(ms: Seq<MatchPoint>, dir_dev: int, inc: int) -> Seq<
    Severity,
> {
    Seq::new(
        ms.len(),
        |q: int| spec_directional_severity(ms[q].direction_similarity as int, dir_dev, inc),
    )
}

/// Applies the continuous-run filter in place: a run of non-clean
/// severities shorter than the minimum is reset to clean; a run at
/// least as long keeps its severities and has its matches flagged as
/// counting to error. A run still open at the end of the sequence is
/// subject to the same rule.
#[verifier::rlimit(60)]
pub fn set_error_flags(
    matches: &mut Vec<MatchPoint>,
    severity: &mut Vec<Severity>,
    config: &AnalysisConfig,
)
    requires
        old(matches)@.len() == old(severity)@.len(),
        config.wf(),
    ensures
        final(severity)@ == spec_filtered(
            old(severity)@,
            config.spec_minimum_cont_error() as int,
        ),
        final(matches)@ == spec_flagged(
            old(matches)@,
            old(severity)@,
            config.spec_minimum_cont_error() as int,
        ),
{
    let ghost olds = old(severity)@;
    let ghost oldm = old(matches)@;
    let ghost min = config.spec_minimum_cont_error() as int;
    let min_err = config.get_minimum_cont_error();
    let n = matches.len();
    let mut error_count: usize = 0;
    let mut i: usize = 0;
    while i < n
        invariant
            n == oldm.len(),
            n == olds.len(),
            matches@.len() == n,
            severity@.len() == n,
            min == min_err as int,
            min >= 1,
            i <= n,
            error_count <= i,
            error_count as int == i - run_start(olds, i as int),
            forall|p: int|
                i - error_count <= p < n ==> (#[trigger] severity@[p]) == olds[p],
            forall|p: int| i - error_count <= p < n ==> (#[trigger] matches@[p]) == oldm[p],
            forall|p: int|
                0 <= p < i - error_count ==> (#[trigger] severity@[p]) == spec_filtered(
                    olds,
                    min,
                )[p],
            forall|p: int|
                0 <= p < i - error_count ==> (#[trigger] matches@[p]) == spec_flagged(
                    oldm,
                    olds,
                    min,
                )[p],
        decreases n - i,
    {
        proof {
            lemma_run_start_char(olds, i as int);
        }
        let sv = severity[i];
        if sv == Severity::Fine {
            let ghost rs = i - error_count;
            proof {
                assert(olds[i as int] == Severity::Fine);
                assert forall|p: int| rs <= p < i implies run_start(olds, p) == rs as int
                    && run_end(olds, p) == i as int && (#[trigger] olds[p]) != Severity::Fine by {
                    lemma_run_start_unique(olds, p, rs as int);
                    lemma_run_end_unique(olds, p, i as int);
                }
            }
            let ghost sev_before = severity@;
            let ghost mat_before = matches@;
            if error_count >= min_err {
                let mut prev: usize = 1;
                while prev <= error_count
                    invariant
                        n == oldm.len(),
                        matches@.len() == n,
                        i < n,
                        error_count <= i,
                        1 <= min_err <= error_count,
                        1 <= prev <= error_count + 1,
                        mat_before.len() == n,
                        severity@ == sev_before,
                        forall|p: int|
                            0 <= p < n && !(i - prev < p && p < i) ==> (#[trigger] matches@[p])
                                == mat_before[p],
                        forall|p: int|
                            i - prev < p < i ==> (#[trigger] matches@[p]) == (MatchPoint {
                                count_to_error: true,
                                ..mat_before[p]
                            }),
                    decreases error_count + 1 - prev,
                {
                    let idx = i - prev;
                    let mut m = matches[idx];
                    m.count_to_error = true;
                    matches[idx] = m;
                    prev += 1;
                }
                proof {
                    assert forall|p: int|
                        0 <= p < i + 1 implies (#[trigger] severity@[p]) == spec_filtered(
                        olds,
                        min,
                    )[p] && matches@[p] == spec_flagged(oldm, olds, min)[p] by {
                        if rs <= p && p < i {
                            assert(run_len(olds, p) == i - rs);
                            assert(i - rs >= min);
                            assert(sev_before[p] == olds[p]);
                            assert(mat_before[p] == oldm[p]);
                            assert(matches@[p] == (MatchPoint {
                                count_to_error: true,
                                ..mat_before[p]
                            }));
                        } else if p == i {
                            assert(olds[p] == Severity::Fine);
                            assert(sev_before[p] == olds[p]);
                            assert(mat_before[p] == oldm[p]);
                        } else {
                            assert(sev_before[p] == spec_filtered(olds, min)[p]);
                            assert(mat_before[p] == spec_flagged(oldm, olds, min)[p]);
                        }
                    }
                }
            } else {
                let mut prev: usize = 1;
                while prev <= error_count
                    invariant
                        n == olds.len(),
                        severity@.len() == n,
                        i < n,
                        error_count <= i,
                        error_count < min_err,
                        1 <= prev <= error_count + 1,
                        sev_before.len() == n,
                        matches@ == mat_before,
                        forall|p: int|
                            0 <= p < n && !(i - prev < p && p < i) ==> (#[trigger] severity@[p])
                                == sev_before[p],
                        forall|p: int|
                            i - prev < p < i ==> (#[trigger] severity@[p]) == Severity::Fine,
                    decreases error_count + 1 - prev,
                {
                    severity[i - prev] = Severity::Fine;
                    prev += 1;
                }
                proof {
                    assert(severity@[i as int] == sev_before[i as int]);
                    assert(severity@[i as int] == Severity::Fine);
                    assert forall|p: int|
                        0 <= p < i + 1 implies (#[trigger] severity@[p]) == spec_filtered(
                        olds,
                        min,
                    )[p] && matches@[p] == spec_flagged(oldm, olds, min)[p] by {
                        if rs <= p && p < i {
                            assert(run_len(olds, p) == i - rs);
                            assert(i - rs < min);
                            assert(severity@[p] == Severity::Fine);
                            assert(sev_before[p] == olds[p]);
                            assert(mat_before[p] == oldm[p]);
                        } else if p == i {
                            assert(olds[p] == Severity::Fine);
                            assert(sev_before[p] == olds[p]);
                            assert(mat_before[p] == oldm[p]);
                        } else {
                            assert(sev_before[p] == spec_filtered(olds, min)[p]);
                            assert(severity@[p] == sev_before[p]);
                            assert(mat_before[p] == spec_flagged(oldm, olds, min)[p]);
                        }
                    }
                }
            }
            error_count = 0;
            proof {
                lemma_run_start_unique(olds, i as int + 1, i as int + 1);
                assert forall|p: int|
                    i + 1 - 0 <= p < n implies (#[trigger] severity@[p]) == olds[p] && matches@[p]
                    == oldm[p] by {
                    assert(sev_before[p] == olds[p]);
                    assert(mat_before[p] == oldm[p]);
                }
                assert(forall|p: int|
                    0 <= p < i + 1 ==> (#[trigger] severity@[p]) == spec_filtered(olds, min)[p]
                        && matches@[p] == spec_flagged(oldm, olds, min)[p]);
                assert(error_count as int == (i + 1) - run_start(olds, i as int + 1));
            }
        } else {
            error_count += 1;
            proof {
                assert(olds[i as int] != Severity::Fine);
                assert(run_start(olds, i as int + 1) == run_start(olds, i as int));
                assert forall|p: int|
                    i + 1 - error_count <= p < n implies (#[trigger] severity@[p]) == olds[p]
                        && matches@[p] == oldm[p] by {
                    assert(severity@[p] == olds[p]);
                    assert(matches@[p] == oldm[p]);
                }
                assert forall|p: int|
                    0 <= p < i + 1 - error_count implies (#[trigger] severity@[p]) == spec_filtered(
                        olds,
                        min,
                    )[p] && matches@[p] == spec_flagged(oldm, olds, min)[p] by {
                    assert(severity@[p] == spec_filtered(olds, min)[p]);
                    assert(matches@[p] == spec_flagged(oldm, olds, min)[p]);
                }
            }
        }
        i += 1;
        proof {
            assert forall|p: int|
                i - error_count <= p < n implies (#[trigger] severity@[p]) == olds[p] by {
                assert(severity@[p] == olds[p]);
            }
            assert forall|p: int|
                i - error_count <= p < n implies (#[trigger] matches@[p]) == oldm[p] by {
                assert(matches@[p] == oldm[p]);
            }
            assert forall|p: int|
                0 <= p < i - error_count implies (#[trigger] severity@[p]) == spec_filtered(
                    olds,
                    min,
                )[p] by {
                assert(severity@[p] == spec_filtered(olds, min)[p]);
            }
            assert forall|p: int|
                0 <= p < i - error_count implies (#[trigger] matches@[p]) == spec_flagged(
                    oldm,
                    olds,
                    min,
                )[p] by {
                assert(matches@[p] == spec_flagged(oldm, olds, min)[p]);
            }
        }
    }

    // A run still open at the end of the sequence.
    let ghost rs = n - error_count;
    proof {
        lemma_run_start_char(olds, n as int);
        assert forall|p: int| rs <= p < n implies run_start(olds, p) == rs as int && run_end(
            olds,
            p,
        ) == n as int && (#[trigger] olds[p]) != Severity::Fine by {
            lemma_run_start_unique(olds, p, rs as int);
            lemma_run_end_unique(olds, p, n as int);
        }
    }
    let ghost sev_before = severity@;
    let ghost mat_before = matches@;
    if error_count >= min_err {
        let mut prev: usize = error_count;
        while prev >= 1
            invariant
                n == oldm.len(),
                matches@.len() == n,
                error_count <= n,
                1 <= min_err <= error_count,
                prev <= error_count,
                mat_before.len() == n,
                severity@ == sev_before,
                forall|p: int|
                    0 <= p < n && !(n - error_count <= p && p < n - prev) ==> (
                    #[trigger] matches@[p]) == mat_before[p],
                forall|p: int|
                    n - error_count <= p < n - prev ==> (#[trigger] matches@[p]) == (MatchPoint {
                        count_to_error: true,
                        ..mat_before[p]
                    }),
            decreases prev,
        {
            let idx = n - prev;
            let mut m = matches[idx];
            m.count_to_error = true;
            matches[idx] = m;
            prev -= 1;
        }
    } else {
        let mut prev: usize = error_count;
        while prev >= 1
            invariant
                n == olds.len(),
                severity@.len() == n,
                error_count <= n,
                error_count < min_err,
                prev <= error_count,
                sev_before.len() == n,
                matches@ == mat_before,
                forall|p: int|
                    0 <= p < n && !(n - error_count <= p && p < n - prev) ==> (
                    #[trigger] severity@[p]) == sev_before[p],
                forall|p: int|
                    n - error_count <= p < n - prev ==> (#[trigger] severity@[p]) == Severity::Fine,
            decreases prev,
        {
            severity[n - prev] = Severity::Fine;
            prev -= 1;
        }
    }
    proof {
        assert forall|p: int|
            0 <= p < n implies (#[trigger] severity@[p]) == spec_filtered(olds, min)[p]
            && matches@[p] == spec_flagged(oldm, olds, min)[p] by {
            if rs <= p && p < n {
                assert(run_len(olds, p) == n - rs);
                assert(sev_before[p] == olds[p]);
                assert(mat_before[p] == oldm[p]);
                if n - rs >= min {
                    assert(matches@[p] == (MatchPoint {
                        count_to_error: true,
                        ..mat_before[p]
                    }));
                } else {
                    assert(severity@[p] == Severity::Fine);
                }
            } else {
                assert(sev_before[p] == spec_filtered(olds, min)[p]);
                assert(mat_before[p] == spec_flagged(oldm, olds, min)[p]);
            }
        }
        assert forall|p: int|
            0 <= p < n implies (#[trigger] matches@[p]) == spec_flagged(oldm, olds, min)[p] by {
            assert(severity@[p] == spec_filtered(olds, min)[p]);
        }
        assert(severity@ =~= spec_filtered(olds, min));
        assert(matches@ =~= spec_flagged(oldm, olds, min));
    }
}

/// Lateral severities of a matched track, with the continuous-run
/// filter applied: returns one severity per match, and flags the
/// matches of every surviving run as counting to error.
#[verifier::rlimit(60)]
pub fn classify_lateral(matches: &mut Vec<MatchPoint>, config: &AnalysisConfig) -> (r: Vec<
    Severity,
>)
    requires
        config.wf(),
        forall|j: int|
            0 <= j < old(matches)@.len() ==> (#[trigger] old(matches)@[j].lateral) <= i64::MAX
                - 500,
    ensures
        ({
            let sevs = lateral_severities(
                old(matches)@,
                config.spec_allowed_deviance() as int,
                config.spec_incremental_severity() as int,
            );
            &&& r@ == spec_filtered(sevs, config.spec_minimum_cont_error() as int)
            &&& final(matches)@ == spec_flagged(
                old(matches)@,
                sevs,
                config.spec_minimum_cont_error() as int,
            )
        }),
{
    let ghost ms0 = old(matches)@;
    let ghost sevs = lateral_severities(
        ms0,
        config.spec_allowed_deviance() as int,
        config.spec_incremental_severity() as int,
    );
    let mut computed: Vec<Severity> = Vec::new();
    let n = matches.len();
    let mut i: usize = 0;
    while i < n
        invariant
            n == old(matches)@.len(),
            matches@ == old(matches)@,
            ms0 == old(matches)@,
            sevs == lateral_severities(
                ms0,
                config.spec_allowed_deviance() as int,
                config.spec_incremental_severity() as int,
            ),
            config.wf(),
            forall|j: int|
                0 <= j < n ==> (#[trigger] old(matches)@[j].lateral) <= i64::MAX - 500,
            i <= n,
            computed@.len() == i,
            forall|j: int| 0 <= j < i ==> (#[trigger] computed@[j]) == sevs[j],
        decreases n - i,
    {
        let m = matches[i];
        let allowed = config.get_allowed_deviance();
        let sev = if m.lateral > allowed {
            let deviance: i64 = m.lateral - allowed;
            let dev_r: u64 = ((deviance as u64) + 500) / 1000;
            let inc_r: u64 = ((config.get_incremental_severity() as u64) + 500) / 1000;
            let raw: u64 = dev_r / inc_r + 1;
            proof {
                assert(dev_r as int == round_to_m(deviance as int));
                assert(inc_r as int == round_to_m(config.spec_incremental_severity() as int));
                assert(raw as int == round_to_m(deviance as int) / round_to_m(
                    config.spec_incremental_severity() as int,
                ) + 1);
            }
            if raw >= 4 {
                Severity::Max
            } else {
                Severity::from_u16(raw as u16)
            }
        } else {
            Severity::Fine
        };
        proof {
            assert(sevs[i as int] == spec_lateral_severity(
                ms0[i as int].lateral as int,
                config.spec_allowed_deviance() as int,
                config.spec_incremental_severity() as int,
            ));
            assert(sev == sevs[i as int]);
        }
        computed.push(sev);
        i += 1;
    }
    proof {
        assert(computed@ =~= sevs);
    }
    set_error_flags(matches, &mut computed, config);
    computed
}

/// Directional severities of a matched track, with the
/// continuous-run filter applied: returns one severity per match, and
/// flags the matches of every surviving run as counting to error.
#[verifier::rlimit(60)]
pub fn classify_directional(matches: &mut Vec<MatchPoint>, config: &AnalysisConfig) -> (r: Vec<
    Severity,
>)
    requires
        config.wf(),
    ensures
        ({
            let sevs = directional_severities(
                old(matches)@,
                config.spec_directional_deviance() as int,
                config.spec_incremental_severity() as int,
            );
            &&& r@ == spec_filtered(sevs, config.spec_minimum_cont_error() as int)
            &&& final(matches)@ == spec_flagged(
                old(matches)@,
                sevs,
                config.spec_minimum_cont_error() as int,
            )
        }),
{
    let ghost ms0 = old(matches)@;
    let ghost sevs = directional_severities(
        ms0,
        config.spec_directional_deviance() as int,
        config.spec_incremental_severity() as int,
    );
    let mut computed: Vec<Severity> = Vec::new();
    let n = matches.len();
    let mut i: usize = 0;
    while i < n
        invariant
            n == old(matches)@.len(),
            matches@ == old(matches)@,
            ms0 == old(matches)@,
            sevs == directional_severities(
                ms0,
                config.spec_directional_deviance() as int,
                config.spec_incremental_severity() as int,
            ),
            config.wf(),
            i <= n,
            computed@.len() == i,
            forall|j: int| 0 <= j < i ==> (#[trigger] computed@[j]) == sevs[j],
        decreases n - i,
    {
        let m = matches[i];
        let allowed_deviation = config.get_directional_deviance();
        let sev = if m.direction_similarity <= 0 {
            Severity::Max
        } else if m.direction_similarity < allowed_deviation {
            let deviance: i64 = allowed_deviation - m.direction_similarity;
            let inc_r: i64 = (config.get_incremental_severity() + 500) / 1000;
            let raw: i64 = (deviance + 500 * inc_r) / (1000 * inc_r) + 1;
            proof {
                assert(inc_r as int == round_to_m(config.spec_incremental_severity() as int));
                assert(raw as int == (deviance as int + 500 * (inc_r as int)) / (1000 * (
                inc_r as int)) + 1);
            }
            if raw >= 4 {
                Severity::Max
            } else {
                Severity::from_u16(raw as u16)
            }
        } else {
            Severity::Fine
        };
        proof {
            assert(sevs[i as int] == spec_directional_severity(
                ms0[i as int].direction_similarity as int,
                config.spec_directional_deviance() as int,
                config.spec_incremental_severity() as int,
            ));
            assert(sev == sevs[i as int]);
        }
        computed.push(sev);
        i += 1;
    }
    proof {
        assert(computed@ =~= sevs);
    }
    set_error_flags(matches, &mut computed, config);
    computed
}

} // verus!
