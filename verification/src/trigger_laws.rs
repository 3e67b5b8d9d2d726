//! What holds of the triggers of a running command: on which observations they
//! fire, told by the whole list of observations.

use vstd::prelude::*;

use crate::decimal::decimal;
use crate::numbers::{is_at_most, is_less};
use crate::regexes::regex_matches;
use crate::trigger_eval::{
    after_output, after_silence, first_meeting, improves, one_more, output_reason, plateau_after,
    silence_reason, ObservationView, RuntimeView,
};
use crate::trigger_policy::{MetricComparator, PlateauMode, TriggerView};

verus! {

/// Whether one observation is better than an earlier one by at least the least
/// improvement.
pub open spec fn is_better(
    mode: PlateauMode,
    observed: ObservationView,
    earlier: ObservationView,
) -> bool {
    match mode {
        PlateauMode::Min => is_at_most(observed.bits, earlier.less),
        PlateauMode::Max => is_at_most(earlier.plus, observed.bits),
    }
}

/// Whether `b` is the last marked position before `i`.
pub open spec fn is_last_mark(marks: Seq<bool>, b: int, i: int) -> bool {
    0 <= b < i && marks[b] && forall|j: int| b < j < i ==> !#[trigger] marks[j]
}

/// Whether the marks tell which observations improved: those that are better
/// than the last one that did, and the first.
pub open spec fn marks_improvements(
    mode: PlateauMode,
    all: Seq<ObservationView>,
    marks: Seq<bool>,
) -> bool {
    &&& marks.len() == all.len()
    &&& forall|i: int|
        0 <= i < all.len() ==> (#[trigger] marks[i] <==> forall|b: int| #[trigger]
            is_last_mark(marks, b, i) ==> is_better(mode, all[i], all[b]))
}

/// Whether none of the last `n` observations up to `k`, and at least that at
/// `k` itself, improved.
pub open spec fn is_stale_for(marks: Seq<bool>, k: int, n: int) -> bool {
    &&& 0 <= k < marks.len()
    &&& !marks[k]
    &&& n <= k + 1
    &&& forall|j: int| k - n < j <= k ==> !#[trigger] marks[j]
}

/// What is known of a plateau trigger that has seen `all` and has not fired: the
/// best is the last observation that improved, the count is that of the
/// observations since, and none of them was stale for long enough.
pub open spec fn has_seen(
    mode: PlateauMode,
    patience: usize,
    best: Option<ObservationView>,
    stale: usize,
    all: Seq<ObservationView>,
    marks: Seq<bool>,
) -> bool {
    &&& marks_improvements(mode, all, marks)
    &&& all.len() == 0 ==> best is None && stale == 0
    &&& all.len() > 0 ==> exists|b: int| #[trigger]
        is_last_mark(marks, b, all.len() as int) && best == Some(all[b]) && counts(
            stale,
            all.len() - 1 - b,
        )
    &&& forall|k: int| 0 <= k < all.len() ==> !#[trigger] is_stale_for(marks, k, patience as int)
}

/// Whether a counter shows a number, as far as it goes.
pub open spec fn counts(counter: usize, n: int) -> bool {
    counter == n || (counter == usize::MAX && n > usize::MAX)
}

/// Whether a plateau trigger fires at a position of all that it has seen, and
/// for no earlier one.
pub open spec fn fires_at(patience: usize, marks: Seq<bool>, p: int) -> bool {
    is_stale_for(marks, p, patience as int) && forall|k: int|
        0 <= k < p ==> !#[trigger] is_stale_for(marks, k, patience as int)
}

proof fn lemma_mark_step(
    mode: PlateauMode,
    patience: usize,
    best: Option<ObservationView>,
    stale: usize,
    all: Seq<ObservationView>,
    marks: Seq<bool>,
    next: ObservationView,
)
    requires
        has_seen(mode, patience, best, stale, all, marks),
    ensures
        ({
            let more = all.push(next);
            let better = improves(mode, best, next);
            let flags = marks.push(better);
            let count = if better { 0 } else { one_more(stale) };
            let top = if better { Some(next) } else { best };
            let n = all.len() as int;
            &&& marks_improvements(mode, more, flags)
            &&& forall|k: int| 0 <= k < n ==> !#[trigger] is_stale_for(flags, k, patience as int)
            &&& exists|b: int| #[trigger] is_last_mark(flags, b, n + 1) && top == Some(more[b])
                && counts(count, n - b)
            &&& is_stale_for(flags, n, patience as int) <==> !better && one_more(stale) >= patience
        }),
{
    let more = all.push(next);
    let better = improves(mode, best, next);
    let flags = marks.push(better);
    let n = all.len() as int;
    assert forall|i: int, b: int| 0 <= i <= n implies #[trigger] is_last_mark(flags, b, i)
        == is_last_mark(marks, b, i) by {
        if is_last_mark(flags, b, i) {
            assert forall|j: int| b < j < i implies !#[trigger] marks[j] by {
                assert(flags[j] == marks[j]);
            }
        }
        if is_last_mark(marks, b, i) {
            assert forall|j: int| b < j < i implies !#[trigger] flags[j] by {
                assert(flags[j] == marks[j]);
            }
        }
    }
    assert forall|i: int| 0 <= i < more.len() implies (#[trigger] flags[i] <==> forall|b: int|
     #[trigger]
        is_last_mark(flags, b, i) ==> is_better(mode, more[i], more[b])) by {
        if i < n {
            assert(flags[i] == marks[i]);
            if flags[i] {
                assert forall|b: int| #[trigger] is_last_mark(flags, b, i) implies is_better(
                    mode,
                    more[i],
                    more[b],
                ) by {
                    assert(is_last_mark(marks, b, i));
                }
            } else {
                let b = choose|b: int| #[trigger]
                    is_last_mark(marks, b, i) && !is_better(mode, all[i], all[b]);
                assert(is_last_mark(flags, b, i));
                assert(!is_better(mode, more[i], more[b]));
            }
        } else if n > 0 {
            let b = choose|b: int| #[trigger]
                is_last_mark(marks, b, n) && best == Some(all[b]) && counts(stale, n - 1 - b);
            assert(is_last_mark(flags, b, n));
            assert(better == is_better(mode, next, all[b]));
            assert forall|c: int| #[trigger] is_last_mark(flags, c, n) implies c == b by {
                assert(is_last_mark(marks, c, n));
                if c < b {
                    assert(!marks[b]);
                }
                if b < c {
                    assert(!marks[c]);
                }
            }
        }
    }
    assert forall|k: int| 0 <= k < n implies !#[trigger] is_stale_for(
        flags,
        k,
        patience as int,
    ) by {
        if is_stale_for(flags, k, patience as int) {
            assert(flags[k] == marks[k]);
            assert forall|j: int| k - patience < j <= k implies !#[trigger] marks[j] by {
                assert(flags[j] == marks[j]);
            }
            assert(is_stale_for(marks, k, patience as int));
        }
    }
    if better {
        assert(is_last_mark(flags, n, n + 1));
    } else {
        assert(n > 0);
        let b = choose|b: int| #[trigger]
            is_last_mark(marks, b, n) && best == Some(all[b]) && counts(stale, n - 1 - b);
        assert(flags[b] == marks[b]);
        assert forall|j: int| b < j < n + 1 implies !#[trigger] flags[j] by {
            if j < n {
                assert(flags[j] == marks[j]);
            }
        }
        assert(is_last_mark(flags, b, n + 1));
        assert(more[b] == all[b]);
        if one_more(stale) >= patience {
            assert(n - b >= patience);
            assert(is_stale_for(flags, n, patience as int));
        } else if is_stale_for(flags, n, patience as int) {
            assert(flags[b]);
            assert(b > n - patience);
        }
    }
}

/// What a plateau trigger makes of observations, told by all that it has seen.
proof fn lemma_plateau(
    mode: PlateauMode,
    patience: usize,
    best: Option<ObservationView>,
    stale: usize,
    before: Seq<ObservationView>,
    marks: Seq<bool>,
    seen: Seq<ObservationView>,
    from: int,
) -> (flags: Seq<bool>)
    requires
        0 <= from <= seen.len(),
        has_seen(mode, patience, best, stale, before + seen.take(from), marks),
    ensures
        ({
            let all = before + seen;
            let after = plateau_after(mode, patience, best, stale, seen, from);
            let start = before.len() as int;
            &&& after.2 is None ==> has_seen(mode, patience, after.0, after.1, all, flags)
            &&& after.2 matches Some(k) ==> {
                &&& from <= k < seen.len()
                &&& marks_improvements(mode, all.take(start + k + 1), flags)
                &&& fires_at(patience, flags, start + k)
                &&& exists|b: int| #[trigger] is_last_mark(flags, b, start + k + 1) && after.0
                    == Some(all[b]) && counts(after.1, start + k - b)
            }
        }),
    decreases seen.len() - from,
{
    let known = before + seen.take(from);
    let all = before + seen;
    if from >= seen.len() {
        assert(known =~= all);
        marks
    } else {
        let next = seen[from];
        lemma_mark_step(mode, patience, best, stale, known, marks, next);
        let more = before + seen.take(from + 1);
        assert(more =~= known.push(next));
        let better = improves(mode, best, next);
        let flags = marks.push(better);
        if better {
            assert(!is_stale_for(flags, known.len() as int, patience as int));
            lemma_plateau(mode, patience, Some(next), 0, before, flags, seen, from + 1)
        } else if one_more(stale) >= patience {
            let k = before.len() + from;
            assert(all.take(k + 1) =~= more);
            let b = choose|b: int| #[trigger]
                is_last_mark(flags, b, k + 1) && best == Some(more[b]) && counts(
                    one_more(stale),
                    k - b,
                );
            assert(all[b] == more[b]);
            assert(plateau_after(mode, patience, best, stale, seen, from) == (
                best,
                one_more(stale),
                Some(from),
            ));
            assert(marks_improvements(mode, all.take(k + 1), flags));
            assert(fires_at(patience, flags, k));
            flags
        } else {
            lemma_plateau(mode, patience, best, one_more(stale), before, flags, seen, from + 1)
        }
    }
}

/// The marks that tell which observations improved are the only ones.
pub proof fn lemma_one_way_to_mark(
    mode: PlateauMode,
    all: Seq<ObservationView>,
    longer: Seq<ObservationView>,
    a: Seq<bool>,
    b: Seq<bool>,
)
    requires
        marks_improvements(mode, all, a),
        marks_improvements(mode, longer, b),
        all.len() <= longer.len(),
        longer.take(all.len() as int) == all,
    ensures
        forall|i: int| 0 <= i < all.len() ==> #[trigger] a[i] == b[i],
{
    assert forall|i: int| 0 <= i < all.len() implies #[trigger] a[i] == b[i] by {
        lemma_same_mark(mode, all, longer, a, b, i);
    }
}

proof fn lemma_same_mark(
    mode: PlateauMode,
    all: Seq<ObservationView>,
    longer: Seq<ObservationView>,
    a: Seq<bool>,
    b: Seq<bool>,
    i: int,
)
    requires
        marks_improvements(mode, all, a),
        marks_improvements(mode, longer, b),
        all.len() <= longer.len(),
        longer.take(all.len() as int) == all,
        0 <= i < all.len(),
    ensures
        a[i] == b[i],
    decreases i,
{
    assert forall|j: int| 0 <= j < i implies #[trigger] a[j] == b[j] by {
        lemma_same_mark(mode, all, longer, a, b, j);
    }
    assert forall|j: int| 0 <= j < all.len() implies #[trigger] all[j] == longer[j] by {
        assert(longer.take(all.len() as int)[j] == longer[j]);
    }
    assert forall|k: int| #[trigger] is_last_mark(a, k, i) == is_last_mark(b, k, i) by {
        if is_last_mark(a, k, i) {
            assert(b[k] == a[k]);
            assert forall|j: int| k < j < i implies !#[trigger] b[j] by {
                assert(a[j] == b[j]);
            }
        }
        if is_last_mark(b, k, i) {
            assert(b[k] == a[k]);
            assert forall|j: int| k < j < i implies !#[trigger] a[j] by {
                assert(a[j] == b[j]);
            }
        }
    }
    if a[i] {
        assert forall|k: int| #[trigger] is_last_mark(b, k, i) implies is_better(
            mode,
            longer[i],
            longer[k],
        ) by {
            assert(is_last_mark(a, k, i));
            assert(all[i] == longer[i] && all[k] == longer[k]);
        }
    } else {
        let k = choose|k: int| #[trigger]
            is_last_mark(a, k, i) && !is_better(mode, all[i], all[k]);
        assert(is_last_mark(b, k, i));
        assert(all[i] == longer[i] && all[k] == longer[k]);
    }
}

/// Whether a plateau trigger has seen a list of observations, in however many
/// pieces, and has not fired.
pub open spec fn watches(trigger: RuntimeView, all: Seq<ObservationView>) -> bool {
    &&& !trigger.fired
    &&& trigger.spec matches TriggerView::Plateau { raw, metric, patience, min_delta, mode, pattern }
        && exists|marks: Seq<bool>| #[trigger]
        has_seen(mode, patience, trigger.best, trigger.stale, all, marks)
}

/// A plateau trigger that starts has seen nothing.
pub proof fn lemma_fresh_trigger_has_seen_nothing(trigger: RuntimeView)
    requires
        trigger.spec is Plateau,
        !trigger.fired,
        trigger.best is None,
        trigger.stale == 0,
    ensures
        watches(trigger, Seq::empty()),
{
    let none: Seq<bool> = Seq::empty();
    match trigger.spec {
        TriggerView::Plateau { raw, metric, patience, min_delta, mode, pattern } => {
            assert(has_seen(mode, patience, trigger.best, trigger.stale, Seq::empty(), none));
        },
        _ => {},
    }
}

/// Of all that a plateau trigger has seen, however it was cut into pieces, it
/// fires at the first observation up to which as many as its patience asks for,
/// and at least that one, did not improve on the best of those before. It tells
/// the best, the latest and how many observations stand behind the best; where
/// it does not fire, it goes on with all that it has seen.
pub proof fn lemma_plateau_fires_after_patience(
    trigger: RuntimeView,
    before: Seq<ObservationView>,
    scan: Seq<char>,
    seen: Seq<ObservationView>,
    marks: Seq<bool>,
)
    requires
        watches(trigger, before),
        trigger.spec matches TriggerView::Plateau { raw, metric, patience, min_delta, mode, pattern }
            && marks_improvements(mode, before + seen, marks),
    ensures
        trigger.spec matches TriggerView::Plateau { raw, metric, patience, min_delta, mode, pattern }
            && ({
            let all = before + seen;
            let after = after_output(trigger, scan, seen);
            &&& after.fired <==> exists|p: int| #[trigger] is_stale_for(marks, p, patience as int)
            &&& output_reason(trigger, scan, seen) is Some <==> after.fired
            &&& !after.fired ==> watches(after, all)
            &&& forall|p: int, b: int|
                #[trigger] fires_at(patience, marks, p) && #[trigger] is_last_mark(marks, b, p)
                    ==> (output_reason(trigger, scan, seen) matches Some(reason) && (p - b
                    <= usize::MAX ==> reason == metric + " plateaued: best "@ + all[b].shown
                    + ", latest "@ + all[p].shown + ", stale observations "@ + decimal(
                    (p - b) as nat,
                )))
            &&& !after.fired && all.len() > 0 ==> exists|b: int| #[trigger]
                is_last_mark(marks, b, all.len() as int) && after.best == Some(all[b]) && counts(
                    after.stale,
                    all.len() - 1 - b,
                )
        }),
{
    match trigger.spec {
        TriggerView::Plateau { raw, metric, patience, min_delta, mode, pattern } => {
            let all = before + seen;
            let start = before.len() as int;
            let first = choose|marks: Seq<bool>| #[trigger]
                has_seen(mode, patience, trigger.best, trigger.stale, before, marks);
            assert(before + seen.take(0) =~= before);
            let flags = lemma_plateau(
                mode,
                patience,
                trigger.best,
                trigger.stale,
                before,
                first,
                seen,
                0,
            );
            let result = plateau_after(mode, patience, trigger.best, trigger.stale, seen, 0);
            match result.2 {
                None => {
                    assert(all.take(all.len() as int) =~= all);
                    lemma_one_way_to_mark(mode, all, all, flags, marks);
                    assert(flags =~= marks);
                    let after = after_output(trigger, scan, seen);
                    assert(after.spec == trigger.spec);
                    assert(has_seen(mode, patience, after.best, after.stale, all, flags));
                },
                Some(k) => {
                    let p = start + k;
                    let part = all.take(p + 1);
                    lemma_one_way_to_mark(mode, part, all, flags, marks);
                    lemma_stale_alike(flags, marks, p, patience as int);
                    assert(is_stale_for(marks, p, patience as int));
                    assert forall|q: int| 0 <= q < p implies !#[trigger] is_stale_for(
                        marks,
                        q,
                        patience as int,
                    ) by {
                        lemma_stale_alike(flags, marks, q, patience as int);
                    }
                    let b = choose|b: int| #[trigger]
                        is_last_mark(flags, b, p + 1) && result.0 == Some(all[b]) && counts(
                            result.1,
                            p - b,
                        );
                    assert forall|q: int, c: int|
                        #[trigger] fires_at(patience, marks, q) && #[trigger] is_last_mark(
                            marks,
                            c,
                            q,
                        ) implies q == p && c == b by {
                        if q < p {
                            assert(!is_stale_for(marks, q, patience as int));
                        }
                        if p < q {
                            assert(!is_stale_for(marks, p, patience as int));
                        }
                        assert(!marks[p]);
                        assert(flags[b] == marks[b]);
                        if c < b {
                            assert(!marks[b]);
                        }
                        if b < c {
                            assert(flags[c] == marks[c]);
                            assert(!flags[c]);
                        }
                    }
                },
            }
        },
        _ => {},
    }
}

proof fn lemma_stale_alike(a: Seq<bool>, b: Seq<bool>, k: int, n: int)
    requires
        0 <= k < a.len() <= b.len(),
        forall|i: int| 0 <= i < a.len() ==> #[trigger] a[i] == b[i],
        n >= 0,
    ensures
        is_stale_for(a, k, n) == is_stale_for(b, k, n),
{
    assert(a[k] == b[k]);
    if is_stale_for(a, k, n) {
        assert forall|j: int| k - n < j <= k implies !#[trigger] b[j] by {
            assert(a[j] == b[j]);
        }
    }
    if is_stale_for(b, k, n) {
        assert forall|j: int| k - n < j <= k implies !#[trigger] a[j] by {
            assert(a[j] == b[j]);
        }
    }
}

/// A threshold trigger fires exactly where some observation meets its
/// threshold, and tells the first that does. A number meets it where it stands
/// to it as the sign says.
pub proof fn lemma_threshold_fires_at_first(
    trigger: RuntimeView,
    scan: Seq<char>,
    seen: Seq<ObservationView>,
)
    requires
        trigger.spec is MetricThreshold,
        !trigger.fired,
    ensures
        trigger.spec matches TriggerView::MetricThreshold {
            raw,
            metric,
            comparator,
            threshold,
            pattern,
        } && ({
            &&& after_output(trigger, scan, seen).fired <==> exists|k: int|
                0 <= k < seen.len() && meets(comparator, #[trigger] seen[k], threshold.bits)
            &&& output_reason(trigger, scan, seen) is Some <==> after_output(
                trigger,
                scan,
                seen,
            ).fired
            &&& forall|k: int|
                0 <= k < seen.len() && meets(comparator, #[trigger] seen[k], threshold.bits) && (
                forall|j: int|
                    0 <= j < k ==> !meets(comparator, #[trigger] seen[j], threshold.bits))
                    ==> output_reason(trigger, scan, seen) == Some(
                    metric + " "@ + written(comparator) + " "@ + threshold.shown
                        + " matched with observed "@ + seen[k].shown,
                )
        }),
{
    match trigger.spec {
        TriggerView::MetricThreshold { raw, metric, comparator, threshold, pattern } => {
            lemma_first_meeting(comparator, threshold.bits, seen, 0);
        },
        _ => {},
    }
}

/// Whether an observed number stands to a threshold as a sign says; two numbers
/// are equal where they differ by no more than rounding does.
pub open spec fn meets(
    comparator: MetricComparator,
    observed: ObservationView,
    threshold: u64,
) -> bool {
    match comparator {
        MetricComparator::Lt => is_less(observed.bits, threshold),
        MetricComparator::Le => is_at_most(observed.bits, threshold),
        MetricComparator::Gt => is_less(threshold, observed.bits),
        MetricComparator::Ge => is_at_most(threshold, observed.bits),
        MetricComparator::Eq => observed.near,
    }
}

/// The sign of a comparison.
pub open spec fn written(comparator: MetricComparator) -> Seq<char> {
    match comparator {
        MetricComparator::Lt => "<"@,
        MetricComparator::Le => "<="@,
        MetricComparator::Gt => ">"@,
        MetricComparator::Ge => ">="@,
        MetricComparator::Eq => "=="@,
    }
}

proof fn lemma_first_meeting(
    comparator: MetricComparator,
    threshold: u64,
    seen: Seq<ObservationView>,
    from: int,
)
    requires
        0 <= from <= seen.len(),
    ensures
        first_meeting(comparator, threshold, seen, from) matches Some(k) ==> from <= k < seen.len()
            && meets(comparator, seen[k], threshold) && forall|j: int|
            from <= j < k ==> !meets(comparator, #[trigger] seen[j], threshold),
        first_meeting(comparator, threshold, seen, from) is None ==> forall|j: int|
            from <= j < seen.len() ==> !meets(comparator, #[trigger] seen[j], threshold),
    decreases seen.len() - from,
{
    if from < seen.len() && !comparator.holds(seen[from].bits, seen[from].near, threshold) {
        lemma_first_meeting(comparator, threshold, seen, from + 1);
    }
}

/// A pattern trigger fires exactly where its pattern matches, and a trigger for
/// silence never on output.
pub proof fn lemma_pattern_fires_on_match(
    trigger: RuntimeView,
    scan: Seq<char>,
    seen: Seq<ObservationView>,
)
    ensures
        !trigger.fired ==> (trigger.spec matches TriggerView::Regex { raw, pattern } ==> (
        output_reason(trigger, scan, seen) == if regex_matches(pattern, scan) {
            Some("regex pattern matched process output"@)
        } else {
            None
        }) && after_output(trigger, scan, seen).fired == regex_matches(pattern, scan)),
        trigger.spec is NoOutputFor ==> output_reason(trigger, scan, seen) is None && after_output(
            trigger,
            scan,
            seen,
        ) == trigger,
{
}

/// A trigger for silence fires exactly where its time has passed since the last
/// output, and no other trigger does.
pub proof fn lemma_silence_fires_in_time(trigger: RuntimeView, now: u64, last_output_at: u64)
    ensures
        silence_reason(trigger, now, last_output_at) is Some <==> !trigger.fired && (
        trigger.spec matches TriggerView::NoOutputFor { raw, duration, seconds } && now
            - last_output_at >= duration.secs * 1_000_000_000 + duration.nanos),
        silence_reason(trigger, now, last_output_at) is Some ==> (
        trigger.spec matches TriggerView::NoOutputFor { raw, duration, seconds } && silence_reason(
            trigger,
            now,
            last_output_at,
        ) == Some("no output for "@ + seconds + " seconds"@)),
        after_silence(trigger, now, last_output_at).fired <==> trigger.fired || silence_reason(
            trigger,
            now,
            last_output_at,
        ) is Some,
{
}

} // verus!
