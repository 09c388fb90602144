use vstd::prelude::*;

use crate::delivery::all_delivered;
use crate::delivery::report_covers;
use crate::delivery::RecordView;
use crate::registry::spec_subscribe;

verus! {

/// Subscribing is idempotent: subscribing the same (product type, URL)
/// pair twice yields the registry of subscribing it once, so the pair
/// stands as one entry.
pub proof fn lemma_subscribe_idempotent(
    m: Map<Seq<char>, Seq<Seq<char>>>,
    pt: Seq<char>,
    url: Seq<char>,
)
    ensures
        spec_subscribe(spec_subscribe(m, pt, url), pt, url) == spec_subscribe(m, pt, url),
{
    let m1 = spec_subscribe(m, pt, url);
    if !m[pt].contains(url) {
        assert(m1[pt][m[pt].len() as int] == url);
        assert(m1[pt].contains(url));
    }
}

/// Publishing to a product type with no subscribers yields an empty,
/// entirely successful report.
pub proof fn lemma_publish_empty_topic(report: Seq<RecordView>, targets: Seq<Seq<char>>)
    requires
        targets.len() == 0,
        report_covers(report, targets),
    ensures
        report.len() == 0,
        all_delivered(report),
{
}

/// Pushing one URL cannot make a list contain a different URL.
proof fn lemma_push_contains_other(s: Seq<Seq<char>>, x: Seq<char>, y: Seq<char>)
    requires
        !s.contains(y),
        x != y,
    ensures
        !s.push(x).contains(y),
{
    if s.push(x).contains(y) {
        let j = choose|j: int| 0 <= j < s.push(x).len() && s.push(x)[j] == y;
        if j < s.len() {
            assert(s[j] == y);
        }
    }
}

/// Delivery follows subscription order: after subscribing `a`, then `b`,
/// then `c` under one product type (none of them registered there before),
/// a finished publish to that product type reports on `a`, then `b`, then
/// `c`, in that order, right after the previously registered subscribers.
pub proof fn lemma_delivery_follows_subscription_order(
    m: Map<Seq<char>, Seq<Seq<char>>>,
    pt: Seq<char>,
    a: Seq<char>,
    b: Seq<char>,
    c: Seq<char>,
    report: Seq<RecordView>,
)
    requires
        !m[pt].contains(a),
        !m[pt].contains(b),
        !m[pt].contains(c),
        a != b,
        a != c,
        b != c,
        report_covers(
            report,
            spec_subscribe(spec_subscribe(spec_subscribe(m, pt, a), pt, b), pt, c)[pt],
        ),
    ensures
        report.len() == m[pt].len() + 3,
        report[m[pt].len() as int].url == a,
        report[m[pt].len() as int + 1].url == b,
        report[m[pt].len() as int + 2].url == c,
{
    let n = m[pt].len() as int;
    let m1 = spec_subscribe(m, pt, a);
    lemma_push_contains_other(m[pt], a, b);
    let m2 = spec_subscribe(m1, pt, b);
    lemma_push_contains_other(m[pt], a, c);
    lemma_push_contains_other(m[pt].push(a), b, c);
    let m3 = spec_subscribe(m2, pt, c);
    assert(m3[pt] == m[pt].push(a).push(b).push(c));
    assert(m3[pt][n] == a);
    assert(m3[pt][n + 1int] == b);
    assert(m3[pt][n + 2] == c);
}

/// A failure is recorded for its own subscriber alone: every other target
/// keeps its own record in a finished report, so one failed delivery never
/// costs the rest theirs.
pub proof fn lemma_failure_isolated(report: Seq<RecordView>, targets: Seq<Seq<char>>, i: int)
    requires
        report_covers(report, targets),
        0 <= i < report.len(),
    ensures
        forall|j: int|
            0 <= j < report.len() && j != i ==> (#[trigger] report[j]).url == targets[j],
{
}

} // verus!
