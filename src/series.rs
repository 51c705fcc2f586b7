//! Builds the chart series: dated snapshots in chronological order, one
//! point per displayed date, with runs of equal counts collapsed.
use vstd::prelude::*;
use itertools::Itertools;
use crate::timestamp::{SnapshotDate, SECONDS_PER_DAY, date_from_filename, snapshot_date_of};

verus! {

/// First day that gets a label: 0001-01-01.
pub const MIN_LABEL_DAY: i64 = -719162;

/// Last day that gets a label: 9999-12-31.
pub const MAX_LABEL_DAY: i64 = 2932896;

/// One directory entry: its file name and the count read from it, if the
/// file could be read as a snapshot.
pub struct Snapshot {
    pub name: String,
    pub metric: Option<u64>,
}

/// One point of the chart: the day, its displayed label and the count.
pub struct SeriesPoint {
    pub date: SnapshotDate,
    pub label: String,
    pub value: u64,
}

/// A listing entry as plain values: the name and the count.
pub type SnapshotView = (Seq<char>, Option<u64>);

/// A point as plain values: day, label, count.
pub type PointView = (i64, Seq<char>, u64);

pub open spec fn listing_view(s: Seq<Snapshot>) -> Seq<SnapshotView> {
    s.map_values(|e: Snapshot| (e.name@, e.metric))
}

pub open spec fn points_view(s: Seq<SeriesPoint>) -> Seq<PointView> {
    s.map_values(|p: SeriesPoint| (p.date.day, p.label@, p.value))
}

/// The label shown for the day whose midnight is `midnight_seconds`.
pub uninterp spec fn day_label(midnight_seconds: i64) -> Seq<char>;

pub open spec fn labelled_day(day: int) -> bool {
    MIN_LABEL_DAY <= day <= MAX_LABEL_DAY
}

/// Relies on chrono's `DateTime::from_timestamp` and `format("%d.%m.%Y")`:
/// the UTC date of the given time as day, month and four-digit year.
#[verifier::external_body]
fn format_day_label(midnight_seconds: i64) -> (r: String)
    requires
        MIN_LABEL_DAY * SECONDS_PER_DAY <= midnight_seconds <= MAX_LABEL_DAY * SECONDS_PER_DAY,
    ensures
        r@ == day_label(midnight_seconds),
{
    match chrono::DateTime::from_timestamp(midnight_seconds, 0) {
        Some(t) => t.format("%d.%m.%Y").to_string(),
        None => String::new(),
    }
}

/// `a` comes before `b`: an earlier day, or the same day and an earlier entry.
pub open spec fn key_before(a: (i64, usize), b: (i64, usize)) -> bool {
    a.0 < b.0 || (a.0 == b.0 && a.1 < b.1)
}

pub open spec fn in_key_order(s: Seq<(i64, usize)>) -> bool {
    forall|i: int, j: int| 0 <= i < j < s.len() ==> key_before(#[trigger] s[i], #[trigger] s[j])
}

pub open spec fn ascending_entries(s: Seq<(i64, usize)>) -> bool {
    forall|i: int, j: int| 0 <= i < j < s.len() ==> (#[trigger] s[i]).1 < (#[trigger] s[j]).1
}

/// Relies on `Itertools::sorted_by_key`, which sorts with the stable
/// `slice::sort_by_key`: the same entries, by day, entries of one day in
/// their former order.
#[verifier::external_body]
fn sort_by_day(keys: Vec<(i64, usize)>) -> (r: Vec<(i64, usize)>)
    requires
        ascending_entries(keys@),
    ensures
        r@.len() == keys@.len(),
        forall|x: (i64, usize)| r@.contains(x) <==> keys@.contains(x),
        in_key_order(r@),
{
    keys.into_iter().sorted_by_key(|k| k.0).collect()
}

/// The dated entries of a listing, as (day, position), in listing order.
pub open spec fn dated_entries(listing: Seq<SnapshotView>) -> Seq<(i64, usize)>
    decreases listing.len(),
{
    if listing.len() == 0 {
        Seq::empty()
    } else {
        let rest = dated_entries(listing.drop_last());
        match snapshot_date_of(listing.last().0) {
            Some(d) => rest.push((d.day, (listing.len() - 1) as usize)),
            None => rest,
        }
    }
}

/// `o` holds the entries of `k`, ordered by day, then by position.
pub open spec fn arranges(o: Seq<(i64, usize)>, k: Seq<(i64, usize)>) -> bool {
    &&& in_key_order(o)
    &&& o.len() == k.len()
    &&& forall|x: (i64, usize)| o.contains(x) <==> k.contains(x)
}

/// The entries of `k` in chronological order (there is one such order).
pub open spec fn chronological(k: Seq<(i64, usize)>) -> Seq<(i64, usize)> {
    choose|o: Seq<(i64, usize)>| arranges(o, k)
}

proof fn lemma_key_order_unique(a: Seq<(i64, usize)>, b: Seq<(i64, usize)>)
    requires
        in_key_order(a),
        in_key_order(b),
        forall|x: (i64, usize)| a.contains(x) <==> b.contains(x),
    ensures
        a == b,
    decreases a.len(),
{
    if a.len() == 0 {
        if b.len() > 0 {
            assert(b.contains(b[0]));
        }
        assert(a =~= b);
    } else if b.len() == 0 {
        assert(a.contains(a[0]));
    } else {
        assert(a.contains(a[0]));
        assert(b.contains(b[0]));
        let j = choose|j: int| 0 <= j < b.len() && b[j] == a[0];
        let i = choose|i: int| 0 <= i < a.len() && a[i] == b[0];
        if a[0] != b[0] {
            assert(key_before(b[0], b[j]));
            assert(key_before(a[0], a[i]));
        }
        let a1 = a.drop_first();
        let b1 = b.drop_first();
        assert forall|x: (i64, usize)| a1.contains(x) <==> b1.contains(x) by {
            if a1.contains(x) {
                let k = choose|k: int| 0 <= k < a1.len() && a1[k] == x;
                assert(key_before(a[0], a[k + 1]));
                assert(b.contains(x));
                let m = choose|m: int| 0 <= m < b.len() && b[m] == x;
                assert(b1[m - 1] == x);
            }
            if b1.contains(x) {
                let k = choose|k: int| 0 <= k < b1.len() && b1[k] == x;
                assert(key_before(b[0], b[k + 1]));
                assert(a.contains(x));
                let m = choose|m: int| 0 <= m < a.len() && a[m] == x;
                assert(a1[m - 1] == x);
            }
        }
        lemma_key_order_unique(a1, b1);
        assert(a =~= seq![a[0]] + a1);
        assert(b =~= seq![b[0]] + b1);
    }
}

proof fn lemma_chronological(o: Seq<(i64, usize)>, k: Seq<(i64, usize)>)
    requires
        arranges(o, k),
    ensures
        chronological(k) == o,
{
    let c = chronological(k);
    assert(arranges(c, k));
    lemma_key_order_unique(c, o);
}

/// The dated entries of `listing`, ordered by day; entries of one day keep
/// their order in the listing. Each is (day, position in `listing`).
pub fn chronological_entries(listing: &Vec<Snapshot>) -> (r: Vec<(i64, usize)>)
    ensures
        r@ == chronological(dated_entries(listing_view(listing@))),
        arranges(r@, dated_entries(listing_view(listing@))),
        forall|i: int| 0 <= i < r@.len() ==> (#[trigger] r@[i]).1 < listing@.len(),
{
    let ghost lv = listing_view(listing@);
    let mut keys: Vec<(i64, usize)> = Vec::new();
    let mut i: usize = 0;
    while i < listing.len()
        invariant
            0 <= i <= listing@.len(),
            lv == listing_view(listing@),
            keys@ == dated_entries(lv.subrange(0, i as int)),
            ascending_entries(keys@),
            forall|j: int| 0 <= j < keys@.len() ==> (#[trigger] keys@[j]).1 < i,
        decreases listing@.len() - i,
    {
        assert(lv.subrange(0, i + 1).drop_last() =~= lv.subrange(0, i as int));
        assert(lv.subrange(0, i + 1).last() == lv[i as int]);
        match date_from_filename(listing[i].name.as_str()) {
            Some(d) => {
                keys.push((d.day, i));
            },
            None => {},
        }
        i = i + 1;
    }
    assert(lv.subrange(0, listing@.len() as int) =~= lv);
    let r = sort_by_day(keys);
    proof {
        lemma_chronological(r@, keys@);
        assert forall|j: int| 0 <= j < r@.len() implies (#[trigger] r@[j]).1 < listing@.len() by {
            assert(r@.contains(r@[j]));
        }
    }
    r
}

/// The points that the entries of `order` give, in that order: an entry
/// whose snapshot has a count and whose day has a label.
pub open spec fn candidate_points(listing: Seq<SnapshotView>, order: Seq<(i64, usize)>) -> Seq<PointView>
    decreases order.len(),
{
    if order.len() == 0 {
        Seq::empty()
    } else {
        let rest = candidate_points(listing, order.drop_last());
        let (day, i) = order.last();
        if i < listing.len() && listing[i as int].1 is Some && labelled_day(day as int) {
            rest.push((day, day_label((day * SECONDS_PER_DAY) as i64), listing[i as int].1->0))
        } else {
            rest
        }
    }
}

/// Turns ordered entries into points: each entry whose snapshot was read
/// and whose day can be labelled.
pub fn label_points(listing: &Vec<Snapshot>, order: &Vec<(i64, usize)>) -> (r: Vec<SeriesPoint>)
    ensures
        points_view(r@) == candidate_points(listing_view(listing@), order@),
{
    let ghost lv = listing_view(listing@);
    let mut r: Vec<SeriesPoint> = Vec::new();
    let mut k: usize = 0;
    while k < order.len()
        invariant
            0 <= k <= order@.len(),
            lv == listing_view(listing@),
            points_view(r@) == candidate_points(lv, order@.subrange(0, k as int)),
        decreases order@.len() - k,
    {
        assert(order@.subrange(0, k + 1).drop_last() =~= order@.subrange(0, k as int));
        let (day, i) = order[k];
        if i < listing.len() && day >= MIN_LABEL_DAY && day <= MAX_LABEL_DAY {
            match listing[i].metric {
                Some(m) => {
                    let label = format_day_label(day * SECONDS_PER_DAY);
                    let ghost before = r@;
                    r.push(SeriesPoint { date: SnapshotDate { day }, label, value: m });
                    assert(points_view(r@) =~= points_view(before).push((day, label@, m)));
                },
                None => {},
            }
        }
        k = k + 1;
    }
    assert(order@.subrange(0, order@.len() as int) =~= order@);
    r
}

pub open spec fn has_label(s: Seq<PointView>, label: Seq<char>) -> bool {
    exists|j: int| 0 <= j < s.len() && (#[trigger] s[j]).1 == label
}

/// Keeps each point whose label no earlier kept point has.
pub open spec fn first_of_each_label(s: Seq<PointView>) -> Seq<PointView>
    decreases s.len(),
{
    if s.len() == 0 {
        s
    } else {
        let r = first_of_each_label(s.drop_last());
        if has_label(r, s.last().1) {
            r
        } else {
            r.push(s.last())
        }
    }
}

/// Keeps each point whose count differs from the last kept point's.
pub open spec fn without_repeats(s: Seq<PointView>) -> Seq<PointView>
    decreases s.len(),
{
    if s.len() == 0 {
        s
    } else {
        let r = without_repeats(s.drop_last());
        if r.len() > 0 && r.last().2 == s.last().2 {
            r
        } else {
            r.push(s.last())
        }
    }
}

/// The series that a listing gives.
pub open spec fn series_of(listing: Seq<SnapshotView>) -> Seq<PointView> {
    without_repeats(
        first_of_each_label(candidate_points(listing, chronological(dated_entries(listing)))),
    )
}

fn copy_point(p: &SeriesPoint) -> (r: SeriesPoint)
    ensures
        (r.date.day, r.label@, r.value) == (p.date.day, p.label@, p.value),
{
    SeriesPoint { date: p.date, label: p.label.clone(), value: p.value }
}

/// Drops each point whose label an earlier point already has.
pub fn dedup_labels(points: &Vec<SeriesPoint>) -> (r: Vec<SeriesPoint>)
    ensures
        points_view(r@) == first_of_each_label(points_view(points@)),
{
    let ghost pv = points_view(points@);
    let mut r: Vec<SeriesPoint> = Vec::new();
    let mut i: usize = 0;
    while i < points.len()
        invariant
            0 <= i <= points@.len(),
            pv == points_view(points@),
            points_view(r@) == first_of_each_label(pv.subrange(0, i as int)),
        decreases points@.len() - i,
    {
        assert(pv.subrange(0, i + 1).drop_last() =~= pv.subrange(0, i as int));
        let ghost rv = points_view(r@);
        let mut seen = false;
        let mut j: usize = 0;
        while j < r.len()
            invariant
                0 <= j <= r@.len(),
                0 <= i < points@.len(),
                pv == points_view(points@),
                rv == points_view(r@),
                seen <==> exists|k: int| 0 <= k < j && (#[trigger] rv[k]).1 == pv[i as int].1,
            decreases r@.len() - j,
        {
            assert(rv[j as int].1 == r@[j as int].label@);
            assert(pv[i as int].1 == points@[i as int].label@);
            if r[j].label == points[i].label {
                seen = true;
            }
            j = j + 1;
        }
        assert(seen == has_label(rv, pv[i as int].1));
        if !seen {
            r.push(copy_point(&points[i]));
            assert(points_view(r@) =~= rv.push(pv[i as int]));
        }
        i = i + 1;
    }
    assert(pv.subrange(0, points@.len() as int) =~= pv);
    r
}

/// Drops each point whose count equals that of the point kept before it.
pub fn collapse_repeats(points: &Vec<SeriesPoint>) -> (r: Vec<SeriesPoint>)
    ensures
        points_view(r@) == without_repeats(points_view(points@)),
{
    let ghost pv = points_view(points@);
    let mut r: Vec<SeriesPoint> = Vec::new();
    let mut i: usize = 0;
    while i < points.len()
        invariant
            0 <= i <= points@.len(),
            pv == points_view(points@),
            points_view(r@) == without_repeats(pv.subrange(0, i as int)),
        decreases points@.len() - i,
    {
        assert(pv.subrange(0, i + 1).drop_last() =~= pv.subrange(0, i as int));
        let ghost rv = points_view(r@);
        let n = r.len();
        if n == 0 || r[n - 1].value != points[i].value {
            r.push(copy_point(&points[i]));
            assert(points_view(r@) =~= rv.push(pv[i as int]));
        }
        i = i + 1;
    }
    assert(pv.subrange(0, points@.len() as int) =~= pv);
    r
}

pub open spec fn days_ascending(s: Seq<PointView>) -> bool {
    forall|i: int, j: int| 0 <= i < j < s.len() ==> (#[trigger] s[i]).0 < (#[trigger] s[j]).0
}

pub open spec fn days_nondecreasing(s: Seq<PointView>) -> bool {
    forall|i: int, j: int| 0 <= i < j < s.len() ==> (#[trigger] s[i]).0 <= (#[trigger] s[j]).0
}

pub open spec fn labels_distinct(s: Seq<PointView>) -> bool {
    forall|i: int, j: int| 0 <= i < j < s.len() ==> (#[trigger] s[i]).1 != (#[trigger] s[j]).1
}

pub open spec fn no_adjacent_repeats(s: Seq<PointView>) -> bool {
    forall|i: int| 0 <= i < s.len() - 1 ==> (#[trigger] s[i]).2 != s[i + 1].2
}

/// Each point carries the label of its own day.
pub open spec fn labels_match_days(s: Seq<PointView>) -> bool {
    forall|i: int| 0 <= i < s.len() ==> (#[trigger] s[i]).1 == day_label((s[i].0 * SECONDS_PER_DAY) as i64)
}

pub open spec fn keeps_only_from(r: Seq<PointView>, s: Seq<PointView>) -> bool {
    forall|m: int| 0 <= m < r.len() ==> s.contains(#[trigger] r[m])
}

proof fn lemma_candidates_ordered(listing: Seq<SnapshotView>, o: Seq<(i64, usize)>)
    requires
        forall|i: int, j: int| 0 <= i < j < o.len() ==> (#[trigger] o[i]).0 <= (#[trigger] o[j]).0,
    ensures
        days_nondecreasing(candidate_points(listing, o)),
        labels_match_days(candidate_points(listing, o)),
        o.len() > 0 ==> forall|m: int|
            0 <= m < candidate_points(listing, o).len() ==> (#[trigger] candidate_points(listing, o)[m]).0
                <= o.last().0,
    decreases o.len(),
{
    if o.len() > 0 {
        let o1 = o.drop_last();
        lemma_candidates_ordered(listing, o1);
        if o.len() > 1 {
            assert(o[o.len() - 2].0 <= o[o.len() - 1].0);
        }
    }
}

proof fn lemma_contains_drop_last(s: Seq<PointView>)
    requires
        s.len() > 0,
    ensures
        forall|x: PointView| s.drop_last().contains(x) ==> s.contains(x),
{
    assert forall|x: PointView| s.drop_last().contains(x) implies s.contains(x) by {
        let k = choose|k: int| 0 <= k < s.drop_last().len() && s.drop_last()[k] == x;
        assert(s[k] == x);
    }
}

proof fn lemma_first_of_each_label(s: Seq<PointView>)
    ensures
        keeps_only_from(first_of_each_label(s), s),
        labels_distinct(first_of_each_label(s)),
        days_nondecreasing(s) ==> days_nondecreasing(first_of_each_label(s)),
    decreases s.len(),
{
    if s.len() > 0 {
        let s1 = s.drop_last();
        lemma_first_of_each_label(s1);
        lemma_contains_drop_last(s);
        let r1 = first_of_each_label(s1);
        let r = first_of_each_label(s);
        assert forall|m: int| 0 <= m < r.len() implies s.contains(#[trigger] r[m]) by {
            if m < r1.len() {
                assert(s1.contains(r1[m]));
            } else {
                assert(s[s.len() - 1] == r[m]);
            }
        }
        if !has_label(r1, s.last().1) {
            assert forall|i: int, j: int| 0 <= i < j < r.len() implies (#[trigger] r[i]).1 != (#[trigger] r[j]).1 by {
                if j == r.len() - 1 {
                    assert(r1[i].1 != s.last().1);
                }
            }
        }
        if days_nondecreasing(s) {
            assert forall|i: int, j: int| 0 <= i < j < r.len() implies (#[trigger] r[i]).0 <= (#[trigger] r[j]).0 by {
                if j == r1.len() {
                    assert(s1.contains(r1[i]));
                    let k = choose|k: int| 0 <= k < s1.len() && s1[k] == r1[i];
                    assert(s[k] == r1[i]);
                }
            }
        }
    }
}

proof fn lemma_without_repeats(s: Seq<PointView>)
    ensures
        keeps_only_from(without_repeats(s), s),
        no_adjacent_repeats(without_repeats(s)),
        days_nondecreasing(s) ==> days_nondecreasing(without_repeats(s)),
        labels_distinct(s) ==> labels_distinct(without_repeats(s)),
    decreases s.len(),
{
    if s.len() > 0 {
        let s1 = s.drop_last();
        lemma_without_repeats(s1);
        lemma_contains_drop_last(s);
        let r1 = without_repeats(s1);
        let r = without_repeats(s);
        assert forall|m: int| 0 <= m < r.len() implies s.contains(#[trigger] r[m]) by {
            if m < r1.len() {
                assert(s1.contains(r1[m]));
            } else {
                assert(s[s.len() - 1] == r[m]);
            }
        }
        assert forall|i: int| 0 <= i < r.len() - 1 implies (#[trigger] r[i]).2 != r[i + 1].2 by {
            if i + 1 < r1.len() {
                assert(r1[i].2 != r1[i + 1].2);
            }
        }
        if r.len() > r1.len() {
            assert forall|i: int, j: int| 0 <= i < j < r.len() && j == r1.len()
                implies (days_nondecreasing(s) ==> (#[trigger] r[i]).0 <= (#[trigger] r[j]).0)
                && (labels_distinct(s) ==> r[i].1 != r[j].1) by {
                assert(s1.contains(r1[i]));
                let k = choose|k: int| 0 <= k < s1.len() && s1[k] == r1[i];
                assert(s[k] == r1[i]);
            }
        }
    }
}

/// The series with plain values: in day order, one point per label, no two
/// consecutive counts equal.
proof fn lemma_series_shape(o: Seq<(i64, usize)>, listing: Seq<SnapshotView>)
    requires
        in_key_order(o),
    ensures
        days_ascending(without_repeats(first_of_each_label(candidate_points(listing, o)))),
        labels_distinct(without_repeats(first_of_each_label(candidate_points(listing, o)))),
        no_adjacent_repeats(without_repeats(first_of_each_label(candidate_points(listing, o)))),
{
    let c = candidate_points(listing, o);
    let u = first_of_each_label(c);
    let r = without_repeats(u);
    assert forall|i: int, j: int| 0 <= i < j < o.len() implies (#[trigger] o[i]).0 <= (#[trigger] o[j]).0 by {
        assert(key_before(o[i], o[j]));
    }
    lemma_candidates_ordered(listing, o);
    lemma_first_of_each_label(c);
    lemma_without_repeats(u);
    assert forall|m: int| 0 <= m < r.len() implies (#[trigger] r[m]).1 == day_label((r[m].0 * SECONDS_PER_DAY) as i64) by {
        assert(u.contains(r[m]));
        let k = choose|k: int| 0 <= k < u.len() && u[k] == r[m];
        assert(c.contains(u[k]));
    }
    assert forall|i: int, j: int| 0 <= i < j < r.len() implies (#[trigger] r[i]).0 < (#[trigger] r[j]).0 by {
        assert(r[i].1 != r[j].1);
    }
}

/// Builds the chart series of a directory listing: the dated snapshots by
/// day (entries of one day in listing order), those that were read, one per
/// displayed date, with each run of equal counts cut to its first point.
pub fn build_series(listing: &Vec<Snapshot>) -> (r: Vec<SeriesPoint>)
    ensures
        points_view(r@) == series_of(listing_view(listing@)),
        forall|i: int, j: int| 0 <= i < j < r@.len() ==> r@[i].date.day < r@[j].date.day,
        forall|i: int| 0 <= i < r@.len() - 1 ==> (#[trigger] r@[i]).value != r@[i + 1].value,
        forall|i: int, j: int| 0 <= i < j < r@.len() ==> r@[i].label@ != r@[j].label@,
{
    let order = chronological_entries(listing);
    let candidates = label_points(listing, &order);
    let unique = dedup_labels(&candidates);
    let r = collapse_repeats(&unique);
    proof {
        lemma_series_shape(order@, listing_view(listing@));
        let rv = points_view(r@);
        assert forall|i: int, j: int| 0 <= i < j < r@.len() implies r@[i].date.day < r@[j].date.day
            && r@[i].label@ != r@[j].label@ by {
            assert(rv[i].0 < rv[j].0 && rv[i].1 != rv[j].1);
        }
        assert forall|i: int| 0 <= i < r@.len() - 1 implies (#[trigger] r@[i]).value != r@[i + 1].value by {
            assert(rv[i].2 != rv[i + 1].2);
        }
    }
    r
}

/// Building the series twice from an unchanged listing (the same names in
/// the same order, each with the same count) gives the same series.
pub proof fn lemma_build_repeatable(first: Seq<Snapshot>, second: Seq<Snapshot>)
    requires
        listing_view(first) == listing_view(second),
    ensures
        series_of(listing_view(first)) == series_of(listing_view(second)),
{
}

} // verus!
