//! Violations counted by calendar day and directive family.

use vstd::prelude::*;
use crate::report::{item_views, BufferItem, BufferItemView, ViolationCount, ViolationCountView};
use crate::sorted::{is_strict_order, lemma_sorted_is_unique, strictly_sorted};
use crate::text::{
    lemma_lex_irreflexive, lemma_lex_total, lemma_lex_transitive, lex_lt, prefix_of,
    starts_with_ignore_ascii_case, starts_with_ignoring_case, str_lt, take_prefix,
};

verus! {

/// The most days that the daily counts go back.
pub const MAX_DAYS: usize = 14;

/// The calendar day, in UTC, on which a record was taken in: the date at
/// the head of its time stamp.
pub open spec fn day_of(item: BufferItemView) -> Seq<char> {
    prefix_of(item.created_at, 10)
}

/// 1 for what holds, 0 for what does not.
pub open spec fn one_if(b: bool) -> nat {
    if b {
        1
    } else {
        0
    }
}

/// How many of `rows` were taken in on `day` and violate a directive of
/// `family`: one whose name begins with the family's, in capital or small
/// letters.
pub open spec fn count_hits(rows: Seq<BufferItemView>, day: Seq<char>, family: Seq<char>) -> nat
    decreases rows.len(),
{
    if rows.len() == 0 {
        0
    } else {
        count_hits(rows.drop_last(), day, family) + one_if(
            day_of(rows.last()) == day && starts_with_ignoring_case(
                rows.last().report.violated_directive,
                family,
            ),
        )
    }
}

/// Some one of `rows` was taken in on `day`.
pub open spec fn has_day(rows: Seq<BufferItemView>, day: Seq<char>) -> bool {
    exists|j: int| 0 <= j < rows.len() && day_of(#[trigger] rows[j]) == day
}

/// Some row of `counts` is that of `day`.
pub open spec fn lists_day(counts: Seq<ViolationCountView>, day: Seq<char>) -> bool {
    exists|a: int| 0 <= a < counts.len() && (#[trigger] counts[a]).day == day
}

/// The counts of `day` over `rows`, one for each of the nine directive
/// families. A family without violations on that day has the count 0.
pub open spec fn day_counts(rows: Seq<BufferItemView>, day: Seq<char>) -> ViolationCountView {
    ViolationCountView {
        day,
        base_uri: count_hits(rows, day, "base-uri"@),
        script_src: count_hits(rows, day, "script-src"@),
        img_src: count_hits(rows, day, "img-src"@),
        style_src: count_hits(rows, day, "style-src"@),
        connect_src: count_hits(rows, day, "connect-src"@),
        media_src: count_hits(rows, day, "media-src"@),
        object_src: count_hits(rows, day, "object-src"@),
        frame_src: count_hits(rows, day, "frame-src"@),
        font_src: count_hits(rows, day, "font-src"@),
    }
}

/// The days rise strictly along `counts`.
pub open spec fn days_increasing(counts: Seq<ViolationCountView>) -> bool {
    forall|a: int, b: int|
        0 <= a < b < counts.len() ==> lex_lt((#[trigger] counts[a]).day, (#[trigger] counts[b]).day)
}

/// Every row of `counts` is that of a day on which one of `rows` was taken
/// in, and holds that day's counts.
pub open spec fn counts_days(rows: Seq<BufferItemView>, counts: Seq<ViolationCountView>) -> bool {
    forall|a: int|
        0 <= a < counts.len() ==> has_day(rows, (#[trigger] counts[a]).day) && counts[a]
            == day_counts(rows, counts[a].day)
}

/// `counts` are the daily counts of `rows`: at most fourteen rows, by day
/// in rising order, each with the counts of its day, and the days are the
/// latest on which anything was stored: a day that is not listed lies
/// before all fourteen that are.
pub open spec fn is_violation_count_by_day(
    rows: Seq<BufferItemView>,
    counts: Seq<ViolationCountView>,
) -> bool {
    &&& counts.len() <= MAX_DAYS
    &&& days_increasing(counts)
    &&& counts_days(rows, counts)
    &&& forall|j: int|
        0 <= j < rows.len() ==> lists_day(counts, day_of(#[trigger] rows[j])) || (counts.len()
            == MAX_DAYS && lex_lt(day_of(rows[j]), counts[0].day))
}

/// The views of a sequence of daily counts, in the same order.
pub open spec fn count_views(counts: Seq<ViolationCount>) -> Seq<ViolationCountView> {
    counts.map_values(|c: ViolationCount| c@)
}

/// `v` with the violation of `directive` counted in.
spec fn tallied(v: ViolationCountView, directive: Seq<char>) -> ViolationCountView {
    ViolationCountView {
        day: v.day,
        base_uri: v.base_uri + one_if(starts_with_ignoring_case(directive, "base-uri"@)),
        script_src: v.script_src + one_if(starts_with_ignoring_case(directive, "script-src"@)),
        img_src: v.img_src + one_if(starts_with_ignoring_case(directive, "img-src"@)),
        style_src: v.style_src + one_if(starts_with_ignoring_case(directive, "style-src"@)),
        connect_src: v.connect_src + one_if(starts_with_ignoring_case(directive, "connect-src"@)),
        media_src: v.media_src + one_if(starts_with_ignoring_case(directive, "media-src"@)),
        object_src: v.object_src + one_if(starts_with_ignoring_case(directive, "object-src"@)),
        frame_src: v.frame_src + one_if(starts_with_ignoring_case(directive, "frame-src"@)),
        font_src: v.font_src + one_if(starts_with_ignoring_case(directive, "font-src"@)),
    }
}

/// The counts of a day on which nothing was stored.
spec fn no_counts(day: Seq<char>) -> ViolationCountView {
    ViolationCountView {
        day,
        base_uri: 0,
        script_src: 0,
        img_src: 0,
        style_src: 0,
        connect_src: 0,
        media_src: 0,
        object_src: 0,
        frame_src: 0,
        font_src: 0,
    }
}

/// No count is larger than the number of rows.
spec fn within(v: ViolationCountView, n: nat) -> bool {
    v.base_uri <= n && v.script_src <= n && v.img_src <= n && v.style_src <= n && v.connect_src
        <= n && v.media_src <= n && v.object_src <= n && v.frame_src <= n && v.font_src <= n
}

proof fn lemma_count_hits_bound(rows: Seq<BufferItemView>, day: Seq<char>, family: Seq<char>)
    ensures
        count_hits(rows, day, family) <= rows.len(),
        !has_day(rows, day) ==> count_hits(rows, day, family) == 0,
    decreases rows.len(),
{
    if rows.len() > 0 {
        lemma_count_hits_bound(rows.drop_last(), day, family);
        assert(rows.last() == rows[rows.len() - 1]);
        if has_day(rows.drop_last(), day) {
            let j = choose|j: int|
                0 <= j < rows.drop_last().len() && day_of(#[trigger] rows.drop_last()[j]) == day;
            assert(rows[j] == rows.drop_last()[j]);
        }
    }
}

proof fn lemma_day_counts_bound(rows: Seq<BufferItemView>, day: Seq<char>)
    ensures
        within(day_counts(rows, day), rows.len()),
        !has_day(rows, day) ==> day_counts(rows, day) == no_counts(day),
{
    lemma_count_hits_bound(rows, day, "base-uri"@);
    lemma_count_hits_bound(rows, day, "script-src"@);
    lemma_count_hits_bound(rows, day, "img-src"@);
    lemma_count_hits_bound(rows, day, "style-src"@);
    lemma_count_hits_bound(rows, day, "connect-src"@);
    lemma_count_hits_bound(rows, day, "media-src"@);
    lemma_count_hits_bound(rows, day, "object-src"@);
    lemma_count_hits_bound(rows, day, "frame-src"@);
    lemma_count_hits_bound(rows, day, "font-src"@);
}

/// How the counts of a day change when one more row is looked at.
proof fn lemma_next_day_counts(rows: Seq<BufferItemView>, i: int, day: Seq<char>)
    requires
        0 <= i < rows.len(),
    ensures
        day_of(rows[i]) == day ==> day_counts(rows.take(i + 1), day) == tallied(
            day_counts(rows.take(i), day),
            rows[i].report.violated_directive,
        ),
        day_of(rows[i]) != day ==> day_counts(rows.take(i + 1), day) == day_counts(
            rows.take(i),
            day,
        ),
{
    assert(rows.take(i + 1).drop_last() =~= rows.take(i));
    assert(rows.take(i + 1).last() == rows[i]);
}

fn bump(count: u64, hit: bool) -> (r: u64)
    requires
        count < u64::MAX,
    ensures
        r == count + one_if(hit),
{
    if hit {
        count + 1
    } else {
        count
    }
}

/// Counts the violation of `directive` into `v`.
fn tally(v: ViolationCount, directive: &str) -> (r: ViolationCount)
    requires
        exists|n: nat| n < u64::MAX && #[trigger] within(v@, n),
    ensures
        r@ == tallied(v@, directive@),
{
    ViolationCount {
        day: v.day,
        base_uri: bump(v.base_uri, starts_with_ignore_ascii_case(directive, "base-uri")),
        script_src: bump(v.script_src, starts_with_ignore_ascii_case(directive, "script-src")),
        img_src: bump(v.img_src, starts_with_ignore_ascii_case(directive, "img-src")),
        style_src: bump(v.style_src, starts_with_ignore_ascii_case(directive, "style-src")),
        connect_src: bump(v.connect_src, starts_with_ignore_ascii_case(directive, "connect-src")),
        media_src: bump(v.media_src, starts_with_ignore_ascii_case(directive, "media-src")),
        object_src: bump(v.object_src, starts_with_ignore_ascii_case(directive, "object-src")),
        frame_src: bump(v.frame_src, starts_with_ignore_ascii_case(directive, "frame-src")),
        font_src: bump(v.font_src, starts_with_ignore_ascii_case(directive, "font-src")),
    }
}

/// The row of a day on which nothing has been counted yet.
fn blank(day: String) -> (r: ViolationCount)
    ensures
        r@ == no_counts(day@),
{
    ViolationCount {
        day,
        base_uri: 0,
        script_src: 0,
        img_src: 0,
        style_src: 0,
        connect_src: 0,
        media_src: 0,
        object_src: 0,
        frame_src: 0,
        font_src: 0,
    }
}

/// The daily counts of `rows` over all days, in rising order.
spec fn is_daily(rows: Seq<BufferItemView>, counts: Seq<ViolationCountView>) -> bool {
    &&& days_increasing(counts)
    &&& counts_days(rows, counts)
    &&& forall|j: int| 0 <= j < rows.len() ==> lists_day(counts, day_of(#[trigger] rows[j]))
}

/// Every count taken over `rows` is at most their number.
proof fn lemma_daily_within(rows: Seq<BufferItemView>, counts: Seq<ViolationCountView>)
    requires
        is_daily(rows, counts),
    ensures
        forall|a: int| 0 <= a < counts.len() ==> within(#[trigger] counts[a], rows.len()),
{
    assert forall|a: int| 0 <= a < counts.len() implies within(
        #[trigger] counts[a],
        rows.len(),
    ) by {
        lemma_day_counts_bound(rows, counts[a].day);
    }
}

/// What the counts of the days listed in `before` become when row `i` is
/// looked at as well.
proof fn lemma_listed_days_next(
    all: Seq<BufferItemView>,
    i: int,
    before: Seq<ViolationCountView>,
)
    requires
        0 <= i < all.len(),
        is_daily(all.take(i), before),
    ensures
        forall|a: int|
            0 <= a < before.len() ==> has_day(all.take(i + 1), (#[trigger] before[a]).day)
                && day_counts(all.take(i + 1), before[a].day) == if before[a].day == day_of(
                all[i],
            ) {
                tallied(before[a], all[i].report.violated_directive)
            } else {
                before[a]
            },
        forall|j: int|
            0 <= j < i ==> lists_day(before, day_of(#[trigger] all.take(i + 1)[j])),
        day_of(all.take(i + 1)[i]) == day_of(all[i]),
{
    let seen = all.take(i);
    let next = all.take(i + 1);
    assert forall|a: int| 0 <= a < before.len() implies has_day(next, (#[trigger] before[a]).day)
        && day_counts(next, before[a].day) == if before[a].day == day_of(all[i]) {
        tallied(before[a], all[i].report.violated_directive)
    } else {
        before[a]
    } by {
        lemma_next_day_counts(all, i, before[a].day);
        let j = choose|j: int| 0 <= j < seen.len() && day_of(#[trigger] seen[j]) == before[a].day;
        assert(next[j] == seen[j]);
    }
    assert forall|j: int| 0 <= j < i implies lists_day(before, day_of(#[trigger] next[j])) by {
        assert(next[j] == seen[j]);
    }
}

/// A row of a day that is already listed is counted into that day's row.
proof fn lemma_count_into_day(
    all: Seq<BufferItemView>,
    i: int,
    before: Seq<ViolationCountView>,
    idx: int,
)
    requires
        0 <= i < all.len(),
        is_daily(all.take(i), before),
        0 <= idx < before.len(),
        before[idx].day == day_of(all[i]),
    ensures
        is_daily(
            all.take(i + 1),
            before.update(idx, tallied(before[idx], all[i].report.violated_directive)),
        ),
{
    let next = all.take(i + 1);
    let d = day_of(all[i]);
    let after = before.update(idx, tallied(before[idx], all[i].report.violated_directive));
    lemma_listed_days_next(all, i, before);
    assert forall|a: int| 0 <= a < before.len() && a != idx implies (#[trigger] before[a]).day
        != d by {
        lemma_lex_irreflexive(d);
        if a < idx {
            assert(lex_lt(before[a].day, before[idx].day));
        } else {
            assert(lex_lt(before[idx].day, before[a].day));
        }
    }
    assert forall|a: int, b: int| 0 <= a < b < after.len() implies lex_lt(
        (#[trigger] after[a]).day,
        (#[trigger] after[b]).day,
    ) by {
        assert(after[a].day == before[a].day);
        assert(after[b].day == before[b].day);
    }
    assert forall|a: int| 0 <= a < after.len() implies has_day(next, (#[trigger] after[a]).day)
        && after[a] == day_counts(next, after[a].day) by {
        assert(after[a].day == before[a].day);
        if a != idx {
            assert(after[a] == before[a]);
        }
    }
    assert forall|j: int| 0 <= j < next.len() implies lists_day(
        after,
        day_of(#[trigger] next[j]),
    ) by {
        if j < i {
            let w = choose|w: int|
                0 <= w < before.len() && (#[trigger] before[w]).day == day_of(next[j]);
            assert(after[w].day == day_of(next[j]));
        } else {
            assert(after[idx].day == day_of(next[j]));
        }
    }
}

/// A row of a day that is not listed yet opens that day's row, at the
/// place that keeps the days in order.
proof fn lemma_open_day(
    all: Seq<BufferItemView>,
    i: int,
    before: Seq<ViolationCountView>,
    idx: int,
)
    requires
        0 <= i < all.len(),
        is_daily(all.take(i), before),
        0 <= idx <= before.len(),
        forall|e: int| 0 <= e < idx ==> lex_lt((#[trigger] before[e]).day, day_of(all[i])),
        idx < before.len() ==> !lex_lt(before[idx].day, day_of(all[i])) && before[idx].day
            != day_of(all[i]),
    ensures
        is_daily(
            all.take(i + 1),
            before.insert(
                idx,
                tallied(no_counts(day_of(all[i])), all[i].report.violated_directive),
            ),
        ),
{
    let seen = all.take(i);
    let next = all.take(i + 1);
    let d = day_of(all[i]);
    let v = tallied(no_counts(d), all[i].report.violated_directive);
    let after = before.insert(idx, v);
    lemma_listed_days_next(all, i, before);
    lemma_lex_irreflexive(d);
    if idx < before.len() {
        lemma_lex_total(before[idx].day, d);
    }
    assert forall|a: int| idx <= a < before.len() implies lex_lt(d, (#[trigger] before[a]).day) by {
        if a > idx {
            assert(lex_lt(before[idx].day, before[a].day));
            lemma_lex_transitive(d, before[idx].day, before[a].day);
        }
    }
    assert(!has_day(seen, d)) by {
        if has_day(seen, d) {
            let j = choose|j: int| 0 <= j < seen.len() && day_of(#[trigger] seen[j]) == d;
            let w = choose|w: int|
                0 <= w < before.len() && (#[trigger] before[w]).day == day_of(seen[j]);
            if w < idx {
                assert(lex_lt(before[w].day, d));
            } else {
                assert(lex_lt(d, before[w].day));
            }
        }
    }
    lemma_day_counts_bound(seen, d);
    lemma_next_day_counts(all, i, d);
    assert(v == day_counts(next, d));
    assert(has_day(next, d)) by {
        assert(day_of(next[i]) == d);
    }
    assert forall|a: int, b: int| 0 <= a < b < after.len() implies lex_lt(
        (#[trigger] after[a]).day,
        (#[trigger] after[b]).day,
    ) by {
        if b < idx {
            assert(after[a] == before[a]);
            assert(after[b] == before[b]);
        } else if b == idx {
            assert(after[a] == before[a]);
        } else if a < idx {
            assert(after[a] == before[a]);
            assert(after[b] == before[b - 1]);
        } else if a == idx {
            assert(after[b] == before[b - 1]);
        } else {
            assert(after[a] == before[a - 1]);
            assert(after[b] == before[b - 1]);
        }
    }
    assert forall|a: int| 0 <= a < after.len() implies has_day(next, (#[trigger] after[a]).day)
        && after[a] == day_counts(next, after[a].day) by {
        if a < idx {
            assert(after[a] == before[a]);
            assert(before[a].day != d);
        } else if a > idx {
            assert(after[a] == before[a - 1]);
            assert(before[a - 1].day != d);
        }
    }
    assert forall|j: int| 0 <= j < next.len() implies lists_day(
        after,
        day_of(#[trigger] next[j]),
    ) by {
        if j < i {
            let w = choose|w: int|
                0 <= w < before.len() && (#[trigger] before[w]).day == day_of(next[j]);
            if w < idx {
                assert(after[w] == before[w]);
            } else {
                assert(after[w + 1] == before[w]);
            }
        } else {
            assert(after[idx].day == day_of(next[j]));
        }
    }
}

/// Counts `rows` by day, keeping the days in rising order.
fn count_all_days(rows: &Vec<BufferItem>) -> (counts: Vec<ViolationCount>)
    ensures
        is_daily(item_views(rows@), count_views(counts@)),
{
    let n: usize = rows.len();
    let ghost all = item_views(rows@);
    let mut counts: Vec<ViolationCount> = Vec::new();
    let mut i: usize = 0;
    while i < n
        invariant
            n == rows@.len(),
            all == item_views(rows@),
            i <= n,
            is_daily(all.take(i as int), count_views(counts@)),
        decreases n - i,
    {
        let item = &rows[i];
        let day = take_prefix(item.created_at.as_str(), 10);
        let ghost d = day@;
        let ghost before = count_views(counts@);
        assert(d == day_of(all[i as int]));
        assert(item.violated_directive@ == all[i as int].report.violated_directive);
        let m: usize = counts.len();
        let mut idx: usize = 0;
        let mut stop: bool = false;
        while idx < m && !stop
            invariant
                m == counts@.len(),
                before == count_views(counts@),
                idx <= m,
                d == day@,
                forall|e: int| 0 <= e < idx ==> lex_lt((#[trigger] before[e]).day, d),
                stop ==> idx < m && !lex_lt(before[idx as int].day, d),
            decreases m - idx + if stop { 0int } else { 1int },
        {
            assert(before[idx as int] == counts@[idx as int]@);
            if str_lt(counts[idx].day.as_str(), day.as_str()) {
                idx = idx + 1;
            } else {
                stop = true;
            }
        }
        let same_day: bool = idx < m && counts[idx].day == day;
        proof {
            if idx < m {
                assert(before[idx as int] == counts@[idx as int]@);
            }
            lemma_daily_within(all.take(i as int), before);
        }
        if same_day {
            let v = counts.remove(idx);
            assert(v@ == before[idx as int]);
            assert(within(v@, i as nat));
            let v = tally(v, item.violated_directive.as_str());
            counts.insert(idx, v);
            proof {
                assert(count_views(counts@) =~= before.update(idx as int, v@));
                lemma_count_into_day(all, i as int, before, idx as int);
            }
        } else {
            let v = blank(day);
            assert(within(v@, 0));
            let v = tally(v, item.violated_directive.as_str());
            counts.insert(idx, v);
            proof {
                assert(count_views(counts@) =~= before.insert(idx as int, v@));
                lemma_open_day(all, i as int, before, idx as int);
            }
        }
        i = i + 1;
    }
    assert(all.take(n as int) =~= all);
    counts
}

/// Counts the stored violations by day and directive family. `rows` is the
/// whole table. The result has a row for each of the latest fourteen days
/// on which anything was stored, fewer where there are fewer such days,
/// the earliest day first.
pub fn get_violation_count_by_day(rows: &Vec<BufferItem>) -> (res: Vec<ViolationCount>)
    ensures
        is_violation_count_by_day(item_views(rows@), count_views(res@)),
{
    let mut counts = count_all_days(rows);
    let ghost all = item_views(rows@);
    let ghost whole = count_views(counts@);
    let m: usize = counts.len();
    if m <= MAX_DAYS {
        return counts;
    }
    let res = counts.split_off(m - MAX_DAYS);
    proof {
        let cut = m - MAX_DAYS;
        let kept = count_views(res@);
        assert(kept =~= whole.skip(cut));
        assert forall|j: int| 0 <= j < all.len() implies lists_day(
            kept,
            day_of(#[trigger] all[j]),
        ) || (kept.len() == MAX_DAYS && lex_lt(day_of(all[j]), kept[0].day)) by {
            let w = choose|w: int|
                0 <= w < whole.len() && (#[trigger] whole[w]).day == day_of(all[j]);
            if w >= cut {
                assert(kept[w - cut] == whole[w]);
            } else {
                assert(kept[0] == whole[cut]);
            }
        }
        assert forall|a: int, b: int| 0 <= a < b < kept.len() implies lex_lt(
            (#[trigger] kept[a]).day,
            (#[trigger] kept[b]).day,
        ) by {
            assert(kept[a] == whole[a + cut]);
            assert(kept[b] == whole[b + cut]);
        }
        assert forall|a: int| 0 <= a < kept.len() implies has_day(all, (#[trigger] kept[a]).day)
            && kept[a] == day_counts(all, kept[a].day) by {
            assert(kept[a] == whole[a + cut]);
        }
    }
    res
}

/// In counts ordered by day the earlier day stands at the earlier place.
proof fn lemma_places_follow_days(counts: Seq<ViolationCountView>, i: int, j: int)
    requires
        days_increasing(counts),
        0 <= i < counts.len(),
        0 <= j < counts.len(),
        lex_lt(counts[i].day, counts[j].day),
    ensures
        i < j,
{
    lemma_lex_irreflexive(counts[i].day);
    if j < i {
        assert(lex_lt(counts[j].day, counts[i].day));
        lemma_lex_transitive(counts[i].day, counts[j].day, counts[i].day);
    }
}

/// Where `a` lists every day of `b`, and the day at place `p` of `a` lies
/// before all of them, the `m`-th day of `b` stands in `a` at least `m + 1`
/// places behind `p`.
proof fn lemma_later_days_climb(
    a: Seq<ViolationCountView>,
    b: Seq<ViolationCountView>,
    p: int,
    m: int,
) -> (q: int)
    requires
        days_increasing(a),
        days_increasing(b),
        0 <= p < a.len(),
        0 <= m < b.len(),
        lex_lt(a[p].day, b[0].day),
        forall|k: int| 0 <= k < b.len() ==> lists_day(a, (#[trigger] b[k]).day),
    ensures
        p + 1 + m <= q < a.len(),
        a[q].day == b[m].day,
    decreases m,
{
    assert(lists_day(a, b[m].day));
    let q = choose|q: int| 0 <= q < a.len() && (#[trigger] a[q]).day == b[m].day;
    if m == 0 {
        lemma_places_follow_days(a, p, q);
    } else {
        let lower = lemma_later_days_climb(a, b, p, m - 1);
        assert(lex_lt(b[m - 1].day, b[m].day));
        lemma_places_follow_days(a, lower, q);
    }
    q
}

/// Whatever one table of daily counts of `rows` lists, another lists too.
proof fn lemma_counts_hold_the_same(
    rows: Seq<BufferItemView>,
    a: Seq<ViolationCountView>,
    b: Seq<ViolationCountView>,
    x: ViolationCountView,
)
    requires
        is_violation_count_by_day(rows, a),
        is_violation_count_by_day(rows, b),
        a.contains(x),
    ensures
        b.contains(x),
{
    let p = choose|p: int| 0 <= p < a.len() && a[p] == x;
    assert(has_day(rows, a[p].day));
    let j = choose|j: int| 0 <= j < rows.len() && day_of(#[trigger] rows[j]) == x.day;
    if lists_day(b, x.day) {
        let h = choose|h: int| 0 <= h < b.len() && (#[trigger] b[h]).day == x.day;
        assert(b[h] == day_counts(rows, x.day));
        assert(b[h] == x);
    } else {
        assert(b.len() == MAX_DAYS && lex_lt(x.day, b[0].day));
        assert forall|k: int| 0 <= k < b.len() implies lists_day(a, (#[trigger] b[k]).day) by {
            assert(has_day(rows, b[k].day));
            let r = choose|r: int| 0 <= r < rows.len() && day_of(#[trigger] rows[r]) == b[k].day;
            if !lists_day(a, b[k].day) {
                assert(lex_lt(b[k].day, a[0].day));
                if k > 0 {
                    assert(lex_lt(b[0].day, b[k].day));
                    lemma_lex_transitive(x.day, b[0].day, b[k].day);
                }
                lemma_lex_transitive(x.day, b[k].day, a[0].day);
                lemma_lex_irreflexive(x.day);
                if p > 0 {
                    assert(lex_lt(a[0].day, a[p].day));
                    lemma_lex_transitive(x.day, a[0].day, x.day);
                }
            }
        }
        let q = lemma_later_days_climb(a, b, p, MAX_DAYS - 1);
    }
}

/// The daily counts of a table are one table only: what
/// `is_violation_count_by_day` says of them leaves no choice, neither of
/// the days nor of the counts.
pub proof fn law_daily_counts_are_unique(
    rows: Seq<BufferItemView>,
    a: Seq<ViolationCountView>,
    b: Seq<ViolationCountView>,
)
    requires
        is_violation_count_by_day(rows, a),
        is_violation_count_by_day(rows, b),
    ensures
        a == b,
{
    let before = |x: ViolationCountView, y: ViolationCountView| lex_lt(x.day, y.day);
    assert(is_strict_order(before)) by {
        assert forall|x: ViolationCountView| !#[trigger] before(x, x) by {
            lemma_lex_irreflexive(x.day);
        }
        assert forall|x: ViolationCountView, y: ViolationCountView, z: ViolationCountView|
            #[trigger] before(x, y) && #[trigger] before(y, z) implies before(x, z) by {
            lemma_lex_transitive(x.day, y.day, z.day);
        }
    }
    assert(strictly_sorted(a, before));
    assert(strictly_sorted(b, before));
    assert forall|x: ViolationCountView| a.contains(x) <==> b.contains(x) by {
        if a.contains(x) {
            lemma_counts_hold_the_same(rows, a, b, x);
        }
        if b.contains(x) {
            lemma_counts_hold_the_same(rows, b, a, x);
        }
    }
    lemma_sorted_is_unique(a, b, before);
}

/// The daily counts never have more than fourteen rows, and their days
/// rise strictly, so that no day is listed twice.
pub proof fn law_at_most_fourteen_rising_days(
    rows: Seq<BufferItemView>,
    counts: Seq<ViolationCountView>,
)
    requires
        is_violation_count_by_day(rows, counts),
    ensures
        counts.len() <= MAX_DAYS,
        forall|a: int, b: int|
            0 <= a < b < counts.len() ==> lex_lt(
                (#[trigger] counts[a]).day,
                (#[trigger] counts[b]).day,
            ) && counts[a].day != counts[b].day,
{
    assert forall|a: int, b: int| 0 <= a < b < counts.len() implies lex_lt(
        (#[trigger] counts[a]).day,
        (#[trigger] counts[b]).day,
    ) && counts[a].day != counts[b].day by {
        lemma_lex_irreflexive(counts[a].day);
    }
}

} // verus!
