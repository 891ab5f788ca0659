//! The read side: listing stored violations page by page, grouping them
//! into distinct kinds, and counting them by day and directive family.

use vstd::prelude::*;
use crate::report::{
    item_views, BufferItem, BufferItemView, DistinctReport, DistinctReportView,
    GetDistinctReportQueryParams, GetReportQueryParams, GroupKey,
};
use crate::sorted::{is_strict_order, lemma_sorted_is_unique, strictly_sorted};
use crate::text::{
    lemma_lex_irreflexive, lemma_lex_total, lemma_lex_transitive, lex_le, lex_lt, opt_clone, opt_eq, str_lt,
};

verus! {

/// The part of `s` that a trailing `OFFSET` and `LIMIT` leave: the first
/// `offset` items are passed over, then at most `limit` are kept. Without an
/// offset nothing is passed over; without a limit everything after the
/// offset is kept.
pub open spec fn page<T>(s: Seq<T>, limit: Option<u32>, offset: Option<u32>) -> Seq<T> {
    let rest = match offset {
        Some(o) => if o <= s.len() {
            s.skip(o as int)
        } else {
            Seq::<T>::empty()
        },
        None => s,
    };
    match limit {
        Some(l) => if l <= rest.len() {
            rest.take(l as int)
        } else {
            rest
        },
        None => rest,
    }
}

/// Cuts the page out of `items`, keeping their order.
pub fn paginate<T>(items: Vec<T>, limit: Option<u32>, offset: Option<u32>) -> (r: Vec<T>)
    ensures
        r@ == page(items@, limit, offset),
{
    let mut items = items;
    let mut rest: Vec<T> = match offset {
        Some(o) => {
            if (o as usize) <= items.len() {
                items.split_off(o as usize)
            } else {
                Vec::new()
            }
        },
        None => items,
    };
    match limit {
        Some(l) => {
            rest.truncate(l as usize);
        },
        None => {},
    }
    rest
}

/// Lists the stored violations in storage order. `rows` is the whole table
/// in insertion order; the result is the page of it that `query_params`
/// asks for, or all of it where they ask for none.
pub fn get_reports(rows: Vec<BufferItem>, query_params: &GetReportQueryParams) -> (reports: Vec<
    BufferItem,
>)
    ensures
        reports@ == page(rows@, query_params.limit, query_params.offset),
{
    paginate(rows, query_params.limit, query_params.offset)
}

/// How many of `rows` have the grouping fields `key`.
pub open spec fn count_key(rows: Seq<BufferItemView>, key: GroupKey) -> nat
    decreases rows.len(),
{
    if rows.len() == 0 {
        0
    } else if rows.last().report.key() == key {
        count_key(rows.drop_last(), key) + 1
    } else {
        count_key(rows.drop_last(), key)
    }
}

/// The place of the first of `rows` that has the grouping fields `key`, or
/// the length of `rows` where none has.
pub open spec fn first_place(rows: Seq<BufferItemView>, key: GroupKey) -> int
    decreases rows.len(),
{
    if rows.len() == 0 {
        0
    } else if first_place(rows.drop_last(), key) < rows.len() - 1 {
        first_place(rows.drop_last(), key)
    } else if rows.last().report.key() == key {
        rows.len() - 1
    } else {
        rows.len() as int
    }
}

/// `t` is the earliest time of creation among the rows with the grouping
/// fields `key`: one of them has it, and none has an earlier one.
pub open spec fn is_earliest(rows: Seq<BufferItemView>, key: GroupKey, t: Seq<char>) -> bool {
    &&& exists|j: int|
        0 <= j < rows.len() && (#[trigger] rows[j]).report.key() == key && rows[j].created_at == t
    &&& forall|j: int|
        0 <= j < rows.len() && (#[trigger] rows[j]).report.key() == key ==> lex_le(
            t,
            rows[j].created_at,
        )
}

/// Some row of `listing` stands for the grouping fields `key`.
pub open spec fn has_key(listing: Seq<DistinctReportView>, key: GroupKey) -> bool {
    exists|g: int| 0 <= g < listing.len() && (#[trigger] listing[g]).key == key
}

/// `d` tells the truth about its group in `rows`: the group is not empty,
/// `d` counts it, and `d` holds the earliest time of creation in it.
pub open spec fn describes_group(rows: Seq<BufferItemView>, d: DistinctReportView) -> bool {
    &&& d.cnt >= 1
    &&& d.cnt == count_key(rows, d.key)
    &&& is_earliest(rows, d.key, d.first_seen)
}

/// The order of the distinct listing: the more frequent kind first, and of
/// two equally frequent kinds the one that was stored first.
pub open spec fn comes_before(
    rows: Seq<BufferItemView>,
    a: DistinctReportView,
    b: DistinctReportView,
) -> bool {
    a.cnt > b.cnt || (a.cnt == b.cnt && first_place(rows, a.key) < first_place(rows, b.key))
}

/// `listing` is the distinct listing of `rows`: every row of it describes
/// a group of `rows`, every one of `rows` belongs to a group that is
/// listed, and the groups stand in the listing's order, so that none is
/// listed twice.
pub open spec fn is_distinct_listing(
    rows: Seq<BufferItemView>,
    listing: Seq<DistinctReportView>,
) -> bool {
    &&& forall|g: int| 0 <= g < listing.len() ==> describes_group(rows, #[trigger] listing[g])
    &&& forall|j: int| 0 <= j < rows.len() ==> has_key(listing, (#[trigger] rows[j]).report.key())
    &&& forall|g: int, h: int|
        0 <= g < h < listing.len() ==> comes_before(rows, #[trigger] listing[g], #[trigger] listing[h])
}

/// The views of a sequence of listed groups, in the same order.
pub open spec fn distinct_views(listing: Seq<DistinctReport>) -> Seq<DistinctReportView> {
    listing.map_values(|d: DistinctReport| d@)
}

/// The earliest time of creation among the rows with the grouping fields
/// `key`, found by going through `rows` in order.
spec fn earliest(rows: Seq<BufferItemView>, key: GroupKey) -> Seq<char>
    decreases rows.len(),
{
    if rows.len() == 0 {
        Seq::<char>::empty()
    } else if rows.last().report.key() != key {
        earliest(rows.drop_last(), key)
    } else if count_key(rows.drop_last(), key) == 0 || lex_lt(
        rows.last().created_at,
        earliest(rows.drop_last(), key),
    ) {
        rows.last().created_at
    } else {
        earliest(rows.drop_last(), key)
    }
}

/// The first place of a key lies within the rows exactly if the key
/// occurs; the row there has the key and none before it has.
pub proof fn lemma_first_place(rows: Seq<BufferItemView>, key: GroupKey)
    ensures
        0 <= first_place(rows, key) <= rows.len(),
        count_key(rows, key) <= rows.len(),
        count_key(rows, key) > 0 <==> first_place(rows, key) < rows.len(),
        first_place(rows, key) < rows.len() ==> rows[first_place(rows, key)].report.key() == key,
        forall|j: int| 0 <= j < first_place(rows, key) ==> (#[trigger] rows[j]).report.key() != key,
    decreases rows.len(),
{
    if rows.len() > 0 {
        lemma_first_place(rows.drop_last(), key);
        assert forall|j: int| 0 <= j < first_place(rows, key) implies (
        #[trigger] rows[j]).report.key() != key by {
            if j < rows.len() - 1 {
                assert(rows.drop_last()[j] == rows[j]);
            }
        }
    }
}

proof fn lemma_earliest(rows: Seq<BufferItemView>, key: GroupKey)
    requires
        count_key(rows, key) > 0,
    ensures
        is_earliest(rows, key, earliest(rows, key)),
    decreases rows.len(),
{
    let before = rows.drop_last();
    let last = rows.last();
    let n = rows.len() - 1;
    assert(rows[n] == last);
    if count_key(before, key) > 0 {
        lemma_earliest(before, key);
        let e = earliest(before, key);
        let w = choose|j: int|
            0 <= j < before.len() && (#[trigger] before[j]).report.key() == key
                && before[j].created_at == e;
        assert(rows[w] == before[w]);
        let t = earliest(rows, key);
        assert forall|j: int|
            0 <= j < rows.len() && (#[trigger] rows[j]).report.key() == key implies lex_le(
            t,
            rows[j].created_at,
        ) by {
            if j < n {
                assert(before[j] == rows[j]);
                assert(lex_le(e, rows[j].created_at));
                if t != e {
                    if lex_lt(rows[j].created_at, t) {
                        lemma_lex_transitive(rows[j].created_at, t, e);
                    }
                }
            } else {
                if t != last.created_at {
                    assert(!lex_lt(last.created_at, e));
                } else {
                    lemma_lex_irreflexive(t);
                }
            }
        }
    } else {
        lemma_first_place(before, key);
        assert(last.report.key() == key);
        lemma_lex_irreflexive(last.created_at);
        assert forall|j: int|
            0 <= j < rows.len() && (#[trigger] rows[j]).report.key() == key implies lex_le(
            last.created_at,
            rows[j].created_at,
        ) by {
            if j < n {
                assert(before[j] == rows[j]);
            }
        }
    }
}

/// How count, first place and earliest time of a key change when one more
/// row is looked at.
proof fn lemma_next_row(rows: Seq<BufferItemView>, i: int, key: GroupKey)
    requires
        0 <= i < rows.len(),
    ensures
        rows.take(i + 1).drop_last() == rows.take(i),
        rows.take(i + 1).last() == rows[i],
        count_key(rows.take(i + 1), key) == count_key(rows.take(i), key) + if rows[i].report.key()
            == key {
            1nat
        } else {
            0nat
        },
        first_place(rows.take(i), key) < i ==> first_place(rows.take(i + 1), key) == first_place(
            rows.take(i),
            key,
        ),
        first_place(rows.take(i), key) >= i && rows[i].report.key() == key ==> first_place(
            rows.take(i + 1),
            key,
        ) == i,
        rows[i].report.key() != key ==> earliest(rows.take(i + 1), key) == earliest(
            rows.take(i),
            key,
        ),
        rows[i].report.key() == key ==> earliest(rows.take(i + 1), key) == if count_key(
            rows.take(i),
            key,
        ) == 0 || lex_lt(rows[i].created_at, earliest(rows.take(i), key)) {
            rows[i].created_at
        } else {
            earliest(rows.take(i), key)
        },
{
    assert(rows.take(i + 1).drop_last() =~= rows.take(i));
    lemma_first_place(rows.take(i), key);
}

/// The groups of `rows` in the order in which they first occur.
spec fn is_grouping(rows: Seq<BufferItemView>, groups: Seq<DistinctReportView>) -> bool {
    &&& forall|g: int|
        0 <= g < groups.len() ==> (#[trigger] groups[g]).cnt >= 1 && groups[g].cnt == count_key(
            rows,
            groups[g].key,
        ) && groups[g].first_seen == earliest(rows, groups[g].key)
    &&& forall|j: int| 0 <= j < rows.len() ==> has_key(groups, (#[trigger] rows[j]).report.key())
    &&& forall|g: int, h: int|
        0 <= g < h < groups.len() ==> first_place(rows, (#[trigger] groups[g]).key) < first_place(
            rows,
            (#[trigger] groups[h]).key,
        )
}

/// Whether `item` belongs to the group that `d` stands for.
fn same_group(item: &BufferItem, d: &DistinctReport) -> (r: bool)
    ensures
        r == (item@.report.key() == d@.key),
{
    item.violated_directive == d.violated_directive && item.effective_directive
        == d.effective_directive && item.original_policy == d.original_policy && item.disposition
        == d.disposition && opt_eq(&item.blocked_uri, &d.blocked_uri) && opt_eq(
        &item.source_file,
        &d.source_file,
    ) && item.script_sample == d.script_sample
}

/// The group of `item` alone.
fn group_of(item: &BufferItem) -> (d: DistinctReport)
    ensures
        d@ == (DistinctReportView {
            key: item@.report.key(),
            first_seen: item@.created_at,
            cnt: 1,
        }),
{
    DistinctReport {
        violated_directive: item.violated_directive.clone(),
        effective_directive: item.effective_directive.clone(),
        original_policy: item.original_policy.clone(),
        disposition: item.disposition.clone(),
        blocked_uri: opt_clone(&item.blocked_uri),
        source_file: opt_clone(&item.source_file),
        script_sample: item.script_sample.clone(),
        first_seen: item.created_at.clone(),
        cnt: 1,
    }
}

/// Groups `rows` by their descriptive fields. The groups come in the order
/// in which they first occur.
fn group_reports(rows: &Vec<BufferItem>) -> (groups: Vec<DistinctReport>)
    ensures
        is_grouping(item_views(rows@), distinct_views(groups@)),
{
    let n: usize = rows.len();
    let ghost all = item_views(rows@);
    let mut groups: Vec<DistinctReport> = Vec::new();
    let mut i: usize = 0;
    while i < n
        invariant
            n == rows@.len(),
            all == item_views(rows@),
            i <= n,
            is_grouping(all.take(i as int), distinct_views(groups@)),
        decreases n - i,
    {
        let item = &rows[i];
        let ghost key = all[i as int].report.key();
        let ghost seen = all.take(i as int);
        let ghost next = all.take(i + 1);
        let ghost before = distinct_views(groups@);
        let m: usize = groups.len();
        let mut g: usize = 0;
        let mut found: bool = false;
        while g < m && !found
            invariant
                m == groups@.len(),
                g <= m,
                before == distinct_views(groups@),
                key == item@.report.key(),
                forall|h: int| 0 <= h < g ==> (#[trigger] before[h]).key != key,
                found ==> g < m && before[g as int].key == key,
            decreases m - g + if found { 0int } else { 1int },
        {
            if same_group(item, &groups[g]) {
                assert(before[g as int] == groups@[g as int]@);
                found = true;
            } else {
                assert(before[g as int] == groups@[g as int]@);
                g = g + 1;
            }
        }
        proof {
            assert forall|h: int| 0 <= h < before.len() implies first_place(
                seen,
                (#[trigger] before[h]).key,
            ) < i by {
                lemma_first_place(seen, before[h].key);
            }
            assert forall|h: int| 0 <= h < before.len() implies first_place(
                next,
                (#[trigger] before[h]).key,
            ) == first_place(seen, before[h].key) by {
                lemma_next_row(all, i as int, before[h].key);
            }
            lemma_next_row(all, i as int, key);
            lemma_first_place(seen, key);
        }
        if found {
            let mut d = groups.remove(g);
            assert(d@ == before[g as int]);
            d.cnt = d.cnt + 1;
            if str_lt(item.created_at.as_str(), d.first_seen.as_str()) {
                d.first_seen = item.created_at.clone();
            }
            groups.insert(g, d);
            proof {
                let after = distinct_views(groups@);
                assert(after =~= before.update(g as int, d@));
                assert forall|h: int| 0 <= h < after.len() implies (#[trigger] after[h]).cnt >= 1
                    && after[h].cnt == count_key(next, after[h].key) && after[h].first_seen
                    == earliest(next, after[h].key) by {
                    lemma_next_row(all, i as int, before[h].key);
                    if h != g {
                        assert(before[h].key != key) by {
                            if h < g {
                                assert(first_place(seen, before[h].key) < first_place(
                                    seen,
                                    before[g as int].key,
                                ));
                            } else {
                                assert(first_place(seen, before[g as int].key) < first_place(
                                    seen,
                                    before[h].key,
                                ));
                            }
                        }
                    }
                }
                assert forall|j: int| 0 <= j < next.len() implies has_key(
                    after,
                    (#[trigger] next[j]).report.key(),
                ) by {
                    if j < i {
                        assert(seen[j] == next[j]);
                        let w = choose|w: int|
                            0 <= w < before.len() && (#[trigger] before[w]).key
                                == seen[j].report.key();
                        assert(after[w].key == next[j].report.key());
                    } else {
                        assert(after[g as int].key == next[j].report.key());
                    }
                }
                assert forall|a: int, b: int| 0 <= a < b < after.len() implies first_place(
                    next,
                    (#[trigger] after[a]).key,
                ) < first_place(next, (#[trigger] after[b]).key) by {
                    assert(after[a].key == before[a].key);
                    assert(after[b].key == before[b].key);
                }
            }
        } else {
            let d = group_of(item);
            groups.push(d);
            proof {
                let after = distinct_views(groups@);
                assert(after =~= before.push(d@));
                assert forall|j: int| 0 <= j < seen.len() implies (#[trigger] seen[j]).report.key()
                    != key by {
                    let w = choose|w: int|
                        0 <= w < before.len() && (#[trigger] before[w]).key
                            == seen[j].report.key();
                }
                assert(first_place(seen, key) == i);
                assert(count_key(seen, key) == 0);
                assert forall|h: int| 0 <= h < after.len() implies (#[trigger] after[h]).cnt >= 1
                    && after[h].cnt == count_key(next, after[h].key) && after[h].first_seen
                    == earliest(next, after[h].key) by {
                    if h < before.len() {
                        lemma_next_row(all, i as int, before[h].key);
                        assert(after[h] == before[h]);
                        assert(count_key(seen, before[h].key) >= 1);
                    }
                }
                assert forall|j: int| 0 <= j < next.len() implies has_key(
                    after,
                    (#[trigger] next[j]).report.key(),
                ) by {
                    if j < i {
                        assert(seen[j] == next[j]);
                        let w = choose|w: int|
                            0 <= w < before.len() && (#[trigger] before[w]).key
                                == seen[j].report.key();
                        assert(after[w].key == next[j].report.key());
                    } else {
                        assert(after[before.len() as int].key == next[j].report.key());
                    }
                }
                assert forall|a: int, b: int| 0 <= a < b < after.len() implies first_place(
                    next,
                    (#[trigger] after[a]).key,
                ) < first_place(next, (#[trigger] after[b]).key) by {
                    assert(after[a] == before[a]);
                    if b < before.len() {
                        assert(after[b] == before[b]);
                    }
                }
            }
        }
        i = i + 1;
    }
    assert(all.take(n as int) =~= all);
    groups
}

/// Puts the groups of `rows` into the listing's order. They come in the
/// order of their first occurrence and are taken from the back, so each one
/// was stored before all that are already listed: it goes in front of the
/// first listed group that is not more frequent than it.
fn sort_by_count(groups: Vec<DistinctReport>, Ghost(rows): Ghost<Seq<BufferItemView>>) -> (listing:
    Vec<DistinctReport>)
    requires
        is_grouping(rows, distinct_views(groups@)),
    ensures
        is_distinct_listing(rows, distinct_views(listing@)),
{
    let mut groups = groups;
    let mut listing: Vec<DistinctReport> = Vec::new();
    proof {
        let gv = distinct_views(groups@);
        assert forall|g: int| 0 <= g < gv.len() implies describes_group(rows, #[trigger] gv[g]) by {
            lemma_earliest(rows, gv[g].key);
        }
    }
    while groups.len() > 0
        invariant
            forall|g: int|
                0 <= g < groups@.len() ==> describes_group(
                    rows,
                    #[trigger] distinct_views(groups@)[g],
                ),
            forall|g: int, h: int|
                0 <= g < h < groups@.len() ==> first_place(
                    rows,
                    (#[trigger] distinct_views(groups@)[g]).key,
                ) < first_place(rows, (#[trigger] distinct_views(groups@)[h]).key),
            forall|e: int|
                0 <= e < listing@.len() ==> describes_group(
                    rows,
                    #[trigger] distinct_views(listing@)[e],
                ),
            forall|e: int, f: int|
                0 <= e < f < listing@.len() ==> comes_before(
                    rows,
                    #[trigger] distinct_views(listing@)[e],
                    #[trigger] distinct_views(listing@)[f],
                ),
            forall|g: int, e: int|
                0 <= g < groups@.len() && 0 <= e < listing@.len() ==> first_place(
                    rows,
                    (#[trigger] distinct_views(groups@)[g]).key,
                ) < first_place(rows, (#[trigger] distinct_views(listing@)[e]).key),
            forall|j: int|
                0 <= j < rows.len() ==> has_key(
                    distinct_views(groups@),
                    (#[trigger] rows[j]).report.key(),
                ) || has_key(distinct_views(listing@), rows[j].report.key()),
        decreases groups@.len(),
    {
        let ghost gv = distinct_views(groups@);
        let ghost lv = distinct_views(listing@);
        let d = groups.pop().unwrap();
        let ghost last = gv.len() - 1;
        assert(d@ == gv[last]);
        assert(distinct_views(groups@) =~= gv.drop_last());
        let m: usize = listing.len();
        let mut idx: usize = 0;
        let mut placed: bool = false;
        while idx < m && !placed
            invariant
                m == listing@.len(),
                lv == distinct_views(listing@),
                idx <= m,
                forall|e: int| 0 <= e < idx ==> (#[trigger] lv[e]).cnt > d@.cnt,
                placed ==> idx < m && lv[idx as int].cnt <= d@.cnt,
            decreases m - idx + if placed { 0int } else { 1int },
        {
            assert(lv[idx as int] == listing@[idx as int]@);
            if listing[idx].cnt > d.cnt {
                idx = idx + 1;
            } else {
                placed = true;
            }
        }
        listing.insert(idx, d);
        proof {
            let gv2 = distinct_views(groups@);
            let lv2 = distinct_views(listing@);
            assert(lv2 =~= lv.insert(idx as int, d@));
            assert forall|e: int| 0 <= e < lv2.len() implies describes_group(
                rows,
                #[trigger] lv2[e],
            ) by {
                if e < idx {
                    assert(lv2[e] == lv[e]);
                } else if e > idx {
                    assert(lv2[e] == lv[e - 1]);
                }
            }
            assert forall|g: int| 0 <= g < gv2.len() implies describes_group(
                rows,
                #[trigger] gv2[g],
            ) by {
                assert(gv2[g] == gv[g]);
            }
            assert forall|g: int, h: int| 0 <= g < h < gv2.len() implies first_place(
                rows,
                (#[trigger] gv2[g]).key,
            ) < first_place(rows, (#[trigger] gv2[h]).key) by {
                assert(gv2[g] == gv[g]);
                assert(gv2[h] == gv[h]);
            }
            assert forall|g: int, e: int| 0 <= g < gv2.len() && 0 <= e < lv2.len() implies first_place(
                rows,
                (#[trigger] gv2[g]).key,
            ) < first_place(rows, (#[trigger] lv2[e]).key) by {
                assert(gv2[g] == gv[g]);
                if e < idx {
                    assert(lv2[e] == lv[e]);
                } else if e > idx {
                    assert(lv2[e] == lv[e - 1]);
                } else {
                    assert(lv2[e] == gv[last]);
                }
            }
            assert forall|e: int, f: int| 0 <= e < f < lv2.len() implies comes_before(
                rows,
                #[trigger] lv2[e],
                #[trigger] lv2[f],
            ) by {
                if f < idx {
                    assert(lv2[e] == lv[e]);
                    assert(lv2[f] == lv[f]);
                } else if f == idx {
                    assert(lv2[e] == lv[e]);
                } else if e < idx {
                    assert(lv2[e] == lv[e]);
                    assert(lv2[f] == lv[f - 1]);
                } else if e == idx {
                    assert(lv2[f] == lv[f - 1]);
                    assert(lv[idx as int].cnt <= d@.cnt);
                    if f - 1 > idx {
                        assert(comes_before(rows, lv[idx as int], lv[f - 1]));
                    }
                    assert(first_place(rows, gv[last].key) < first_place(rows, lv[f - 1].key));
                } else {
                    assert(lv2[e] == lv[e - 1]);
                    assert(lv2[f] == lv[f - 1]);
                }
            }
            assert forall|j: int| 0 <= j < rows.len() implies has_key(
                gv2,
                (#[trigger] rows[j]).report.key(),
            ) || has_key(lv2, rows[j].report.key()) by {
                let k = rows[j].report.key();
                if has_key(gv, k) {
                    let w = choose|w: int| 0 <= w < gv.len() && (#[trigger] gv[w]).key == k;
                    if w == last {
                        assert(lv2[idx as int].key == k);
                    } else {
                        assert(gv2[w].key == k);
                    }
                } else {
                    let w = choose|w: int| 0 <= w < lv.len() && (#[trigger] lv[w]).key == k;
                    if w < idx {
                        assert(lv2[w].key == k);
                    } else {
                        assert(lv2[w + 1] == lv[w]);
                        assert(lv2[w + 1].key == k);
                    }
                }
            }
        }
    }
    proof {
        let lv = distinct_views(listing@);
        let gv = distinct_views(groups@);
        assert forall|j: int| 0 <= j < rows.len() implies has_key(
            lv,
            (#[trigger] rows[j]).report.key(),
        ) by {
            assert(!has_key(gv, rows[j].report.key()));
        }
    }
    listing
}

/// Groups the stored violations into distinct kinds: one row for every
/// combination of the seven descriptive fields that occurs, with the
/// earliest time of creation in the group and the group's size. The most
/// frequent kind comes first; of equally frequent kinds, the one stored
/// first.
pub fn distinct_reports(rows: &Vec<BufferItem>) -> (listing: Vec<DistinctReport>)
    ensures
        is_distinct_listing(item_views(rows@), distinct_views(listing@)),
{
    let groups = group_reports(rows);
    sort_by_count(groups, Ghost(item_views(rows@)))
}

/// Lists the distinct kinds of stored violations. `rows` is the whole
/// table in insertion order; the result is the page of the distinct
/// listing that `query_params` asks for, or all of it where they ask for
/// none.
pub fn get_distinct_reports(rows: &Vec<BufferItem>, query_params: &GetDistinctReportQueryParams) -> (reports:
    Vec<DistinctReport>)
    ensures
        exists|listing: Seq<DistinctReportView>| #[trigger]
            is_distinct_listing(item_views(rows@), listing) && distinct_views(reports@) == page(
                listing,
                query_params.limit,
                query_params.offset,
            ),
{
    let listing = distinct_reports(rows);
    let ghost whole = listing@;
    let reports = paginate(listing, query_params.limit, query_params.offset);
    proof {
        lemma_page_of_views(whole, query_params.limit, query_params.offset);
        assert(is_distinct_listing(item_views(rows@), distinct_views(whole)));
    }
    reports
}

/// The views of a page are the page of the views.
proof fn lemma_page_of_views(listing: Seq<DistinctReport>, limit: Option<u32>, offset: Option<u32>)
    ensures
        distinct_views(page(listing, limit, offset)) == page(
            distinct_views(listing),
            limit,
            offset,
        ),
{
    assert(distinct_views(page(listing, limit, offset)) =~= page(
        distinct_views(listing),
        limit,
        offset,
    ));
}

/// The sum of the counts of `listing`.
pub open spec fn total_count(listing: Seq<DistinctReportView>) -> nat
    decreases listing.len(),
{
    if listing.len() == 0 {
        0
    } else {
        total_count(listing.drop_last()) + listing.last().cnt
    }
}

/// How many of `rows` belong to a group that `listing` lists.
pub open spec fn count_listed(rows: Seq<BufferItemView>, listing: Seq<DistinctReportView>) -> nat
    decreases rows.len(),
{
    if rows.len() == 0 {
        0
    } else if has_key(listing, rows.last().report.key()) {
        count_listed(rows.drop_last(), listing) + 1
    } else {
        count_listed(rows.drop_last(), listing)
    }
}

/// No two rows of `part` stand for the same group.
spec fn distinct_keys(part: Seq<DistinctReportView>) -> bool {
    forall|g: int, h: int|
        0 <= g < h < part.len() ==> (#[trigger] part[g]).key != (#[trigger] part[h]).key
}

/// Every row of `part` counts its group in `rows`.
spec fn counts_groups(rows: Seq<BufferItemView>, part: Seq<DistinctReportView>) -> bool {
    forall|g: int| 0 <= g < part.len() ==> (#[trigger] part[g]).cnt == count_key(rows, part[g].key)
}

/// The sizes in `rows` of the groups that `part` lists, added up.
spec fn sum_of_sizes(rows: Seq<BufferItemView>, part: Seq<DistinctReportView>) -> nat
    decreases part.len(),
{
    if part.len() == 0 {
        0
    } else {
        sum_of_sizes(rows, part.drop_last()) + count_key(rows, part.last().key)
    }
}

proof fn lemma_sizes_of_no_rows(part: Seq<DistinctReportView>)
    ensures
        sum_of_sizes(Seq::<BufferItemView>::empty(), part) == 0,
    decreases part.len(),
{
    if part.len() > 0 {
        lemma_sizes_of_no_rows(part.drop_last());
    }
}

proof fn lemma_sizes_grow_by_one(rows: Seq<BufferItemView>, part: Seq<DistinctReportView>)
    requires
        rows.len() > 0,
        distinct_keys(part),
    ensures
        sum_of_sizes(rows, part) == sum_of_sizes(rows.drop_last(), part) + if has_key(
            part,
            rows.last().report.key(),
        ) {
            1nat
        } else {
            0nat
        },
    decreases part.len(),
{
    let k = rows.last().report.key();
    if part.len() > 0 {
        let fewer = part.drop_last();
        let x = part.last();
        assert(x == part[part.len() - 1]);
        assert forall|g: int, h: int| 0 <= g < h < fewer.len() implies (#[trigger] fewer[g]).key != (
        #[trigger] fewer[h]).key by {
            assert(fewer[g] == part[g]);
            assert(fewer[h] == part[h]);
        }
        lemma_sizes_grow_by_one(rows, fewer);
        if has_key(fewer, k) {
            let w = choose|w: int| 0 <= w < fewer.len() && (#[trigger] fewer[w]).key == k;
            assert(part[w] == fewer[w]);
            assert(part[w].key == k);
            assert(x.key != k);
        } else if x.key == k {
            assert(part[part.len() - 1].key == k);
        } else {
            if has_key(part, k) {
                let w = choose|w: int| 0 <= w < part.len() && (#[trigger] part[w]).key == k;
                assert(fewer[w] == part[w]);
            }
        }
    }
}

proof fn lemma_sizes_are_listed_rows(rows: Seq<BufferItemView>, part: Seq<DistinctReportView>)
    requires
        distinct_keys(part),
    ensures
        sum_of_sizes(rows, part) == count_listed(rows, part),
    decreases rows.len(),
{
    if rows.len() == 0 {
        assert(rows =~= Seq::<BufferItemView>::empty());
        lemma_sizes_of_no_rows(part);
    } else {
        lemma_sizes_are_listed_rows(rows.drop_last(), part);
        lemma_sizes_grow_by_one(rows, part);
    }
}

proof fn lemma_total_is_sum_of_sizes(rows: Seq<BufferItemView>, part: Seq<DistinctReportView>)
    requires
        counts_groups(rows, part),
    ensures
        total_count(part) == sum_of_sizes(rows, part),
    decreases part.len(),
{
    if part.len() > 0 {
        let fewer = part.drop_last();
        assert(part.last() == part[part.len() - 1]);
        assert forall|g: int| 0 <= g < fewer.len() implies (#[trigger] fewer[g]).cnt == count_key(
            rows,
            fewer[g].key,
        ) by {
            assert(fewer[g] == part[g]);
        }
        lemma_total_is_sum_of_sizes(rows, fewer);
    }
}

proof fn lemma_all_rows_listed(rows: Seq<BufferItemView>, n: int, listing: Seq<DistinctReportView>)
    requires
        0 <= n <= rows.len(),
        forall|j: int| 0 <= j < rows.len() ==> has_key(listing, (#[trigger] rows[j]).report.key()),
    ensures
        count_listed(rows.take(n), listing) == n,
    decreases n,
{
    if n > 0 {
        lemma_all_rows_listed(rows, n - 1, listing);
        assert(rows.take(n).drop_last() =~= rows.take(n - 1));
        assert(rows.take(n).last() == rows[n - 1]);
    }
}

/// No group is listed twice in a distinct listing.
pub proof fn lemma_listing_has_distinct_keys(
    rows: Seq<BufferItemView>,
    listing: Seq<DistinctReportView>,
)
    requires
        is_distinct_listing(rows, listing),
    ensures
        forall|g: int, h: int|
            0 <= g < h < listing.len() ==> (#[trigger] listing[g]).key != (
            #[trigger] listing[h]).key,
{
    assert forall|g: int, h: int| 0 <= g < h < listing.len() implies (#[trigger] listing[g]).key != (
    #[trigger] listing[h]).key by {
        assert(describes_group(rows, listing[g]));
        assert(describes_group(rows, listing[h]));
        assert(comes_before(rows, listing[g], listing[h]));
    }
}

/// Grouping loses no record and counts none twice: the counts of the
/// distinct listing add up to the number of stored records.
pub proof fn law_counts_sum_to_rows(rows: Seq<BufferItemView>, listing: Seq<DistinctReportView>)
    requires
        is_distinct_listing(rows, listing),
    ensures
        total_count(listing) == rows.len(),
{
    lemma_listing_has_distinct_keys(rows, listing);
    assert(counts_groups(rows, listing)) by {
        assert forall|g: int| 0 <= g < listing.len() implies (#[trigger] listing[g]).cnt
            == count_key(rows, listing[g].key) by {
            assert(describes_group(rows, listing[g]));
        }
    }
    lemma_total_is_sum_of_sizes(rows, listing);
    lemma_sizes_are_listed_rows(rows, listing);
    lemma_all_rows_listed(rows, rows.len() as int, listing);
    assert(rows.take(rows.len() as int) =~= rows);
}

/// The same holds of any page of the listing: its counts add up to the
/// number of stored records that belong to the groups on the page.
pub proof fn law_page_counts_sum_to_rows(
    rows: Seq<BufferItemView>,
    listing: Seq<DistinctReportView>,
    limit: Option<u32>,
    offset: Option<u32>,
)
    requires
        is_distinct_listing(rows, listing),
    ensures
        total_count(page(listing, limit, offset)) == count_listed(
            rows,
            page(listing, limit, offset),
        ),
{
    let part = page(listing, limit, offset);
    lemma_listing_has_distinct_keys(rows, listing);
    let skipped: int = match offset {
        Some(o) => if o <= listing.len() {
            o as int
        } else {
            listing.len() as int
        },
        None => 0,
    };
    assert forall|g: int| 0 <= g < part.len() implies #[trigger] part[g] == listing[g + skipped] by {}
    assert(counts_groups(rows, part)) by {
        assert forall|g: int| 0 <= g < part.len() implies (#[trigger] part[g]).cnt == count_key(
            rows,
            part[g].key,
        ) by {
            assert(describes_group(rows, listing[g + skipped]));
        }
    }
    assert(distinct_keys(part)) by {
        assert forall|g: int, h: int| 0 <= g < h < part.len() implies (#[trigger] part[g]).key != (
        #[trigger] part[h]).key by {
            assert(listing[g + skipped].key != listing[h + skipped].key);
        }
    }
    lemma_total_is_sum_of_sizes(rows, part);
    lemma_sizes_are_listed_rows(rows, part);
}

/// The earliest time of creation in a group is one time only.
proof fn lemma_earliest_is_unique(
    rows: Seq<BufferItemView>,
    key: GroupKey,
    s: Seq<char>,
    t: Seq<char>,
)
    requires
        is_earliest(rows, key, s),
        is_earliest(rows, key, t),
    ensures
        s == t,
{
    let i = choose|i: int|
        0 <= i < rows.len() && (#[trigger] rows[i]).report.key() == key && rows[i].created_at == s;
    let j = choose|j: int|
        0 <= j < rows.len() && (#[trigger] rows[j]).report.key() == key && rows[j].created_at == t;
    assert(lex_le(s, rows[j].created_at));
    assert(lex_le(t, rows[i].created_at));
    lemma_lex_total(s, t);
}

/// Whatever one distinct listing of `rows` lists, another lists too.
proof fn lemma_listings_hold_the_same(
    rows: Seq<BufferItemView>,
    a: Seq<DistinctReportView>,
    b: Seq<DistinctReportView>,
    x: DistinctReportView,
)
    requires
        is_distinct_listing(rows, a),
        is_distinct_listing(rows, b),
        a.contains(x),
    ensures
        b.contains(x),
{
    let g = choose|g: int| 0 <= g < a.len() && a[g] == x;
    assert(describes_group(rows, a[g]));
    lemma_first_place(rows, x.key);
    let p = first_place(rows, x.key);
    assert(has_key(b, rows[p].report.key()));
    let h = choose|h: int| 0 <= h < b.len() && (#[trigger] b[h]).key == x.key;
    assert(describes_group(rows, b[h]));
    lemma_earliest_is_unique(rows, x.key, x.first_seen, b[h].first_seen);
    assert(b[h] == x);
}

/// The distinct listing of a table is one listing only: what
/// `is_distinct_listing` says of it leaves no choice, neither of the rows
/// nor of their order.
pub proof fn law_listing_is_unique(
    rows: Seq<BufferItemView>,
    a: Seq<DistinctReportView>,
    b: Seq<DistinctReportView>,
)
    requires
        is_distinct_listing(rows, a),
        is_distinct_listing(rows, b),
    ensures
        a == b,
{
    let before = |x: DistinctReportView, y: DistinctReportView| comes_before(rows, x, y);
    assert(is_strict_order(before));
    assert(strictly_sorted(a, before));
    assert(strictly_sorted(b, before));
    assert forall|x: DistinctReportView| a.contains(x) <==> b.contains(x) by {
        if a.contains(x) {
            lemma_listings_hold_the_same(rows, a, b, x);
        }
        if b.contains(x) {
            lemma_listings_hold_the_same(rows, b, a, x);
        }
    }
    lemma_sorted_is_unique(a, b, before);
}

} // verus!
