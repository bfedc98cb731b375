//! The recent-file list: bookmark-log files first, then directory files
//! not already listed up to the cap, then ordered newest first.
use vstd::prelude::*;
use crate::app_info::{AppInfo, AppInfoView, XbelBookmark, items_view};
use crate::paths::{recent_file_item, recent_item_of};
use crate::xbel::BookmarkView;

verus! {

/// The items that stand for the paths that have a final component, in
/// order.
pub open spec fn items_of_paths(paths: Seq<Seq<char>>) -> Seq<AppInfoView>
    decreases paths.len(),
{
    if paths.len() == 0 {
        seq![]
    } else {
        let prev = items_of_paths(paths.drop_last());
        match recent_item_of(paths.last()) {
            Some(x) => prev.push(x),
            None => prev,
        }
    }
}

/// The paths of the bookmarks whose file exists.
pub open spec fn existing_paths(bs: Seq<BookmarkView>, exists: Seq<bool>) -> Seq<Seq<char>>
    decreases bs.len(),
{
    if bs.len() == 0 {
        seq![]
    } else {
        let prev = existing_paths(bs.drop_last(), exists);
        if exists[bs.len() - 1] {
            prev.push(bs.last().file_path)
        } else {
            prev
        }
    }
}

/// Whether an item of `s` has the file path `p`.
pub open spec fn path_listed(s: Seq<AppInfoView>, p: Option<Seq<char>>) -> bool {
    exists|i: int| 0 <= i < s.len() && s[i].file_path == p
}

/// The items of `ds` whose path neither an item of `bm` nor an earlier
/// item of `ds` has, in order.
pub open spec fn fresh_items(bm: Seq<AppInfoView>, ds: Seq<AppInfoView>) -> Seq<AppInfoView>
    decreases ds.len(),
{
    if ds.len() == 0 {
        seq![]
    } else {
        let prev = fresh_items(bm, ds.drop_last());
        if path_listed(bm, ds.last().file_path) || path_listed(prev, ds.last().file_path) {
            prev
        } else {
            prev.push(ds.last())
        }
    }
}

/// The bookmarked items, then the fresh directory items while the count
/// stays below `max_files`.
pub open spec fn merged(bm: Seq<AppInfoView>, ds: Seq<AppInfoView>, max_files: nat) -> Seq<
    AppInfoView,
> {
    let fresh = fresh_items(bm, ds);
    let slots: int = if max_files > bm.len() {
        max_files - bm.len()
    } else {
        0
    };
    bm + fresh.take(if fresh.len() < slots {
        fresh.len() as int
    } else {
        slots
    })
}

/// A modification time as a rank: unknown times rank lowest.
pub open spec fn time_rank(t: Option<u64>) -> int {
    match t {
        Some(x) => x + 1,
        None => 0,
    }
}

/// Items paired with the ranks of their modification times.
pub open spec fn timed(items: Seq<AppInfoView>, mtimes: Seq<Option<u64>>) -> Seq<
    (AppInfoView, int),
> {
    Seq::new(items.len(), |k: int| (items[k], time_rank(mtimes[k])))
}

/// The first index at or after `i` whose rank is below `r`.
pub open spec fn insert_pos_desc<A>(t: Seq<(A, int)>, r: int, i: int) -> int
    decreases t.len() - i,
{
    if i < 0 || i >= t.len() || t[i].1 < r {
        i
    } else {
        insert_pos_desc(t, r, i + 1)
    }
}

/// Stable sort by rank, highest first: each item goes after all earlier
/// items of a rank not below its own.
pub open spec fn sort_desc<A>(s: Seq<(A, int)>) -> Seq<(A, int)>
    decreases s.len(),
{
    if s.len() == 0 {
        seq![]
    } else {
        let t = sort_desc(s.drop_last());
        t.insert(insert_pos_desc(t, s.last().1, 0), s.last())
    }
}

/// The items ordered newest first, stably, then cut to `max_files`.
pub open spec fn ordered(items: Seq<AppInfoView>, mtimes: Seq<Option<u64>>, max_files: nat) -> Seq<
    AppInfoView,
> {
    let sorted = sort_desc(timed(items, mtimes));
    sorted.take(if sorted.len() < max_files {
        sorted.len() as int
    } else {
        max_files as int
    }).map_values(|p: (AppInfoView, int)| p.0)
}

/// The items that stand for the paths, skipping a path without a final
/// component.
pub fn recent_items(paths: &Vec<String>) -> (r: Vec<AppInfo>)
    ensures
        items_view(r@) == items_of_paths(paths.deep_view()),
{
    let mut out: Vec<AppInfo> = Vec::new();
    let mut i: usize = 0;
    assert(items_view(out@) =~= Seq::<AppInfoView>::empty());
    while i < paths.len()
        invariant
            i <= paths@.len(),
            items_view(out@) == items_of_paths(paths.deep_view().take(i as int)),
        decreases paths@.len() - i,
    {
        assert(paths.deep_view().take(i + 1 as int).drop_last() =~= paths.deep_view().take(
            i as int,
        ));
        assert(paths.deep_view().take(i + 1 as int).last() == paths@[i as int]@);
        match recent_file_item(paths[i].as_str()) {
            Some(item) => {
                let ghost before = items_view(out@);
                out.push(item);
                assert(items_view(out@) =~= before.push(item@));
            },
            None => {},
        }
        i = i + 1;
    }
    assert(paths.deep_view().take(paths@.len() as int) =~= paths.deep_view());
    out
}

/// The items for the bookmarks whose file exists, in log order;
/// `exists[i]` tells whether the file of `bookmarks[i]` exists.
pub fn bookmark_items(bookmarks: &Vec<XbelBookmark>, exists: &Vec<bool>) -> (r: Vec<AppInfo>)
    requires
        exists@.len() == bookmarks@.len(),
    ensures
        items_view(r@) == items_of_paths(
            existing_paths(bookmarks@.map_values(|b: XbelBookmark| b@), exists@),
        ),
{
    let ghost bs = bookmarks@.map_values(|b: XbelBookmark| b@);
    let mut paths: Vec<String> = Vec::new();
    let mut i: usize = 0;
    assert(paths.deep_view() =~= Seq::<Seq<char>>::empty());
    while i < bookmarks.len()
        invariant
            i <= bookmarks@.len(),
            exists@.len() == bookmarks@.len(),
            bs == bookmarks@.map_values(|b: XbelBookmark| b@),
            paths.deep_view() == existing_paths(bs.take(i as int), exists@),
        decreases bookmarks@.len() - i,
    {
        assert(bs.take(i + 1 as int).drop_last() =~= bs.take(i as int));
        if exists[i] {
            let ghost before = paths.deep_view();
            paths.push(bookmarks[i].file_path.clone());
            assert(paths.deep_view() =~= before.push(bs[i as int].file_path));
        }
        i = i + 1;
    }
    assert(bs.take(bookmarks@.len() as int) =~= bs);
    recent_items(&paths)
}

fn path_listed_exec(bm: &Vec<AppInfo>, p: &Option<String>) -> (r: bool)
    ensures
        r == path_listed(items_view(bm@), crate::app_info::opt_view(*p)),
{
    let mut i: usize = 0;
    while i < bm.len()
        invariant
            i <= bm@.len(),
            forall|k: int|
                0 <= k < i ==> (#[trigger] items_view(bm@)[k]).file_path
                    != crate::app_info::opt_view(*p),
        decreases bm@.len() - i,
    {
        assert(items_view(bm@)[i as int] == bm@[i as int]@);
        let same = match (&bm[i].file_path, p) {
            (Some(a), Some(b)) => a.eq(b),
            (None, None) => true,
            _ => false,
        };
        if same {
            assert(items_view(bm@)[i as int].file_path == crate::app_info::opt_view(*p));
            return true;
        }
        i = i + 1;
    }
    false
}

proof fn lemma_fresh_items_unique(bm: Seq<AppInfoView>, ds: Seq<AppInfoView>)
    ensures
        forall|k: int|
            0 <= k < fresh_items(bm, ds).len() ==> !path_listed(
                bm,
                (#[trigger] fresh_items(bm, ds)[k]).file_path,
            ),
        forall|a: int, b: int|
            0 <= a < b < fresh_items(bm, ds).len() ==> (#[trigger] fresh_items(bm, ds)[a]).file_path
                != (#[trigger] fresh_items(bm, ds)[b]).file_path,
    decreases ds.len(),
{
    if ds.len() > 0 {
        lemma_fresh_items_unique(bm, ds.drop_last());
        let prev = fresh_items(bm, ds.drop_last());
        let x = ds.last();
        if !(path_listed(bm, x.file_path) || path_listed(prev, x.file_path)) {
            let f = prev.push(x);
            assert forall|k: int| 0 <= k < f.len() implies !path_listed(
                bm,
                (#[trigger] f[k]).file_path,
            ) by {
                if k < prev.len() {
                    assert(f[k] == prev[k]);
                }
            }
            assert forall|a: int, b: int| 0 <= a < b < f.len() implies (#[trigger] f[a]).file_path
                != (#[trigger] f[b]).file_path by {
                assert(f[a] == prev[a]);
                if b < prev.len() {
                    assert(f[b] == prev[b]);
                } else {
                    assert(f[b] == x);
                    if prev[a].file_path == x.file_path {
                        assert(path_listed(prev, x.file_path));
                    }
                }
            }
        }
    }
}

/// The merge takes each file once: no directory-sourced item of the merged
/// list has the path of a bookmarked item or of an earlier directory item.
pub proof fn lemma_merged_directory_files_unique(
    bm: Seq<AppInfoView>,
    ds: Seq<AppInfoView>,
    max_files: nat,
)
    ensures
        ({
            let m = merged(bm, ds, max_files);
            forall|i: int, j: int|
                0 <= i < j < m.len() && j >= bm.len() ==> (#[trigger] m[i]).file_path != (
                #[trigger] m[j]).file_path
        }),
{
    lemma_fresh_items_unique(bm, ds);
    let f = fresh_items(bm, ds);
    let m = merged(bm, ds, max_files);
    assert forall|i: int, j: int| 0 <= i < j < m.len() && j >= bm.len() implies (
    #[trigger] m[i]).file_path != (#[trigger] m[j]).file_path by {
        let fj = f[j - bm.len()];
        assert(m[j] == fj);
        assert(!path_listed(bm, fj.file_path));
        if i < bm.len() {
            assert(m[i] == bm[i]);
            if bm[i].file_path == fj.file_path {
                assert(path_listed(bm, fj.file_path));
            }
        } else {
            assert(m[i] == f[i - bm.len()]);
        }
    }
}

/// Merges the bookmarked items (all kept, first) with the items of the
/// directory paths in scan order: a directory item is added while the count
/// is below `max_files`, unless a bookmarked item has its path.
pub fn merge_recent_files(bookmarked: Vec<AppInfo>, dir_paths: &Vec<String>, max_files: usize) -> (r:
    Vec<AppInfo>)
    ensures
        items_view(r@) == merged(
            items_view(bookmarked@),
            items_of_paths(dir_paths.deep_view()),
            max_files as nat,
        ),
{
    let dir_items = recent_items(dir_paths);
    let ghost bm = items_view(bookmarked@);
    let ghost ds = items_of_paths(dir_paths.deep_view());
    let n = bookmarked.len();
    let slots: usize = if max_files > n {
        max_files - n
    } else {
        0
    };
    let mut added: Vec<AppInfo> = Vec::new();
    let mut i: usize = 0;
    assert(items_view(added@) =~= Seq::<AppInfoView>::empty());
    while i < dir_items.len()
        invariant
            i <= dir_items@.len(),
            items_view(dir_items@) == ds,
            bm == items_view(bookmarked@),
            items_view(added@) == ({
                let f = fresh_items(bm, ds.take(i as int));
                f.take(if f.len() < slots {
                    f.len() as int
                } else {
                    slots as int
                })
            }),
        decreases dir_items@.len() - i,
    {
        let ghost f0 = fresh_items(bm, ds.take(i as int));
        assert(ds.take(i + 1 as int).drop_last() =~= ds.take(i as int));
        assert(ds.take(i + 1 as int).last() == dir_items@[i as int]@);
        let ghost x = dir_items@[i as int]@;
        assert(items_view(added@).len() == added@.len());
        if added.len() < slots {
            assert(f0.take(f0.len() as int) =~= f0);
            if !path_listed_exec(&bookmarked, &dir_items[i].file_path) && !path_listed_exec(
                &added,
                &dir_items[i].file_path,
            ) {
                let ghost before = items_view(added@);
                added.push(dir_items[i].copied());
                assert(items_view(added@) =~= before.push(x));
                assert(f0.push(x).take(f0.len() + 1 as int) =~= f0.push(x));
            }
        } else {
            assert(f0.len() >= slots);
            assert(f0.push(x).take(slots as int) =~= f0.take(slots as int));
        }
        i = i + 1;
    }
    assert(ds.take(dir_items@.len() as int) =~= ds);
    let mut out = bookmarked;
    let ghost before = items_view(out@);
    out.append(&mut added);
    assert(items_view(out@) =~= merged(bm, ds, max_files as nat));
    out
}

spec fn pairs_of(items: Seq<AppInfo>, ranks: Seq<Option<u64>>) -> Seq<(AppInfoView, int)> {
    Seq::new(items.len(), |k: int| (items[k]@, time_rank(ranks[k])))
}

fn rank_lt(a: Option<u64>, b: Option<u64>) -> (r: bool)
    ensures
        r == (time_rank(a) < time_rank(b)),
{
    match (a, b) {
        (Some(x), Some(y)) => x < y,
        (None, Some(_)) => true,
        _ => false,
    }
}

/// Orders the items newest first by modification time, keeping the given
/// order among equal times and putting items of unknown time last, then
/// keeps the first `max_files`; `mtimes[i]` is the time of `items[i]`.
pub fn order_recent_files(items: Vec<AppInfo>, mtimes: &Vec<Option<u64>>, max_files: usize) -> (r:
    Vec<AppInfo>)
    requires
        mtimes@.len() == items@.len(),
    ensures
        items_view(r@) == ordered(items_view(items@), mtimes@, max_files as nat),
{
    let ghost s = timed(items_view(items@), mtimes@);
    let mut sorted: Vec<AppInfo> = Vec::new();
    let mut ranks: Vec<Option<u64>> = Vec::new();
    let mut i: usize = 0;
    assert(pairs_of(sorted@, ranks@) =~= sort_desc(s.take(0)));
    while i < items.len()
        invariant
            i <= items@.len(),
            mtimes@.len() == items@.len(),
            s == timed(items_view(items@), mtimes@),
            sorted@.len() == ranks@.len(),
            pairs_of(sorted@, ranks@) == sort_desc(s.take(i as int)),
        decreases items@.len() - i,
    {
        let ghost cur = pairs_of(sorted@, ranks@);
        let t = mtimes[i];
        let mut p: usize = 0;
        while p < sorted.len() && !rank_lt(ranks[p], t)
            invariant
                p <= sorted@.len(),
                sorted@.len() == ranks@.len(),
                cur == pairs_of(sorted@, ranks@),
                insert_pos_desc(cur, time_rank(t), 0) == insert_pos_desc(cur, time_rank(t), p as int),
            decreases sorted@.len() - p,
        {
            p = p + 1;
        }
        assert(s.take(i + 1 as int).drop_last() =~= s.take(i as int));
        assert(s.take(i + 1 as int).last() == (items@[i as int]@, time_rank(t)));
        sorted.insert(p, items[i].copied());
        ranks.insert(p, t);
        assert(pairs_of(sorted@, ranks@) =~= cur.insert(p as int, (items@[i as int]@, time_rank(t))));
        i = i + 1;
    }
    assert(s.take(items@.len() as int) =~= s);
    let ghost full = pairs_of(sorted@, ranks@);
    sorted.truncate(max_files);
    let ghost k: int = if full.len() < max_files {
        full.len() as int
    } else {
        max_files as int
    };
    assert(items_view(sorted@) =~= full.take(k).map_values(|p: (AppInfoView, int)| p.0));
    sorted
}

/// Orders the files of one directory newest first by modification time,
/// keeping the given order among equal times; `mtimes[i]` is the time of
/// `paths[i]`.
pub fn sort_newest_first(paths: &Vec<String>, mtimes: &Vec<u64>) -> (r: Vec<String>)
    requires
        mtimes@.len() == paths@.len(),
    ensures
        r.deep_view() == sort_desc(
            Seq::new(paths@.len(), |k: int| (paths@[k]@, mtimes@[k] as int)),
        ).map_values(|p: (Seq<char>, int)| p.0),
{
    let ghost s = Seq::new(paths@.len(), |k: int| (paths@[k]@, mtimes@[k] as int));
    let mut sorted: Vec<String> = Vec::new();
    let mut times: Vec<u64> = Vec::new();
    let mut i: usize = 0;
    assert(Seq::new(sorted@.len(), |k: int| (sorted@[k]@, times@[k] as int)) =~= sort_desc(
        s.take(0),
    ));
    while i < paths.len()
        invariant
            i <= paths@.len(),
            mtimes@.len() == paths@.len(),
            s == Seq::new(paths@.len(), |k: int| (paths@[k]@, mtimes@[k] as int)),
            sorted@.len() == times@.len(),
            Seq::new(sorted@.len(), |k: int| (sorted@[k]@, times@[k] as int)) == sort_desc(
                s.take(i as int),
            ),
        decreases paths@.len() - i,
    {
        let ghost cur = Seq::new(sorted@.len(), |k: int| (sorted@[k]@, times@[k] as int));
        let t = mtimes[i];
        let mut p: usize = 0;
        while p < sorted.len() && times[p] >= t
            invariant
                p <= sorted@.len(),
                sorted@.len() == times@.len(),
                cur == Seq::new(sorted@.len(), |k: int| (sorted@[k]@, times@[k] as int)),
                insert_pos_desc(cur, t as int, 0) == insert_pos_desc(cur, t as int, p as int),
            decreases sorted@.len() - p,
        {
            p = p + 1;
        }
        assert(s.take(i + 1 as int).drop_last() =~= s.take(i as int));
        sorted.insert(p, paths[i].clone());
        times.insert(p, t);
        assert(Seq::new(sorted@.len(), |k: int| (sorted@[k]@, times@[k] as int)) =~= cur.insert(
            p as int,
            (paths@[i as int]@, t as int),
        ));
        i = i + 1;
    }
    assert(s.take(paths@.len() as int) =~= s);
    assert(sorted.deep_view() =~= sort_desc(s).map_values(|p: (Seq<char>, int)| p.0));
    sorted
}

proof fn lemma_insert_pos_desc<A>(t: Seq<(A, int)>, r: int, i: int)
    requires
        0 <= i <= t.len(),
    ensures
        i <= insert_pos_desc(t, r, i) <= t.len(),
        forall|k: int| i <= k < insert_pos_desc(t, r, i) ==> (#[trigger] t[k]).1 >= r,
        insert_pos_desc(t, r, i) < t.len() ==> t[insert_pos_desc(t, r, i)].1 < r,
    decreases t.len() - i,
{
    if i < t.len() && t[i].1 >= r {
        lemma_insert_pos_desc(t, r, i + 1);
    }
}

/// The stable sort keeps the length and orders ranks from highest down.
pub proof fn lemma_sort_desc_sorted<A>(s: Seq<(A, int)>)
    ensures
        sort_desc(s).len() == s.len(),
        forall|i: int, j: int|
            0 <= i < j < s.len() ==> (#[trigger] sort_desc(s)[i]).1 >= (#[trigger] sort_desc(s)[j]).1,
    decreases s.len(),
{
    if s.len() > 0 {
        lemma_sort_desc_sorted(s.drop_last());
        let t = sort_desc(s.drop_last());
        let x = s.last();
        let p = insert_pos_desc(t, x.1, 0);
        lemma_insert_pos_desc(t, x.1, 0);
        let u = t.insert(p, x);
        assert forall|i: int, j: int| 0 <= i < j < u.len() implies (#[trigger] u[i]).1 >= (
        #[trigger] u[j]).1 by {
            if j < p {
                assert(u[i] == t[i] && u[j] == t[j]);
            } else if j == p {
                assert(u[i] == t[i]);
            } else if i < p {
                assert(u[i] == t[i] && u[j] == t[j - 1]);
                assert(t[p].1 < x.1);
                if j - 1 > p {
                    assert(t[p].1 >= t[j - 1].1);
                }
            } else if i == p {
                assert(u[j] == t[j - 1]);
                if j - 1 > p {
                    assert(t[p].1 >= t[j - 1].1);
                }
            } else {
                assert(u[i] == t[i - 1] && u[j] == t[j - 1]);
            }
        }
    }
}

/// The recent-file list never exceeds `max_files`, and runs from the newest
/// modification time down: item `i` of the list is the item of the `i`-th
/// entry of the stable sort by time rank, and those ranks descend.
pub proof fn lemma_recent_files_bounded_and_newest_first(
    items: Seq<AppInfoView>,
    mtimes: Seq<Option<u64>>,
    max_files: nat,
)
    requires
        mtimes.len() == items.len(),
    ensures
        ordered(items, mtimes, max_files).len() <= max_files,
        ({
            let sorted = sort_desc(timed(items, mtimes));
            let out = ordered(items, mtimes, max_files);
            &&& forall|i: int| 0 <= i < out.len() ==> #[trigger] out[i] == sorted[i].0
            &&& forall|i: int, j: int|
                0 <= i < j < out.len() ==> (#[trigger] sorted[i]).1 >= (#[trigger] sorted[j]).1
        }),
{
    lemma_sort_desc_sorted(timed(items, mtimes));
}

/// The number of items of `s` with the file path `p`.
pub open spec fn count_path(s: Seq<AppInfoView>, p: Seq<char>) -> nat
    decreases s.len(),
{
    if s.len() == 0 {
        0
    } else {
        count_path(s.drop_last(), p) + if s.last().file_path == Some(p) {
            1nat
        } else {
            0nat
        }
    }
}

proof fn lemma_count_concat(a: Seq<AppInfoView>, b: Seq<AppInfoView>, p: Seq<char>)
    ensures
        count_path(a + b, p) == count_path(a, p) + count_path(b, p),
    decreases b.len(),
{
    if b.len() == 0 {
        assert(a + b =~= a);
    } else {
        lemma_count_concat(a, b.drop_last(), p);
        assert((a + b).drop_last() =~= a + b.drop_last());
    }
}

proof fn lemma_count_take(s: Seq<AppInfoView>, k: int, p: Seq<char>)
    requires
        0 <= k <= s.len(),
    ensures
        count_path(s.take(k), p) <= count_path(s, p),
{
    lemma_count_concat(s.take(k), s.skip(k), p);
    assert(s.take(k) + s.skip(k) =~= s);
}

proof fn lemma_count_fresh(bm: Seq<AppInfoView>, ds: Seq<AppInfoView>, p: Seq<char>)
    requires
        path_listed(bm, Some(p)),
    ensures
        count_path(fresh_items(bm, ds), p) == 0,
    decreases ds.len(),
{
    if ds.len() > 0 {
        lemma_count_fresh(bm, ds.drop_last(), p);
        let prev = fresh_items(bm, ds.drop_last());
        if !path_listed(bm, ds.last().file_path) {
            assert(prev.push(ds.last()).drop_last() =~= prev);
        }
    }
}

proof fn lemma_count_sort_desc(s: Seq<(AppInfoView, int)>, p: Seq<char>)
    ensures
        count_path(sort_desc(s).map_values(|q: (AppInfoView, int)| q.0), p) == count_path(
            s.map_values(|q: (AppInfoView, int)| q.0),
            p,
        ),
    decreases s.len(),
{
    if s.len() > 0 {
        lemma_count_sort_desc(s.drop_last(), p);
        let t = sort_desc(s.drop_last());
        let x = s.last();
        let pos = insert_pos_desc(t, x.1, 0);
        lemma_insert_pos_desc(t, x.1, 0);
        let tm = t.map_values(|q: (AppInfoView, int)| q.0);
        let um = t.insert(pos, x).map_values(|q: (AppInfoView, int)| q.0);
        assert(um =~= tm.take(pos) + seq![x.0] + tm.skip(pos));
        assert(tm =~= tm.take(pos) + tm.skip(pos));
        lemma_count_concat(tm.take(pos) + seq![x.0], tm.skip(pos), p);
        lemma_count_concat(tm.take(pos), seq![x.0], p);
        lemma_count_concat(tm.take(pos), tm.skip(pos), p);
        assert(seq![x.0].drop_last() =~= Seq::<AppInfoView>::empty());
        assert(count_path(Seq::<AppInfoView>::empty(), p) == 0);
        assert(count_path(seq![x.0], p) == count_path(Seq::<AppInfoView>::empty(), p) + if x.0.file_path
            == Some(p) {
            1nat
        } else {
            0nat
        });
        let sm = s.map_values(|q: (AppInfoView, int)| q.0);
        assert(sm.drop_last() =~= s.drop_last().map_values(|q: (AppInfoView, int)| q.0));
        assert(sm.last() == x.0);
    } else {
        assert(sort_desc(s).map_values(|q: (AppInfoView, int)| q.0) =~= s.map_values(
            |q: (AppInfoView, int)| q.0,
        ));
    }
}

/// A file that the bookmark log lists once, and that a directory scan
/// finds too, stands exactly once in the recent-file list, where the
/// bookmarked files alone do not exceed `max_files`.
pub proof fn lemma_bookmarked_file_listed_once(
    bm: Seq<AppInfoView>,
    ds: Seq<AppInfoView>,
    mtimes: Seq<Option<u64>>,
    max_files: nat,
    p: Seq<char>,
)
    requires
        count_path(bm, p) == 1,
        path_listed(ds, Some(p)),
        bm.len() <= max_files,
        mtimes.len() == merged(bm, ds, max_files).len(),
    ensures
        count_path(merged(bm, ds, max_files), p) == 1,
        count_path(ordered(merged(bm, ds, max_files), mtimes, max_files), p) == 1,
{
    let fresh = fresh_items(bm, ds);
    let m = merged(bm, ds, max_files);
    lemma_count_positive_listed(bm, p);
    lemma_count_fresh(bm, ds, p);
    let slots: int = max_files - bm.len();
    let k: int = if fresh.len() < slots {
        fresh.len() as int
    } else {
        slots
    };
    lemma_count_take(fresh, k, p);
    lemma_count_concat(bm, fresh.take(k), p);
    let tm = timed(m, mtimes);
    lemma_sort_desc_sorted(tm);
    lemma_count_sort_desc(tm, p);
    assert(tm.map_values(|q: (AppInfoView, int)| q.0) =~= m);
    let sorted = sort_desc(tm);
    assert(m.len() <= max_files);
    assert(sorted.take(sorted.len() as int) =~= sorted);
}

proof fn lemma_count_positive_listed(s: Seq<AppInfoView>, p: Seq<char>)
    requires
        count_path(s, p) > 0,
    ensures
        path_listed(s, Some(p)),
    decreases s.len(),
{
    if s.last().file_path == Some(p) {
        assert(s[s.len() - 1].file_path == Some(p));
    } else {
        lemma_count_positive_listed(s.drop_last(), p);
        let i = choose|i: int| 0 <= i < s.drop_last().len() && s.drop_last()[i].file_path == Some(p);
        assert(s[i] == s.drop_last()[i]);
    }
}

} // verus!
