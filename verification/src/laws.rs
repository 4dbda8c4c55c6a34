//! Properties that hold across the client's operations.

use vstd::prelude::*;
use vstd::utf8::{encode_utf8, is_char_boundary};
use crate::config::{strip_slashes, trimmed, whitespace};
use crate::folders::{
    chain_end, depths_fit, find_from, group_step, grouped, is_chain, is_top, missing_parent,
    lemma_chain_prefix, lemma_child_extends_chain, message_folder, name_keys, orphan_tree,
    orphan_trees, positions, sorted_by_name, subtree_order, tree_order, FolderModel,
};
use crate::messages::{in_folder, matching, matches_search, shown, shows, sort_texts, SortKey};
use crate::order::{same_indices, stable_sorted};
use crate::state::{counted, if_connected, messages_reloaded, only, sort_after, AppState};
use crate::events::{event_applied, settled};
use crate::model::{Event, Forms, Module, Request, Screen};
use crate::text::{alphanumeric, before_dot, safe_name, short_date_bytes, truncated};
use crate::json::{lookup, Record, ValueModel};
use crate::messages::{partner_of, subject_of};
use crate::text::{lowercase_of, occurs_in};
use crate::folders::counts_sum;
use crate::maint::{cells_of, row_matches, rows_of};
use crate::forms::form_submission;
use crate::model::{NewKind, SaveOp};

verus! {

/// Clicking the same grid column twice gives back the order it started from.
pub proof fn lemma_sort_click_twice(key: SortKey, asc: bool, clicked: SortKey)
    requires
        key == clicked,
    ensures
        sort_after(sort_after(key, asc, clicked).0, sort_after(key, asc, clicked).1, clicked) == (key, asc),
{
}

/// Clicking a new grid column sorts by it, descending for the date and
/// ascending for the others; clicking it again reverses that.
pub proof fn lemma_sort_new_column(key: SortKey, asc: bool, clicked: SortKey)
    requires
        key != clicked,
    ensures
        sort_after(key, asc, clicked) == (clicked, clicked != SortKey::Date),
        sort_after(clicked, clicked != SortKey::Date, clicked) == (clicked, clicked == SortKey::Date),
{
}

proof fn lemma_matching_all(ms: Seq<Seq<(Seq<char>, ValueModel)>>, needle: Seq<char>, n: int)
    requires
        needle.len() == 0,
        0 <= n <= ms.len(),
    ensures
        matching(ms, needle, None, n) == Seq::new(n as nat, |i: int| i as usize),
    decreases n,
{
    if n > 0 {
        lemma_matching_all(ms, needle, n - 1);
        assert(shows(ms[n - 1], needle, None));
        assert(matching(ms, needle, None, n) =~= Seq::new(n as nat, |i: int| i as usize));
    }
}

/// With no folder selected and an empty lowercased search text, the grid
/// shows every message, each exactly once.
pub proof fn lemma_empty_search_shows_all(
    ms: Seq<Seq<(Seq<char>, ValueModel)>>,
    search: Seq<char>,
    key: SortKey,
    asc: bool,
    out: Seq<usize>,
)
    requires
        crate::text::lowercase_of(search).len() == 0,
        shown(ms, search, None, key, asc, out),
    ensures
        out.len() == ms.len(),
        out.no_duplicates(),
        forall|i: usize| (i as int) < ms.len() ==> out.contains(i),
{
    lemma_matching_all(ms, crate::text::lowercase_of(search), ms.len() as int);
    let all = Seq::new(ms.len() as nat, |i: int| i as usize);
    assert forall|i: usize| (i as int) < ms.len() implies out.contains(i) by {
        assert(all[i as int] == i);
        assert(all.contains(i));
    }
}

/// Every message the grid shows belongs to the selected folder and matches
/// the search, and none is shown twice.
pub proof fn lemma_shown_match(
    ms: Seq<Seq<(Seq<char>, ValueModel)>>,
    search: Seq<char>,
    folder: Option<i64>,
    key: SortKey,
    asc: bool,
    out: Seq<usize>,
)
    requires
        shown(ms, search, folder, key, asc, out),
        ms.len() <= usize::MAX,
    ensures
        out.no_duplicates(),
        forall|k: int| 0 <= k < out.len() ==> (#[trigger] out[k] as int) < ms.len()
            && in_folder(ms[out[k] as int], folder)
            && matches_search(ms[out[k] as int], crate::text::lowercase_of(search)),
{
    let needle = crate::text::lowercase_of(search);
    assert forall|k: int| 0 <= k < out.len() implies (#[trigger] out[k] as int) < ms.len()
        && in_folder(ms[out[k] as int], folder)
        && matches_search(ms[out[k] as int], needle) by {
        assert(out.contains(out[k]));
        lemma_matching_member(ms, needle, folder, ms.len() as int, out[k]);
    }
}

/// Reversing the sort direction shows the same messages: two messages
/// whose sort texts differ come in opposite orders, and messages with equal
/// sort texts keep their list order in both directions.
pub proof fn lemma_sort_mirror(
    ms: Seq<Seq<(Seq<char>, ValueModel)>>,
    search: Seq<char>,
    folder: Option<i64>,
    key: SortKey,
    up: Seq<usize>,
    down: Seq<usize>,
)
    requires
        shown(ms, search, folder, key, true, up),
        shown(ms, search, folder, key, false, down),
    ensures
        forall|x: usize| up.contains(x) <==> down.contains(x),
        forall|a: int, b: int, c: int, d: int|
            #![trigger up[a], up[b], down[c], down[d]]
            0 <= a < b < up.len() && 0 <= c < down.len() && 0 <= d < down.len()
            && up[a] == down[d] && up[b] == down[c]
            && sort_texts(ms, key)[up[a] as int] != sort_texts(ms, key)[up[b] as int]
            ==> c < d,
        forall|a: int, b: int| #![trigger up[a], up[b]]
            0 <= a < b < up.len() && sort_texts(ms, key)[up[a] as int] == sort_texts(ms, key)[up[b] as int]
            ==> up[a] < up[b],
        forall|c: int, d: int| #![trigger down[c], down[d]]
            0 <= c < d < down.len() && sort_texts(ms, key)[down[c] as int] == sort_texts(ms, key)[down[d] as int]
            ==> down[c] < down[d],
{
    let keys = sort_texts(ms, key);
    assert forall|a: int, b: int, c: int, d: int|
        #![trigger up[a], up[b], down[c], down[d]]
        0 <= a < b < up.len() && 0 <= c < down.len() && 0 <= d < down.len()
        && up[a] == down[d] && up[b] == down[c]
        && keys[up[a] as int] != keys[up[b] as int]
        implies c < d by {
        if c == d {
            assert(up[a] != up[b]);
        } else if d < c {
            assert(crate::order::key_le(keys, down[d], down[c], false));
            assert(crate::order::key_le(keys, up[a], up[b], true));
            crate::order::lemma_lex_antisym(keys[up[a] as int], keys[up[b] as int]);
        }
    }
}

proof fn lemma_matching_member(ms: Seq<Seq<(Seq<char>, ValueModel)>>, needle: Seq<char>, folder: Option<i64>, n: int, x: usize)
    requires
        0 <= n <= ms.len(),
        ms.len() <= usize::MAX,
        matching(ms, needle, folder, n).contains(x),
    ensures
        (x as int) < n,
        shows(ms[x as int], needle, folder),
    decreases n,
{
    if n > 0 {
        let prev = matching(ms, needle, folder, n - 1);
        if shows(ms[n - 1], needle, folder) {
            let k = choose|k: int| 0 <= k < matching(ms, needle, folder, n).len() && matching(ms, needle, folder, n)[k] == x;
            if k < prev.len() {
                assert(prev[k] == x);
                assert(prev.contains(x));
                lemma_matching_member(ms, needle, folder, n - 1, x);
            }
        } else {
            lemma_matching_member(ms, needle, folder, n - 1, x);
        }
    }
}

proof fn lemma_subtree_in_range(fs: Seq<FolderModel>, parent: Option<i64>, depth: int, i: int, fuel: nat)
    requires
        fs.len() <= usize::MAX,
    ensures
        forall|k: int| 0 <= k < subtree_order(fs, parent, depth, i, fuel).len() ==>
            (#[trigger] subtree_order(fs, parent, depth, i, fuel)[k].0 as int) < fs.len(),
    decreases fuel, fs.len() - i,
{
    if fuel == 0 || i < 0 || i >= fs.len() {
    } else if fs[i].parent == parent {
        lemma_subtree_in_range(fs, Some(fs[i].id), depth + 1, 0, (fuel - 1) as nat);
        lemma_subtree_in_range(fs, parent, depth, i + 1, fuel);
        let a = seq![(i as usize, depth as u8)];
        let b = subtree_order(fs, Some(fs[i].id), depth + 1, 0, (fuel - 1) as nat);
        let c = subtree_order(fs, parent, depth, i + 1, fuel);
        let all = subtree_order(fs, parent, depth, i, fuel);
        assert(all == a + b + c);
        assert forall|k: int| 0 <= k < all.len() implies (#[trigger] all[k].0 as int) < fs.len() by {
            if k < 1 {
            } else if k < 1 + b.len() {
                assert(all[k] == b[k - 1]);
            } else {
                assert(all[k] == c[k - 1 - b.len()]);
            }
        }
    } else {
        lemma_subtree_in_range(fs, parent, depth, i + 1, fuel);
    }
}

proof fn lemma_orphan_trees_in_range(fs: Seq<FolderModel>, n: int)
    requires
        0 <= n <= fs.len(),
        fs.len() <= usize::MAX,
    ensures
        forall|k: int| 0 <= k < orphan_trees(fs, n).len() ==>
            (#[trigger] orphan_trees(fs, n)[k].0 as int) < fs.len(),
        forall|i: int| 0 <= i < n && missing_parent(fs, i) ==> orphan_trees(fs, n).contains((i as usize, 0u8)),
    decreases n,
{
    if n > 0 {
        lemma_orphan_trees_in_range(fs, n - 1);
        let prev = orphan_trees(fs, n - 1);
        let cur = orphan_trees(fs, n);
        if missing_parent(fs, n - 1) {
            let seg = orphan_tree(fs, n - 1);
            let sub = subtree_order(fs, Some(fs[n - 1].id), 1, 0, 255);
            lemma_subtree_in_range(fs, Some(fs[n - 1].id), 1, 0, 255);
            assert(seg == seq![((n - 1) as usize, 0u8)] + sub);
            assert(cur == prev + seg);
            assert forall|k: int| 0 <= k < cur.len() implies (#[trigger] cur[k].0 as int) < fs.len() by {
                if k < prev.len() {
                    assert(cur[k] == prev[k]);
                } else if k > prev.len() {
                    assert(cur[k] == sub[k - prev.len() - 1]);
                } else {
                    assert(cur[k] == seg[0]);
                }
            }
            assert forall|i: int| 0 <= i < n && missing_parent(fs, i) implies cur.contains((i as usize, 0u8)) by {
                if i < n - 1 {
                    let k = choose|k: int| 0 <= k < prev.len() && prev[k] == (i as usize, 0u8);
                    assert(cur[k] == prev[k]);
                } else {
                    assert(cur[prev.len() as int] == seg[0]);
                }
            }
        } else {
            assert forall|i: int| 0 <= i < n && missing_parent(fs, i) implies cur.contains((i as usize, 0u8)) by {
                assert(i < n - 1);
            }
        }
    }
}

/// Every entry of the folder tree's display order names a listed folder,
/// and every folder whose parent is missing is shown at the root.
pub proof fn lemma_tree_order_in_range(fs: Seq<FolderModel>)
    requires
        fs.len() <= usize::MAX,
    ensures
        forall|k: int| 0 <= k < tree_order(fs).len() ==> (#[trigger] tree_order(fs)[k].0 as int) < fs.len(),
        forall|i: int| 0 <= i < fs.len() && missing_parent(fs, i) ==> tree_order(fs).contains((i as usize, 0u8)),
{
    let tree = subtree_order(fs, None, 0, 0, 256);
    let orph = orphan_trees(fs, fs.len() as int);
    lemma_subtree_in_range(fs, None, 0, 0, 256);
    lemma_orphan_trees_in_range(fs, fs.len() as int);
    assert(tree_order(fs) == tree + orph);
    assert forall|k: int| 0 <= k < tree_order(fs).len() implies (#[trigger] tree_order(fs)[k].0 as int) < fs.len() by {
        if k >= tree.len() {
            assert(tree_order(fs)[k] == orph[k - tree.len()]);
        } else {
            assert(tree_order(fs)[k] == tree[k]);
        }
    }
    assert forall|i: int| 0 <= i < fs.len() && missing_parent(fs, i) implies tree_order(fs).contains((i as usize, 0u8)) by {
        let k = choose|k: int| 0 <= k < orph.len() && orph[k] == (i as usize, 0u8);
        assert(tree_order(fs)[tree.len() + k] == orph[k]);
    }
}

/// No two folders share an id.
pub open spec fn distinct_ids(fs: Seq<FolderModel>) -> bool {
    forall|a: int, b: int|
        #![trigger fs[a], fs[b]]
        0 <= a < fs.len() && 0 <= b < fs.len() && a != b ==> fs[a].id != fs[b].id
}

/// No folder position occurs twice in a listing.
pub open spec fn no_repeats(out: Seq<(usize, u8)>) -> bool {
    forall|a: int, b: int| #![trigger out[a], out[b]] 0 <= a < b < out.len() ==> out[a].0 != out[b].0
}

/// Some chain from the root extends `path` through a child of `parent` at
/// a position from `i` on, and ends at folder `j`.
pub open spec fn reached_through(fs: Seq<FolderModel>, path: Seq<int>, parent: Option<i64>, i: int, j: int) -> bool {
    exists|c: Seq<int>|
        #[trigger] is_chain(fs, c, chain_end(fs, c))
        && c.len() > path.len()
        && c.take(path.len() as int) == path
        && c[path.len() as int] >= i
        && fs[c[path.len() as int]].parent == parent
        && c.last() == j
}

/// With distinct ids, a folder is reached from the root by one chain only.
proof fn lemma_chains_agree(fs: Seq<FolderModel>, p: Seq<int>, q: Seq<int>)
    requires
        distinct_ids(fs),
        is_chain(fs, p, chain_end(fs, p)),
        is_chain(fs, q, chain_end(fs, q)),
        p.len() > 0,
        q.len() > 0,
        p.last() == q.last(),
    ensures
        p == q,
    decreases p.len(),
{
    let n = p.len() as int;
    let m = q.len() as int;
    if n == 1 || m == 1 {
        if n > 1 {
            assert(fs[p[n - 1]].parent == Some(fs[p[n - 2]].id));
            assert(0 <= p[n - 2] < fs.len());
            assert(fs[p[n - 2]].id == fs[p[n - 2]].id);
            assert(!is_top(fs, q[0]));
        }
        if m > 1 {
            assert(fs[q[m - 1]].parent == Some(fs[q[m - 2]].id));
            assert(0 <= q[m - 2] < fs.len());
            assert(fs[q[m - 2]].id == fs[q[m - 2]].id);
            assert(!is_top(fs, p[0]));
        }
        assert(p =~= q);
    } else {
        assert(fs[p[n - 1]].parent == Some(fs[p[n - 2]].id));
        assert(fs[q[m - 1]].parent == Some(fs[q[m - 2]].id));
        assert(0 <= p[n - 2] < fs.len() && 0 <= q[m - 2] < fs.len());
        assert(p[n - 2] == q[m - 2]);
        lemma_chain_prefix(fs, p, chain_end(fs, p), n - 1);
        lemma_chain_prefix(fs, q, chain_end(fs, q), m - 1);
        let pp = p.take(n - 1);
        let qq = q.take(m - 1);
        assert(pp.last() == p[n - 2] && qq.last() == q[m - 2]);
        lemma_chains_agree(fs, pp, qq);
        assert(p =~= pp.push(p.last()));
        assert(q =~= qq.push(q.last()));
    }
}

/// Every folder listed under `parent` is reached by a chain through one of
/// its children at a position from `i` on.
proof fn lemma_listed_reached(fs: Seq<FolderModel>, path: Seq<int>, parent: Option<i64>, d: int, i: int, fuel: nat, k: int)
    requires
        fs.len() <= usize::MAX,
        is_chain(fs, path, parent),
        0 <= k < subtree_order(fs, parent, d, i, fuel).len(),
    ensures
        reached_through(fs, path, parent, i, subtree_order(fs, parent, d, i, fuel)[k].0 as int),
    decreases fuel, fs.len() - i,
{
    let all = subtree_order(fs, parent, d, i, fuel);
    if fuel == 0 || i < 0 || i >= fs.len() {
    } else if fs[i].parent == parent {
        let a = seq![(i as usize, d as u8)];
        let b = subtree_order(fs, Some(fs[i].id), d + 1, 0, (fuel - 1) as nat);
        let c = subtree_order(fs, parent, d, i + 1, fuel);
        assert(all == a + b + c);
        lemma_child_extends_chain(fs, path, parent, i);
        let pi = path.push(i);
        if k == 0 {
            assert(all[k].0 as int == i);
            assert(chain_end(fs, pi) == Some(fs[i].id));
            assert(pi.take(path.len() as int) =~= path);
            assert(is_chain(fs, pi, chain_end(fs, pi)));
        } else if k < 1 + b.len() {
            assert(all[k] == b[k - 1]);
            lemma_listed_reached(fs, pi, Some(fs[i].id), d + 1, 0, (fuel - 1) as nat, k - 1);
            let j = b[k - 1].0 as int;
            let w = lemma_reached_chain(fs, pi, Some(fs[i].id), 0, j);
            assert(w.take(path.len() as int) =~= pi.take(path.len() as int));
            assert(pi.take(path.len() as int) =~= path);
            assert(w[path.len() as int] == w.take(pi.len() as int)[path.len() as int]);
        } else {
            assert(all[k] == c[k - 1 - b.len()]);
            lemma_listed_reached(fs, path, parent, d, i + 1, fuel, k - 1 - b.len());
        }
    } else {
        lemma_listed_reached(fs, path, parent, d, i + 1, fuel, k);
    }
}

/// A chain witnessing `reached_through`.
proof fn lemma_reached_chain(fs: Seq<FolderModel>, path: Seq<int>, parent: Option<i64>, i: int, j: int) -> (c: Seq<int>)
    requires
        reached_through(fs, path, parent, i, j),
    ensures
        is_chain(fs, c, chain_end(fs, c)),
        c.len() > path.len(),
        c.take(path.len() as int) == path,
        c[path.len() as int] >= i,
        fs[c[path.len() as int]].parent == parent,
        c.last() == j,
{
    choose|c: Seq<int>|
        #[trigger] is_chain(fs, c, chain_end(fs, c))
        && c.len() > path.len()
        && c.take(path.len() as int) == path
        && c[path.len() as int] >= i
        && fs[c[path.len() as int]].parent == parent
        && c.last() == j
}

/// A chain that extends `path.push(i)` passes through `i` right after `path`.
proof fn lemma_through_child(path: Seq<int>, i: int, c: Seq<int>)
    requires
        c.len() > path.len() + 1,
        c.take(path.len() + 1int) == path.push(i),
    ensures
        c[path.len() as int] == i,
        c.take(path.len() as int) == path,
{
    assert(c[path.len() as int] == c.take(path.len() + 1int)[path.len() as int]);
    assert(c.take(path.len() as int) =~= c.take(path.len() + 1int).take(path.len() as int));
    assert(path.push(i).take(path.len() as int) =~= path);
}

/// Below a child `i` of `parent`, neither `i` itself nor any folder listed
/// under a later child occurs.
proof fn lemma_child_apart(fs: Seq<FolderModel>, path: Seq<int>, parent: Option<i64>, d: int, i: int, fuel: nat)
    requires
        fs.len() <= usize::MAX,
        distinct_ids(fs),
        is_chain(fs, path, parent),
        fuel > 0,
        0 <= i < fs.len(),
        fs[i].parent == parent,
    ensures
        ({
            let b = subtree_order(fs, Some(fs[i].id), d + 1, 0, (fuel - 1) as nat);
            let c = subtree_order(fs, parent, d, i + 1, fuel);
            &&& forall|k: int| 0 <= k < b.len() ==> (#[trigger] b[k]).0 as int != i
            &&& forall|k: int| 0 <= k < c.len() ==> (#[trigger] c[k]).0 as int != i
            &&& forall|x: int, y: int| #![trigger b[x], c[y]] 0 <= x < b.len() && 0 <= y < c.len() ==> b[x].0 != c[y].0
        }),
{
    let b = subtree_order(fs, Some(fs[i].id), d + 1, 0, (fuel - 1) as nat);
    let c = subtree_order(fs, parent, d, i + 1, fuel);
    lemma_child_extends_chain(fs, path, parent, i);
    let pi = path.push(i);
    assert(chain_end(fs, pi) == Some(fs[i].id));
    assert(pi.last() == i);
    assert forall|k: int| 0 <= k < b.len() implies (#[trigger] b[k]).0 as int != i by {
        lemma_listed_reached(fs, pi, Some(fs[i].id), d + 1, 0, (fuel - 1) as nat, k);
        let w = lemma_reached_chain(fs, pi, Some(fs[i].id), 0, b[k].0 as int);
        if b[k].0 as int == i {
            lemma_chains_agree(fs, w, pi);
        }
    }
    assert forall|k: int| 0 <= k < c.len() implies (#[trigger] c[k]).0 as int != i by {
        lemma_listed_reached(fs, path, parent, d, i + 1, fuel, k);
        let w = lemma_reached_chain(fs, path, parent, i + 1, c[k].0 as int);
        if c[k].0 as int == i {
            lemma_chains_agree(fs, w, pi);
            assert(pi[path.len() as int] == i);
        }
    }
    assert forall|x: int, y: int| #![trigger b[x], c[y]] 0 <= x < b.len() && 0 <= y < c.len() implies b[x].0 != c[y].0 by {
        lemma_listed_reached(fs, pi, Some(fs[i].id), d + 1, 0, (fuel - 1) as nat, x);
        let wx = lemma_reached_chain(fs, pi, Some(fs[i].id), 0, b[x].0 as int);
        lemma_through_child(path, i, wx);
        lemma_listed_reached(fs, path, parent, d, i + 1, fuel, y);
        let wy = lemma_reached_chain(fs, path, parent, i + 1, c[y].0 as int);
        if b[x].0 == c[y].0 {
            lemma_chains_agree(fs, wx, wy);
        }
    }
}

/// With distinct ids, the listing under `parent` names no folder twice.
proof fn lemma_subtree_no_repeats(fs: Seq<FolderModel>, path: Seq<int>, parent: Option<i64>, d: int, i: int, fuel: nat)
    requires
        fs.len() <= usize::MAX,
        distinct_ids(fs),
        is_chain(fs, path, parent),
    ensures
        no_repeats(subtree_order(fs, parent, d, i, fuel)),
    decreases fuel, fs.len() - i,
{
    let all = subtree_order(fs, parent, d, i, fuel);
    if fuel == 0 || i < 0 || i >= fs.len() {
    } else if fs[i].parent == parent {
        let a = seq![(i as usize, d as u8)];
        let b = subtree_order(fs, Some(fs[i].id), d + 1, 0, (fuel - 1) as nat);
        let c = subtree_order(fs, parent, d, i + 1, fuel);
        assert(all == a + b + c);
        lemma_child_extends_chain(fs, path, parent, i);
        lemma_subtree_no_repeats(fs, path.push(i), Some(fs[i].id), d + 1, 0, (fuel - 1) as nat);
        lemma_subtree_no_repeats(fs, path, parent, d, i + 1, fuel);
        lemma_child_apart(fs, path, parent, d, i, fuel);
        assert forall|x: int, y: int| #![trigger all[x], all[y]] 0 <= x < y < all.len() implies all[x].0 != all[y].0 by {
            let nb = b.len() as int;
            if x == 0 {
                if y < 1 + nb {
                    assert(all[y] == b[y - 1]);
                } else {
                    assert(all[y] == c[y - 1 - nb]);
                }
            } else if y < 1 + nb {
                assert(all[x] == b[x - 1] && all[y] == b[y - 1]);
            } else if x < 1 + nb {
                assert(all[x] == b[x - 1] && all[y] == c[y - 1 - nb]);
            } else {
                assert(all[x] == c[x - 1 - nb] && all[y] == c[y - 1 - nb]);
            }
        }
    } else {
        lemma_subtree_no_repeats(fs, path, parent, d, i + 1, fuel);
    }
}

/// Every entry of an orphan's listing is reached by a chain that starts at
/// the orphan; only the orphan itself by the chain of length one.
proof fn lemma_orphan_entry(fs: Seq<FolderModel>, i: int, k: int) -> (c: Seq<int>)
    requires
        fs.len() <= usize::MAX,
        0 <= i < fs.len(),
        missing_parent(fs, i),
        0 <= k < orphan_tree(fs, i).len(),
    ensures
        is_chain(fs, c, chain_end(fs, c)),
        c.len() > 0,
        c[0] == i,
        c.last() == orphan_tree(fs, i)[k].0 as int,
        (k == 0) == (c.len() == 1),
{
    let pi = seq![i];
    assert(pi[0] == i && pi.last() == i);
    assert(is_chain(fs, pi, Some(fs[i].id)));
    assert(chain_end(fs, pi) == Some(fs[i].id));
    let sub = subtree_order(fs, Some(fs[i].id), 1, 0, 255);
    assert(orphan_tree(fs, i) == seq![(i as usize, 0u8)] + sub);
    if k == 0 {
        pi
    } else {
        assert(orphan_tree(fs, i)[k] == sub[k - 1]);
        lemma_listed_reached(fs, pi, Some(fs[i].id), 1, 0, 255, k - 1);
        let w = lemma_reached_chain(fs, pi, Some(fs[i].id), 0, sub[k - 1].0 as int);
        assert(w[0] == w.take(1)[0]);
        w
    }
}

/// With distinct ids, an orphan's listing names no folder twice.
proof fn lemma_orphan_tree_no_repeats(fs: Seq<FolderModel>, i: int)
    requires
        fs.len() <= usize::MAX,
        distinct_ids(fs),
        0 <= i < fs.len(),
        missing_parent(fs, i),
    ensures
        no_repeats(orphan_tree(fs, i)),
{
    let seg = orphan_tree(fs, i);
    let pi = seq![i];
    assert(pi[0] == i);
    assert(is_chain(fs, pi, Some(fs[i].id)));
    let sub = subtree_order(fs, Some(fs[i].id), 1, 0, 255);
    assert(seg == seq![(i as usize, 0u8)] + sub);
    lemma_subtree_no_repeats(fs, pi, Some(fs[i].id), 1, 0, 255);
    assert forall|x: int, y: int| #![trigger seg[x], seg[y]] 0 <= x < y < seg.len() implies seg[x].0 != seg[y].0 by {
        if x == 0 {
            let cx = lemma_orphan_entry(fs, i, x);
            let cy = lemma_orphan_entry(fs, i, y);
            if seg[x].0 == seg[y].0 {
                lemma_chains_agree(fs, cx, cy);
            }
        } else {
            assert(seg[x] == sub[x - 1] && seg[y] == sub[y - 1]);
        }
    }
}

/// Every entry of the orphans' listings is reached by a chain that starts
/// at one of the first `n` folders, an orphan.
proof fn lemma_orphan_trees_entry(fs: Seq<FolderModel>, n: int, k: int) -> (c: Seq<int>)
    requires
        fs.len() <= usize::MAX,
        0 <= n <= fs.len(),
        0 <= k < orphan_trees(fs, n).len(),
    ensures
        is_chain(fs, c, chain_end(fs, c)),
        c.len() > 0,
        0 <= c[0] < n,
        missing_parent(fs, c[0]),
        c.last() == orphan_trees(fs, n)[k].0 as int,
    decreases n,
{
    let prev = orphan_trees(fs, n - 1);
    if missing_parent(fs, n - 1) {
        let seg = orphan_tree(fs, n - 1);
        assert(orphan_trees(fs, n) == prev + seg);
        if k < prev.len() {
            assert(orphan_trees(fs, n)[k] == prev[k]);
            lemma_orphan_trees_entry(fs, n - 1, k)
        } else {
            assert(orphan_trees(fs, n)[k] == seg[k - prev.len()]);
            lemma_orphan_entry(fs, n - 1, k - prev.len())
        }
    } else {
        lemma_orphan_trees_entry(fs, n - 1, k)
    }
}

/// With distinct ids, the orphans' listings name no folder twice.
proof fn lemma_orphan_trees_no_repeats(fs: Seq<FolderModel>, n: int)
    requires
        fs.len() <= usize::MAX,
        distinct_ids(fs),
        0 <= n <= fs.len(),
    ensures
        no_repeats(orphan_trees(fs, n)),
    decreases n,
{
    if n > 0 {
        lemma_orphan_trees_no_repeats(fs, n - 1);
        let prev = orphan_trees(fs, n - 1);
        if missing_parent(fs, n - 1) {
            let seg = orphan_tree(fs, n - 1);
            let all = orphan_trees(fs, n);
            assert(all == prev + seg);
            lemma_orphan_tree_no_repeats(fs, n - 1);
            assert forall|x: int, y: int| #![trigger all[x], all[y]] 0 <= x < y < all.len() implies all[x].0 != all[y].0 by {
                if y < prev.len() {
                    assert(all[x] == prev[x] && all[y] == prev[y]);
                } else if x >= prev.len() {
                    assert(all[x] == seg[x - prev.len()] && all[y] == seg[y - prev.len()]);
                } else {
                    assert(all[x] == prev[x] && all[y] == seg[y - prev.len()]);
                    let cx = lemma_orphan_trees_entry(fs, n - 1, x);
                    let cy = lemma_orphan_entry(fs, n - 1, y - prev.len());
                    if all[x].0 == all[y].0 {
                        lemma_chains_agree(fs, cx, cy);
                    }
                }
            }
        }
    }
}

/// When no two folders share an id, the folder tree's display order shows
/// each folder at most once.
pub proof fn lemma_tree_order_no_repeats(fs: Seq<FolderModel>)
    requires
        fs.len() <= usize::MAX,
        distinct_ids(fs),
    ensures
        no_repeats(tree_order(fs)),
{
    let tree = subtree_order(fs, None, 0, 0, 256);
    let orph = orphan_trees(fs, fs.len() as int);
    let root = Seq::<int>::empty();
    assert(is_chain(fs, root, None));
    lemma_subtree_no_repeats(fs, root, None, 0, 0, 256);
    lemma_orphan_trees_no_repeats(fs, fs.len() as int);
    let all = tree_order(fs);
    assert(all == tree + orph);
    assert forall|x: int, y: int| #![trigger all[x], all[y]] 0 <= x < y < all.len() implies all[x].0 != all[y].0 by {
        if y < tree.len() {
            assert(all[x] == tree[x] && all[y] == tree[y]);
        } else if x >= tree.len() {
            assert(all[x] == orph[x - tree.len()] && all[y] == orph[y - tree.len()]);
        } else {
            assert(all[x] == tree[x] && all[y] == orph[y - tree.len()]);
            lemma_listed_reached(fs, root, None, 0, 0, 256, x);
            let cx = lemma_reached_chain(fs, root, None, 0, tree[x].0 as int);
            let cy = lemma_orphan_trees_entry(fs, fs.len() as int, y - tree.len());
            if all[x].0 == all[y].0 {
                lemma_chains_agree(fs, cx, cy);
            }
        }
    }
}

/// Folder `j` is reached from the root by some chain.
pub open spec fn reachable(fs: Seq<FolderModel>, j: int) -> bool {
    exists|c: Seq<int>| #[trigger] is_chain(fs, c, chain_end(fs, c)) && c.len() > 0 && c.last() == j
}

/// Whether folder position `j` occurs in a listing.
pub open spec fn shows_folder(out: Seq<(usize, u8)>, j: int) -> bool {
    exists|k: int| 0 <= k < out.len() && (#[trigger] out[k]).0 as int == j
}

/// A folder reached by a chain through a child of `parent` at a position
/// from `i` on, no deeper than `fuel`, is listed under `parent`.
proof fn lemma_chain_listed(fs: Seq<FolderModel>, path: Seq<int>, parent: Option<i64>, d: int, i: int, fuel: nat, c: Seq<int>)
    requires
        fs.len() <= usize::MAX,
        is_chain(fs, path, parent),
        is_chain(fs, c, chain_end(fs, c)),
        c.len() > path.len(),
        c.take(path.len() as int) == path,
        i >= 0,
        c[path.len() as int] >= i,
        fs[c[path.len() as int]].parent == parent,
        c.len() - path.len() <= fuel,
    ensures
        shows_folder(subtree_order(fs, parent, d, i, fuel), c.last()),
    decreases fuel, fs.len() - i,
{
    let all = subtree_order(fs, parent, d, i, fuel);
    let h = c[path.len() as int];
    assert(0 <= h < fs.len());
    if fs[i].parent == parent {
        let a = seq![(i as usize, d as u8)];
        let b = subtree_order(fs, Some(fs[i].id), d + 1, 0, (fuel - 1) as nat);
        let r = subtree_order(fs, parent, d, i + 1, fuel);
        assert(all == a + b + r);
        if h == i {
            if c.len() == path.len() + 1 {
                assert(all[0].0 as int == c.last());
            } else {
                lemma_child_extends_chain(fs, path, parent, i);
                let pi = path.push(i);
                assert(c.take(pi.len() as int) =~= pi) by {
                    assert forall|q: int| 0 <= q < pi.len() implies c.take(pi.len() as int)[q] == pi[q] by {
                        if q < path.len() {
                            assert(c.take(path.len() as int)[q] == path[q]);
                        }
                    }
                }
                assert(fs[c[pi.len() as int]].parent == Some(fs[c[pi.len() - 1]].id));
                lemma_chain_listed(fs, pi, Some(fs[i].id), d + 1, 0, (fuel - 1) as nat, c);
                let k = choose|k: int| 0 <= k < b.len() && (#[trigger] b[k]).0 as int == c.last();
                assert(all[1 + k] == b[k]);
            }
        } else {
            lemma_chain_listed(fs, path, parent, d, i + 1, fuel, c);
            let k = choose|k: int| 0 <= k < r.len() && (#[trigger] r[k]).0 as int == c.last();
            assert(all[1 + b.len() + k] == r[k]);
        }
    } else {
        assert(h != i);
        lemma_chain_listed(fs, path, parent, d, i + 1, fuel, c);
    }
}

/// An orphan's listing is part of the orphans' listings.
proof fn lemma_orphan_tree_within(fs: Seq<FolderModel>, n: int, o: int, k: int)
    requires
        0 <= o < n <= fs.len(),
        missing_parent(fs, o),
        0 <= k < orphan_tree(fs, o).len(),
    ensures
        shows_folder(orphan_trees(fs, n), orphan_tree(fs, o)[k].0 as int),
    decreases n,
{
    let prev = orphan_trees(fs, n - 1);
    if missing_parent(fs, n - 1) {
        let seg = orphan_tree(fs, n - 1);
        assert(orphan_trees(fs, n) == prev + seg);
        if o == n - 1 {
            assert(orphan_trees(fs, n)[prev.len() + k] == seg[k]);
        } else {
            lemma_orphan_tree_within(fs, n - 1, o, k);
            let q = choose|q: int| 0 <= q < prev.len() && (#[trigger] prev[q]).0 as int == orphan_tree(fs, o)[k].0 as int;
            assert(orphan_trees(fs, n)[q] == prev[q]);
        }
    } else {
        lemma_orphan_tree_within(fs, n - 1, o, k);
    }
}

/// A folder reached through a chain from a root folder without a parent is
/// listed in the tree from the root.
proof fn lemma_root_chain_shown(fs: Seq<FolderModel>, c: Seq<int>)
    requires
        fs.len() <= usize::MAX,
        depths_fit(fs),
        is_chain(fs, c, chain_end(fs, c)),
        c.len() > 0,
        fs[c[0]].parent is None,
    ensures
        shows_folder(tree_order(fs), c.last()),
{
    let tree = subtree_order(fs, None, 0, 0, 256);
    let all = tree_order(fs);
    assert(all == tree + orphan_trees(fs, fs.len() as int));
    assert(c.len() <= 255);
    let root = Seq::<int>::empty();
    assert(is_chain(fs, root, None));
    assert(c.take(0) =~= root);
    lemma_chain_listed(fs, root, None, 0, 0, 256, c);
    let k = choose|k: int| 0 <= k < tree.len() && (#[trigger] tree[k]).0 as int == c.last();
    assert(all[k] == tree[k]);
}

/// A folder reached through a chain from an orphan is listed in that
/// orphan's listing.
proof fn lemma_orphan_chain_shown(fs: Seq<FolderModel>, c: Seq<int>)
    requires
        fs.len() <= usize::MAX,
        depths_fit(fs),
        is_chain(fs, c, chain_end(fs, c)),
        c.len() > 0,
        missing_parent(fs, c[0]),
    ensures
        shows_folder(tree_order(fs), c.last()),
{
    let tree = subtree_order(fs, None, 0, 0, 256);
    let orph = orphan_trees(fs, fs.len() as int);
    let all = tree_order(fs);
    assert(all == tree + orph);
    assert(c.len() <= 255);
    let o = c[0];
    assert(0 <= o < fs.len());
    let seg = orphan_tree(fs, o);
    let sub = subtree_order(fs, Some(fs[o].id), 1, 0, 255);
    assert(seg == seq![(o as usize, 0u8)] + sub);
    let kk: int = if c.len() == 1 {
        assert(seg[0].0 as int == c.last());
        0
    } else {
        let po = seq![o];
        assert(po[0] == o);
        assert(is_chain(fs, po, Some(fs[o].id)));
        assert(c.take(1) =~= po);
        assert(fs[c[1]].parent == Some(fs[c[0]].id));
        lemma_chain_listed(fs, po, Some(fs[o].id), 1, 0, 255, c);
        let k = choose|k: int| 0 <= k < sub.len() && (#[trigger] sub[k]).0 as int == c.last();
        assert(seg[1 + k] == sub[k]);
        1 + k
    };
    lemma_orphan_tree_within(fs, fs.len() as int, o, kk);
    let q = choose|q: int| 0 <= q < orph.len() && (#[trigger] orph[q]).0 as int == seg[kk].0 as int;
    assert(all[tree.len() + q] == orph[q]);
}

/// For a proper tree (distinct ids, depths that fit, every folder reached
/// from the root), the display order shows every folder exactly once.
pub proof fn lemma_tree_order_complete(fs: Seq<FolderModel>)
    requires
        fs.len() <= usize::MAX,
        distinct_ids(fs),
        depths_fit(fs),
        forall|j: int| 0 <= j < fs.len() ==> #[trigger] reachable(fs, j),
    ensures
        no_repeats(tree_order(fs)),
        forall|k: int| 0 <= k < tree_order(fs).len() ==> (#[trigger] tree_order(fs)[k].0 as int) < fs.len(),
        forall|j: int| 0 <= j < fs.len() ==> #[trigger] shows_folder(tree_order(fs), j),
{
    lemma_tree_order_no_repeats(fs);
    lemma_tree_order_in_range(fs);
    assert forall|j: int| 0 <= j < fs.len() implies #[trigger] shows_folder(tree_order(fs), j) by {
        assert(reachable(fs, j));
        let c = choose|c: Seq<int>| #[trigger] is_chain(fs, c, chain_end(fs, c)) && c.len() > 0 && c.last() == j;
        if fs[c[0]].parent is None {
            lemma_root_chain_shown(fs, c);
        } else {
            lemma_orphan_chain_shown(fs, c);
        }
    }
}

/// The number of messages that name a folder.
pub open spec fn foldered(ms: Seq<Seq<(Seq<char>, ValueModel)>>) -> nat
    decreases ms.len(),
{
    if ms.len() == 0 {
        0
    } else {
        foldered(ms.drop_last()) + if message_folder(ms.last()) is Some { 1nat } else { 0nat }
    }
}

/// The messages counted in the derived folders.
pub open spec fn total_count(fs: Seq<FolderModel>) -> nat
    decreases fs.len(),
{
    if fs.len() == 0 { 0 } else { total_count(fs.drop_last()) + fs.last().count }
}

proof fn lemma_total_update(fs: Seq<FolderModel>, i: int)
    requires
        0 <= i < fs.len(),
    ensures
        total_count(fs.update(i, FolderModel { count: fs[i].count + 1, ..fs[i] })) == total_count(fs) + 1,
    decreases fs.len(),
{
    let g = fs.update(i, FolderModel { count: fs[i].count + 1, ..fs[i] });
    if i == fs.len() - 1 {
        assert(g.drop_last() =~= fs.drop_last());
    } else {
        lemma_total_update(fs.drop_last(), i);
        assert(g.drop_last() =~= fs.drop_last().update(i, FolderModel { count: fs[i].count + 1, ..fs[i] }));
    }
}

proof fn lemma_find_none(fs: Seq<FolderModel>, id: i64, i: int)
    requires
        0 <= i,
        find_from(fs, id, i) is None,
    ensures
        forall|j: int| i <= j < fs.len() ==> #[trigger] fs[j].id != id,
    decreases fs.len() - i,
{
    if i < fs.len() {
        lemma_find_none(fs, id, i + 1);
    }
}

proof fn lemma_find_some(fs: Seq<FolderModel>, id: i64, i: int)
    requires
        0 <= i,
    ensures
        find_from(fs, id, i) matches Some(k) ==> i <= k < fs.len() && fs[k].id == id,
    decreases fs.len() - i,
{
    if i < fs.len() && fs[i].id != id {
        lemma_find_some(fs, id, i + 1);
    }
}

/// The folders derived from the messages have distinct ids, and their
/// counts add up to the number of messages that name a folder.
pub proof fn lemma_grouped_counts(ms: Seq<Seq<(Seq<char>, ValueModel)>>)
    ensures
        total_count(grouped(ms)) == foldered(ms),
        forall|i: int, j: int| 0 <= i < j < grouped(ms).len() ==> #[trigger] grouped(ms)[i].id != #[trigger] grouped(ms)[j].id,
    decreases ms.len(),
{
    if ms.len() > 0 {
        lemma_grouped_counts(ms.drop_last());
        let prev = grouped(ms.drop_last());
        let m = ms.last();
        match message_folder(m) {
            Some(id) => {
                lemma_find_some(prev, id, 0);
                match find_from(prev, id, 0) {
                    Some(k) => {
                        lemma_total_update(prev, k);
                        let g = grouped(ms);
                        assert forall|i: int, j: int| 0 <= i < j < g.len() implies #[trigger] g[i].id != #[trigger] g[j].id by {
                            assert(g[i].id == prev[i].id && g[j].id == prev[j].id);
                        }
                    },
                    None => {
                        lemma_find_none(prev, id, 0);
                        let nf = FolderModel { id, name: crate::folders::derived_name(m, id), parent: None, count: 1 };
                        let g = prev.push(nf);
                        assert(g.drop_last() =~= prev);
                        assert forall|i: int, j: int| 0 <= i < j < g.len() implies #[trigger] g[i].id != #[trigger] g[j].id by {
                            if j == prev.len() {
                                assert(g[i] == prev[i]);
                            } else {
                                assert(g[i] == prev[i] && g[j] == prev[j]);
                            }
                        }
                    },
                }
            },
            None => {},
        }
    }
}

/// The number of messages that name folder `f`.
pub open spec fn messages_in(ms: Seq<Seq<(Seq<char>, ValueModel)>>, f: i64) -> nat
    decreases ms.len(),
{
    if ms.len() == 0 {
        0
    } else {
        messages_in(ms.drop_last(), f) + if message_folder(ms.last()) == Some(f) { 1nat } else { 0nat }
    }
}

/// Each folder derived from the messages counts exactly the messages that
/// name it, and every folder that some message names is derived.
pub proof fn lemma_grouped_per_folder(ms: Seq<Seq<(Seq<char>, ValueModel)>>)
    ensures
        forall|k: int| 0 <= k < grouped(ms).len() ==>
            (#[trigger] grouped(ms)[k]).count == messages_in(ms, grouped(ms)[k].id),
        forall|f: i64| messages_in(ms, f) > 0 ==>
            exists|k: int| 0 <= k < grouped(ms).len() && (#[trigger] grouped(ms)[k]).id == f,
    decreases ms.len(),
{
    if ms.len() > 0 {
        let pm = ms.drop_last();
        lemma_grouped_per_folder(pm);
        lemma_grouped_counts(pm);
        let prev = grouped(pm);
        let m = ms.last();
        let g = grouped(ms);
        match message_folder(m) {
            Some(id) => {
                lemma_find_some(prev, id, 0);
                match find_from(prev, id, 0) {
                    Some(i) => {
                        assert forall|k: int| 0 <= k < g.len() implies
                            (#[trigger] g[k]).count == messages_in(ms, g[k].id) by {
                            if k != i {
                                assert(g[k] == prev[k]);
                                if k < i {
                                    assert(prev[k].id != prev[i].id);
                                } else {
                                    assert(prev[i].id != prev[k].id);
                                }
                            }
                        }
                        assert forall|f: i64| messages_in(ms, f) > 0 implies
                            exists|k: int| 0 <= k < g.len() && (#[trigger] g[k]).id == f by {
                            if f == id {
                                assert(g[i].id == f);
                            } else {
                                assert(messages_in(ms, f) == messages_in(pm, f));
                                let k = choose|k: int| 0 <= k < prev.len() && (#[trigger] prev[k]).id == f;
                                assert(g[k].id == prev[k].id);
                            }
                        }
                    },
                    None => {
                        lemma_find_none(prev, id, 0);
                        if messages_in(pm, id) > 0 {
                            let k = choose|k: int| 0 <= k < prev.len() && (#[trigger] prev[k]).id == id;
                            assert(prev[k].id != id);
                        }
                        assert forall|k: int| 0 <= k < g.len() implies
                            (#[trigger] g[k]).count == messages_in(ms, g[k].id) by {
                            if k < prev.len() {
                                assert(g[k] == prev[k]);
                                assert(prev[k].id != id);
                            }
                        }
                        assert forall|f: i64| messages_in(ms, f) > 0 implies
                            exists|k: int| 0 <= k < g.len() && (#[trigger] g[k]).id == f by {
                            if f == id {
                                assert(g[prev.len() as int].id == f);
                            } else {
                                assert(messages_in(ms, f) == messages_in(pm, f));
                                let k = choose|k: int| 0 <= k < prev.len() && (#[trigger] prev[k]).id == f;
                                assert(g[k] == prev[k]);
                            }
                        }
                    },
                }
            },
            None => {
                assert(g == prev);
                assert forall|f: i64| messages_in(ms, f) > 0 implies
                    exists|k: int| 0 <= k < g.len() && (#[trigger] g[k]).id == f by {
                    assert(messages_in(ms, f) == messages_in(pm, f));
                    let k = choose|k: int| 0 <= k < prev.len() && (#[trigger] prev[k]).id == f;
                }
            },
        }
    }
}

/// The folders derived from the loaded messages are each shown at most once
/// in the folder tree.
pub proof fn lemma_derived_tree_no_repeats(out: Seq<FolderModel>, ms: Seq<Seq<(Seq<char>, ValueModel)>>)
    requires
        out.len() <= usize::MAX,
        sorted_by_name(out, grouped(ms)),
    ensures
        no_repeats(tree_order(out)),
{
    let g = grouped(ms);
    lemma_grouped_counts(ms);
    let p = choose|p: Seq<usize>|
        #[trigger] stable_sorted(p, positions(g.len()), name_keys(g), true)
        && out == p.map_values(|i: usize| g[i as int]);
    assert forall|a: int, b: int|
        #![trigger out[a], out[b]]
        0 <= a < out.len() && 0 <= b < out.len() && a != b implies out[a].id != out[b].id by {
        assert(p.contains(p[a]) && p.contains(p[b]));
        assert(positions(g.len()).contains(p[a]));
        assert(positions(g.len()).contains(p[b]));
        assert(p[a] != p[b]);
        assert(out[a] == g[p[a] as int] && out[b] == g[p[b] as int]);
        if (p[a] as int) < (p[b] as int) {
            assert(g[p[a] as int].id != g[p[b] as int].id);
        } else {
            assert(g[p[b] as int].id != g[p[a] as int].id);
        }
    }
    lemma_tree_order_no_repeats(out);
}

/// Applying one event never leaves the main window, and it opens the main
/// window only when it is a station listing that succeeded.
pub proof fn lemma_event_screen(o: AppState, n: AppState, ev: Event, reqs: Seq<Request>)
    requires
        event_applied(o, n, ev, reqs),
    ensures
        o.screen == Screen::Main ==> n.screen == Screen::Main,
        o.screen == Screen::Login && n.screen == Screen::Main ==> ev matches Event::Stations(Ok(_)),
{
    match ev {
        Event::Created { label, res } => {
            if res is Ok {
                let s1 = AppState { inflight: settled(o.inflight), forms: Forms { busy: false, ..o.forms }, ..o };
                let s2 = AppState { forms: n.forms, maint_sel: None, maint_detail: None, status: n.status, ..s1 };
                let mid = choose|mid: AppState| {
                    &&& #[trigger] mid.status@ == label@ + " ✓"@
                    &&& mid == (AppState { status: mid.status, ..s2 })
                    &&& match s2.module {
                        Module::Mail => messages_reloaded(mid, n, only(reqs)),
                        Module::Stations => n == counted(mid) && only(reqs) == if_connected(mid, Request::ListStations),
                        Module::Partners => n == mid && only(reqs) == if_connected(mid, Request::ListPartners),
                        Module::Certificates => n == counted(mid) && only(reqs) == if_connected(mid, Request::ListCertificates),
                    }
                };
                assert(n.screen == mid.screen);
            }
        },
        Event::Sent(r) => {
            if r is Ok {
                let s1 = AppState { inflight: settled(o.inflight), compose_sending: false, ..o };
                let s2 = AppState { compose_open: false, compose_subject: n.compose_subject, compose_file: n.compose_file, ..s1 };
                let mid = choose|mid: AppState| {
                    &&& #[trigger] mid.status@ == "Message sent."@
                    &&& mid == (AppState { status: mid.status, ..s2 })
                    &&& messages_reloaded(mid, n, only(reqs))
                };
                assert(n.screen == mid.screen);
            }
        },
        Event::Acted { label, res } => {
            if res is Ok {
                let s1 = AppState { inflight: settled(o.inflight), ..o };
                let mid = choose|mid: AppState| {
                    &&& #[trigger] mid.status@ == label@ + " ✓"@
                    &&& mid == (AppState { status: mid.status, ..s1 })
                    &&& messages_reloaded(mid, n, only(reqs))
                };
                assert(n.screen == mid.screen);
            }
        },
        _ => {},
    }
}

/// Draining a queue of events, applied one after another, never leaves the
/// main window, and the main window opens only if one of them was a station
/// listing that succeeded.
pub proof fn lemma_drained_screen(states: Seq<AppState>, events: Seq<Event>, reqs: Seq<Seq<Request>>)
    requires
        states.len() == events.len() + 1,
        reqs.len() == events.len(),
        forall|k: int| 0 <= k < events.len() ==> event_applied(states[k], states[k + 1], #[trigger] events[k], reqs[k]),
    ensures
        states[0].screen == Screen::Main ==> states.last().screen == Screen::Main,
        states[0].screen == Screen::Login && states.last().screen == Screen::Main ==>
            exists|k: int| 0 <= k < events.len() && #[trigger] events[k] matches Event::Stations(Ok(_)),
    decreases events.len(),
{
    let n = events.len() as int;
    if n > 0 {
        let ps = states.drop_last();
        let pe = events.drop_last();
        let pr = reqs.drop_last();
        assert forall|k: int| 0 <= k < pe.len() implies event_applied(ps[k], ps[k + 1], #[trigger] pe[k], pr[k]) by {
            assert(events[k] == pe[k]);
        }
        lemma_drained_screen(ps, pe, pr);
        assert(events[n - 1] == events[n - 1]);
        lemma_event_screen(states[n - 1], states[n], events[n - 1], reqs[n - 1]);
        assert(ps.last() == states[n - 1]);
        if states[0].screen == Screen::Login && states.last().screen == Screen::Main {
            if ps.last().screen == Screen::Main {
                let k = choose|k: int| 0 <= k < pe.len() && #[trigger] pe[k] matches Event::Stations(Ok(_));
                assert(events[k] == pe[k]);
            } else {
                assert(states[n - 1].screen == Screen::Login);
            }
        }
    }
}

/// A truncated name never has more characters than the limit (for a limit
/// of at least one), and a name that fits is left as it is.
pub proof fn lemma_trunc_fits(s: Seq<char>, n: nat)
    ensures
        n >= 1 ==> truncated(s, n).len() <= n,
        s.len() <= n ==> truncated(s, n) == s,
{
}

/// A saved payload's file-name stem holds only letters, digits, `-` and
/// `_`, and has as many characters as the name it came from.
pub proof fn lemma_safe_name_chars(name: Seq<char>)
    ensures
        safe_name(name).len() == name.len(),
        forall|i: int| 0 <= i < name.len() ==> {
            let c = #[trigger] safe_name(name)[i];
            alphanumeric(c) || c == '-' || c == '_'
        },
{
}

/// The short date is at most 16 bytes and a prefix of the date's part
/// before its first `.`.
pub proof fn lemma_short_date_prefix(d: Seq<char>)
    ensures
        short_date_bytes(d).len() <= 16,
        short_date_bytes(d).len() <= encode_utf8(before_dot(d)).len(),
        short_date_bytes(d) == encode_utf8(before_dot(d)).subrange(0, short_date_bytes(d).len() as int),
{
    let cut = encode_utf8(before_dot(d));
    if cut.len() < 16 {
        assert(cut.subrange(0, cut.len() as int) =~= cut);
    }
}

proof fn lemma_strip_slashes_end(s: Seq<char>)
    ensures
        strip_slashes(s).len() > 0 ==> strip_slashes(s).last() != '/',
        strip_slashes(s).len() <= s.len(),
        strip_slashes(s) == s.subrange(0, strip_slashes(s).len() as int),
    decreases s.len(),
{
    if s.len() > 0 && s.last() == '/' {
        lemma_strip_slashes_end(s.drop_last());
        assert(s.drop_last().subrange(0, strip_slashes(s).len() as int) =~= s.subrange(0, strip_slashes(s).len() as int));
    } else {
        assert(s.subrange(0, s.len() as int) =~= s);
    }
}

proof fn lemma_trim_start_shape(s: Seq<char>)
    ensures
        trim_start_shape(s),
    decreases s.len(),
{
    if s.len() > 0 && whitespace(s[0]) {
        lemma_trim_start_shape(s.drop_first());
    }
}

/// `trim_start(s)` does not start with white space.
pub open spec fn trim_start_shape(s: Seq<char>) -> bool {
    crate::config::trim_start(s).len() > 0 ==> !whitespace(crate::config::trim_start(s)[0])
}

proof fn lemma_trim_end_shape(s: Seq<char>)
    ensures
        crate::config::trim_end(s).len() > 0 ==> !whitespace(crate::config::trim_end(s).last()),
        crate::config::trim_end(s).len() <= s.len(),
        crate::config::trim_end(s) == s.subrange(0, crate::config::trim_end(s).len() as int),
    decreases s.len(),
{
    if s.len() > 0 && whitespace(s.last()) {
        lemma_trim_end_shape(s.drop_last());
        assert(s.drop_last().subrange(0, crate::config::trim_end(s).len() as int)
            =~= s.subrange(0, crate::config::trim_end(s).len() as int));
    } else {
        assert(s.subrange(0, s.len() as int) =~= s);
    }
}

/// A custom base URL is used without trailing slashes, and without white
/// space at its start.
pub proof fn lemma_custom_url_clean(base: Seq<char>)
    ensures
        strip_slashes(trimmed(base)).len() > 0 ==> strip_slashes(trimmed(base)).last() != '/',
        strip_slashes(trimmed(base)).len() > 0 ==> !whitespace(strip_slashes(trimmed(base))[0]),
{
    let t0 = crate::config::trim_start(base);
    let t = trimmed(base);
    lemma_trim_start_shape(base);
    lemma_trim_end_shape(t0);
    lemma_strip_slashes_end(t);
    let r = strip_slashes(t);
    if r.len() > 0 {
        assert(r[0] == t[0]);
        assert(t[0] == t0[0]);
    }
}

proof fn lemma_shows_in_matching(
    ms: Seq<Seq<(Seq<char>, ValueModel)>>,
    needle: Seq<char>,
    folder: Option<i64>,
    n: int,
    i: int,
)
    requires
        0 <= i < n <= ms.len(),
        ms.len() <= usize::MAX,
        in_folder(ms[i], folder),
        needle.len() == 0 || occurs_in(lowercase_of(subject_of(ms[i])), needle)
            || occurs_in(lowercase_of(partner_of(ms[i])), needle),
    ensures
        matching(ms, needle, folder, n).contains(i as usize),
    decreases n,
{
    let prev = matching(ms, needle, folder, n - 1);
    if i == n - 1 {
        assert(matching(ms, needle, folder, n) == prev.push(i as usize));
        assert(matching(ms, needle, folder, n)[prev.len() as int] == i as usize);
    } else {
        lemma_shows_in_matching(ms, needle, folder, n - 1, i);
        let k = choose|k: int| 0 <= k < prev.len() && prev[k] == i as usize;
        if shows(ms[n - 1], needle, folder) {
            assert(matching(ms, needle, folder, n)[k] == prev[k]);
        }
    }
}

/// The grid shows every message of the selected folder whose lowercased
/// subject or partner name contains the lowercased search text anywhere
/// (every message of the folder when the search is empty).
pub proof fn lemma_search_finds_every_match(
    ms: Seq<Seq<(Seq<char>, ValueModel)>>,
    search: Seq<char>,
    folder: Option<i64>,
    key: SortKey,
    asc: bool,
    out: Seq<usize>,
    i: int,
)
    requires
        ms.len() <= usize::MAX,
        shown(ms, search, folder, key, asc, out),
        0 <= i < ms.len(),
        in_folder(ms[i], folder),
        lowercase_of(search).len() == 0
            || occurs_in(lowercase_of(subject_of(ms[i])), lowercase_of(search))
            || occurs_in(lowercase_of(partner_of(ms[i])), lowercase_of(search)),
    ensures
        out.contains(i as usize),
{
    lemma_shows_in_matching(ms, lowercase_of(search), folder, ms.len() as int, i);
}

proof fn lemma_counts_prefix(fs: Seq<FolderModel>, f: FolderModel, n: int)
    requires
        0 <= n <= fs.len(),
    ensures
        counts_sum(fs.push(f), n) == counts_sum(fs, n),
    decreases n,
{
    if n > 0 {
        lemma_counts_prefix(fs, f, n - 1);
        assert(fs.push(f)[n - 1] == fs[n - 1]);
    }
}

/// The All messages total counts every folder of the list, whatever its
/// parent: adding a folder adds its count, and no folder adds nothing.
pub proof fn lemma_total_adds_each_folder(fs: Seq<FolderModel>, f: FolderModel)
    ensures
        counts_sum(fs.push(f), fs.len() + 1int) == counts_sum(fs, fs.len() as int) + f.count,
        counts_sum(Seq::<FolderModel>::empty(), 0) == 0,
{
    lemma_counts_prefix(fs, f, fs.len() as int);
    assert(fs.push(f)[fs.len() as int] == f);
}

/// A successful messages reply leaves a loaded folder list as it is; folders
/// are derived from the messages only when none are loaded.
pub proof fn lemma_messages_keep_loaded_folders(o: AppState, n: AppState, v: Vec<Record>, reqs: Seq<Request>)
    requires
        event_applied(o, n, Event::Messages(Ok(v)), reqs),
        o.folders@.len() > 0,
    ensures
        n.folders == o.folders,
        n.selected_folder == o.selected_folder,
        n.messages == v,
{
}

proof fn lemma_rows_shape(module: Module, list: Seq<Record>, needle: Seq<char>, n: int)
    requires
        0 <= n <= list.len(),
        list.len() <= usize::MAX,
    ensures
        forall|k: int| 0 <= k < rows_of(module, list, needle, n).len() ==> {
            let r = #[trigger] rows_of(module, list, needle, n)[k];
            &&& (r.0 as int) < n
            &&& r.2 == cells_of(module, list[r.0 as int]@)
            &&& r.1 == match lookup(list[r.0 as int]@, "id"@) { Some(x) => x, None => ValueModel::Null }
            &&& row_matches(r.2, needle)
        },
        forall|a: int, b: int| 0 <= a < b < rows_of(module, list, needle, n).len() ==>
            #[trigger] rows_of(module, list, needle, n)[a].0 < #[trigger] rows_of(module, list, needle, n)[b].0,
        forall|i: int| 0 <= i < n && row_matches(cells_of(module, list[i]@), needle) ==>
            exists|k: int| 0 <= k < rows_of(module, list, needle, n).len()
                && (#[trigger] rows_of(module, list, needle, n)[k]).0 as int == i,
    decreases n,
{
    if n > 0 {
        lemma_rows_shape(module, list, needle, n - 1);
        let prev = rows_of(module, list, needle, n - 1);
        let cur = rows_of(module, list, needle, n);
        let cells = cells_of(module, list[n - 1]@);
        if row_matches(cells, needle) {
            assert(cur.len() == prev.len() + 1);
            assert forall|k: int| 0 <= k < cur.len() implies {
                let r = #[trigger] cur[k];
                &&& (r.0 as int) < n
                &&& r.2 == cells_of(module, list[r.0 as int]@)
                &&& r.1 == match lookup(list[r.0 as int]@, "id"@) { Some(x) => x, None => ValueModel::Null }
                &&& row_matches(r.2, needle)
            } by {
                if k < prev.len() {
                    assert(cur[k] == prev[k]);
                }
            }
            assert forall|a: int, b: int| 0 <= a < b < cur.len() implies #[trigger] cur[a].0 < #[trigger] cur[b].0 by {
                assert(cur[a] == prev[a]);
                if b < prev.len() {
                    assert(cur[b] == prev[b]);
                }
            }
            assert forall|i: int| 0 <= i < n && row_matches(cells_of(module, list[i]@), needle) implies
                exists|k: int| 0 <= k < cur.len() && (#[trigger] cur[k]).0 as int == i by {
                if i < n - 1 {
                    let k = choose|k: int| 0 <= k < prev.len() && (#[trigger] prev[k]).0 as int == i;
                    assert(cur[k] == prev[k]);
                } else {
                    assert(cur[prev.len() as int].0 as int == i);
                }
            }
        } else {
            assert forall|i: int| 0 <= i < n && row_matches(cells_of(module, list[i]@), needle) implies
                exists|k: int| 0 <= k < cur.len() && (#[trigger] cur[k]).0 as int == i by {
                assert(i < n - 1);
            }
        }
    }
}

/// Each row of a maintenance grid shows the cells of the record at its own
/// position, carries that record's id (null when it has none) and matches
/// the search; rows come in list order, and every record whose cells match
/// the search has a row.
pub proof fn lemma_maint_rows_own_record(module: Module, list: Seq<Record>, needle: Seq<char>)
    requires
        list.len() <= usize::MAX,
    ensures
        ({
            let rows = rows_of(module, list, needle, list.len() as int);
            &&& forall|k: int| 0 <= k < rows.len() ==> {
                let r = #[trigger] rows[k];
                &&& (r.0 as int) < list.len()
                &&& r.2 == cells_of(module, list[r.0 as int]@)
                &&& r.1 == match lookup(list[r.0 as int]@, "id"@) { Some(x) => x, None => ValueModel::Null }
                &&& row_matches(r.2, needle)
            }
            &&& forall|a: int, b: int| 0 <= a < b < rows.len() ==> #[trigger] rows[a].0 < #[trigger] rows[b].0
            &&& forall|i: int| 0 <= i < list.len() && row_matches(cells_of(module, list[i]@), needle) ==>
                exists|k: int| 0 <= k < rows.len() && (#[trigger] rows[k]).0 as int == i
        }),
{
    lemma_rows_shape(module, list, needle, list.len() as int);
}

/// A station or partner form with an edit id goes to that kind's update
/// endpoint, and one without goes to its create endpoint; a certificate
/// form always creates.
pub proof fn lemma_submission_endpoint(f: Forms, stations: Seq<Record>, kind: NewKind)
    ensures
        kind == NewKind::Station && f.edit_id is Some ==> form_submission(f, stations, kind).1 == SaveOp::UpdateStation,
        kind == NewKind::Station && f.edit_id is None ==> form_submission(f, stations, kind).1 == SaveOp::CreateStation,
        kind == NewKind::Partner && f.edit_id is Some ==> form_submission(f, stations, kind).1 == SaveOp::UpdatePartner,
        kind == NewKind::Partner && f.edit_id is None ==> form_submission(f, stations, kind).1 == SaveOp::CreatePartner,
        kind == NewKind::Certificate ==> form_submission(f, stations, kind).1 == SaveOp::CreateCertificate,
        f.edit_id matches Some(id) ==> form_submission(f, stations, kind).0.last() == ("id"@, id@),
{
}

} // verus!
