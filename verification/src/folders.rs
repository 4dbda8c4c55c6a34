//! The folder tree of a station: folders as the API lists them, or derived
//! from the loaded messages, and their depth-first display order.

use vstd::prelude::*;
use crate::chars::{i64_text, signed_decimal};
use crate::json::{
    first_field, keys_model, lookup, sfield, value_as_i64, value_as_u64, Record,
    ValueModel,
};
use crate::order::{sortable, stable_sort, stable_sorted};
use crate::text::{concat, lowercase, lowercase_of};

verus! {

/// A folder in a station.
pub struct Folder {
    pub id: i64,
    pub name: String,
    pub parent: Option<i64>,
    pub count: usize,
}

/// The mathematical model of a folder.
pub struct FolderModel {
    pub id: i64,
    pub name: Seq<char>,
    pub parent: Option<i64>,
    pub count: nat,
}

impl View for Folder {
    type V = FolderModel;

    open spec fn view(&self) -> FolderModel {
        FolderModel { id: self.id, name: self.name@, parent: self.parent, count: self.count as nat }
    }
}

/// The models of a list of folders.
pub open spec fn folders_model(fs: Seq<Folder>) -> Seq<FolderModel> {
    fs.map_values(|f: Folder| f@)
}

/// The models of a list of records.
pub open spec fn records_model(rs: Seq<Record>) -> Seq<Seq<(Seq<char>, ValueModel)>> {
    rs.map_values(|r: Record| r@)
}

impl Folder {
    /// A copy of this folder.
    pub fn duplicate(&self) -> (r: Folder)
        ensures
            r@ == self@,
    {
        Folder { id: self.id, name: self.name.clone(), parent: self.parent, count: self.count }
    }
}

/// The folder that a `/messages/folders` response item describes.
pub open spec fn folder_of(v: Seq<(Seq<char>, ValueModel)>) -> FolderModel {
    FolderModel {
        id: match lookup(v, "id"@) {
            Some(x) => match value_as_i64(x) { Some(i) => i, None => 0 },
            None => 0,
        },
        name: first_field(v, seq!["name"@, "nombre"@]),
        parent: match lookup(v, "parent_id"@) {
            Some(x) => value_as_i64(x),
            None => None,
        },
        count: match lookup(v, "count"@) {
            Some(x) => match value_as_u64(x) { Some(c) => (c as usize) as nat, None => 0 },
            None => 0,
        },
    }
}

/// Build a [`Folder`] from a `/messages/folders` response item.
pub fn folder_from(v: &Record) -> (f: Folder)
    ensures
        f@ == folder_of(v@),
{
    let id = match v.get("id") {
        Some(x) => match x.as_i64() { Some(i) => i, None => 0 },
        None => 0,
    };
    let keys: [&str; 2] = ["name", "nombre"];
    let name = sfield(v, keys.as_slice());
    assert(keys_model(keys@) =~= seq!["name"@, "nombre"@]);
    let parent = match v.get("parent_id") {
        Some(x) => x.as_i64(),
        None => None,
    };
    let count: usize = match v.get("count") {
        Some(x) => match x.as_u64() { Some(c) => c as usize, None => 0 },
        None => 0,
    };
    Folder { id, name, parent, count }
}

/// The first folder with id `id`, searching from position `i`.
pub open spec fn find_from(fs: Seq<FolderModel>, id: i64, i: int) -> Option<int>
    decreases fs.len() - i,
{
    if i < 0 || i >= fs.len() {
        None
    } else if fs[i].id == id {
        Some(i)
    } else {
        find_from(fs, id, i + 1)
    }
}

/// The name a derived folder gets: the message's `folder_name`, or
/// `Folder <id>` when it has none.
pub open spec fn derived_name(m: Seq<(Seq<char>, ValueModel)>, id: i64) -> Seq<char> {
    let n = first_field(m, seq!["folder_name"@]);
    if n.len() == 0 { "Folder "@ + signed_decimal(id as int) } else { n }
}

/// The folder id a message names, if it names one.
pub open spec fn message_folder(m: Seq<(Seq<char>, ValueModel)>) -> Option<i64> {
    match lookup(m, "folder_id"@) {
        Some(x) => value_as_i64(x),
        None => None,
    }
}

/// Count one message into the folder list: its folder's count goes up, or
/// a new folder with count 1 is appended.
pub open spec fn group_step(fs: Seq<FolderModel>, m: Seq<(Seq<char>, ValueModel)>) -> Seq<FolderModel> {
    match message_folder(m) {
        Some(id) => match find_from(fs, id, 0) {
            Some(i) => fs.update(i, FolderModel { count: fs[i].count + 1, ..fs[i] }),
            None => fs.push(FolderModel { id, name: derived_name(m, id), parent: None, count: 1 }),
        },
        None => fs,
    }
}

/// The folders that the messages name, in order of first appearance, each
/// with the number of messages in it.
pub open spec fn grouped(ms: Seq<Seq<(Seq<char>, ValueModel)>>) -> Seq<FolderModel>
    decreases ms.len(),
{
    if ms.len() == 0 {
        Seq::empty()
    } else {
        group_step(grouped(ms.drop_last()), ms.last())
    }
}

/// The lowercase names of the folders, by which they are sorted.
pub open spec fn name_keys(fs: Seq<FolderModel>) -> Seq<Seq<char>> {
    fs.map_values(|f: FolderModel| lowercase_of(f.name))
}

/// The positions `0..n` in order.
pub open spec fn positions(n: nat) -> Seq<usize> {
    Seq::new(n, |i: int| i as usize)
}

/// `out` is `fs` stably sorted by lowercase name.
pub open spec fn sorted_by_name(out: Seq<FolderModel>, fs: Seq<FolderModel>) -> bool {
    exists|p: Seq<usize>|
        #[trigger] stable_sorted(p, positions(fs.len()), name_keys(fs), true)
        && out == p.map_values(|i: usize| fs[i as int])
}

proof fn lemma_find_from(fs: Seq<FolderModel>, id: i64, i: int)
    requires
        0 <= i,
    ensures
        match find_from(fs, id, i) {
            Some(k) => i <= k < fs.len() && fs[k].id == id && forall|j: int| i <= j < k ==> fs[j].id != id,
            None => forall|j: int| i <= j < fs.len() ==> fs[j].id != id,
        },
    decreases fs.len() - i,
{
    if i < fs.len() && fs[i].id != id {
        lemma_find_from(fs, id, i + 1);
    }
}

/// The folders that the loaded messages name, for nodes without the
/// folders endpoint: each folder once, counted, sorted by lowercase name.
pub fn derive_folders(messages: &Vec<Record>) -> (out: Vec<Folder>)
    ensures
        sorted_by_name(folders_model(out@), grouped(records_model(messages@))),
{
    let ghost ms = records_model(messages@);
    let mut folders: Vec<Folder> = Vec::new();
    let mut i: usize = 0;
    while i < messages.len()
        invariant
            ms == records_model(messages@),
            i <= messages@.len(),
            folders_model(folders@) == grouped(ms.take(i as int)),
            forall|q: int| 0 <= q < folders@.len() ==> (#[trigger] folders@[q]).count <= i,
        decreases messages@.len() - i,
    {
        let m = &messages[i];
        assert(ms.take(i + 1).drop_last() =~= ms.take(i as int));
        assert(ms.take(i + 1).last() == m@);
        let fid = match m.get("folder_id") {
            Some(x) => x.as_i64(),
            None => None,
        };
        match fid {
            Some(id) => {
                let ghost fm = folders_model(folders@);
                let mut j: usize = 0;
                while j < folders.len() && folders[j].id != id
                    invariant
                        fm == folders_model(folders@),
                        j <= folders@.len(),
                        find_from(fm, id, 0) == find_from(fm, id, j as int),
                    decreases folders@.len() - j,
                {
                    j = j + 1;
                }
                if j < folders.len() {
                    let c = folders[j].count;
                    let f = Folder {
                        id: folders[j].id,
                        name: folders[j].name.clone(),
                        parent: folders[j].parent,
                        count: c + 1,
                    };
                    folders.set(j, f);
                    assert(folders_model(folders@) =~= fm.update(j as int, FolderModel { count: fm[j as int].count + 1, ..fm[j as int] }));
                } else {
                    let keys: [&str; 1] = ["folder_name"];
                    let n = sfield(m, keys.as_slice());
                    assert(keys_model(keys@) =~= seq!["folder_name"@]);
                    let name = if n.as_str().unicode_len() == 0 {
                        concat("Folder ", i64_text(id).as_str())
                    } else {
                        n
                    };
                    folders.push(Folder { id, name, parent: None, count: 1 });
                    assert(folders_model(folders@) =~= fm.push(FolderModel { id, name: derived_name(m@, id), parent: None, count: 1 }));
                }
            },
            None => {},
        }
        i = i + 1;
    }
    assert(ms.take(messages@.len() as int) =~= ms);
    let ghost g = folders_model(folders@);
    let mut keys: Vec<Vec<char>> = Vec::new();
    let mut idx: Vec<usize> = Vec::new();
    let mut k: usize = 0;
    while k < folders.len()
        invariant
            g == folders_model(folders@),
            k <= folders@.len(),
            keys@.len() == k,
            idx@ == positions(k as nat),
            forall|q: int| 0 <= q < k ==> (#[trigger] keys@[q])@ == lowercase_of(folders@[q].name@),
        decreases folders@.len() - k,
    {
        let low = lowercase(folders[k].name.as_str());
        keys.push(crate::chars::to_chars(low.as_str()));
        idx.push(k);
        assert(idx@ =~= positions((k + 1) as nat));
        k = k + 1;
    }
    let ghost km = keys@.map_values(|v: Vec<char>| v@);
    assert(km =~= name_keys(g));
    let order = stable_sort(&idx, &keys, true);
    let mut out: Vec<Folder> = Vec::new();
    let mut t: usize = 0;
    while t < order.len()
        invariant
            g == folders_model(folders@),
            stable_sorted(order@, positions(g.len()), name_keys(g), true),
            t <= order@.len(),
            out@.len() == t,
            forall|q: int| 0 <= q < t ==> (#[trigger] out@[q])@ == g[order@[q] as int],
        decreases order@.len() - t,
    {
        let pos = order[t];
        assert(order@.contains(pos));
        assert(positions(g.len()).contains(pos));
        out.push(folders[pos].duplicate());
        t = t + 1;
    }
    assert(folders_model(out@) =~= order@.map_values(|i: usize| g[i as int]));
    out
}

/// Folder `i` names a parent that is not among the folders (an orphan).
pub open spec fn missing_parent(fs: Seq<FolderModel>, i: int) -> bool {
    match fs[i].parent {
        Some(p) => forall|g: int| 0 <= g < fs.len() ==> #[trigger] fs[g].id != p,
        None => false,
    }
}

/// Folder `i` is shown at the root: it has no parent, or its parent is
/// missing.
pub open spec fn is_top(fs: Seq<FolderModel>, i: int) -> bool {
    fs[i].parent is None || missing_parent(fs, i)
}

/// `path` is a chain of folders from the root: the first is shown at the
/// root, each next one's parent is the id of the one before, and `parent`
/// is the id of the last (no parent for the empty chain).
pub open spec fn is_chain(fs: Seq<FolderModel>, path: Seq<int>, parent: Option<i64>) -> bool {
    &&& forall|k: int| 0 <= k < path.len() ==> 0 <= #[trigger] path[k] < fs.len()
    &&& path.len() > 0 ==> is_top(fs, path[0])
    &&& forall|k: int| 0 < k < path.len() ==> fs[#[trigger] path[k]].parent == Some(fs[path[k - 1]].id)
    &&& parent == (if path.len() == 0 { None::<i64> } else { Some(fs[path.last()].id) })
}

/// No chain of folders from the root is longer than 255, so the tree's
/// depths fit in a `u8` and its walk ends.
pub open spec fn depths_fit(fs: Seq<FolderModel>) -> bool {
    forall|path: Seq<int>, parent: Option<i64>| #[trigger] is_chain(fs, path, parent) ==> path.len() <= 255
}

/// The depth-first listing of the folders under `parent`, starting at
/// position `i`: each child in position order at `depth`, followed by its
/// own subtree one level deeper. `fuel` bounds the depth still explored.
pub open spec fn subtree_order(fs: Seq<FolderModel>, parent: Option<i64>, depth: int, i: int, fuel: nat) -> Seq<(usize, u8)>
    decreases fuel, fs.len() - i,
{
    if fuel == 0 || i < 0 || i >= fs.len() {
        Seq::empty()
    } else if fs[i].parent == parent {
        seq![(i as usize, depth as u8)]
            + subtree_order(fs, Some(fs[i].id), depth + 1, 0, (fuel - 1) as nat)
            + subtree_order(fs, parent, depth, i + 1, fuel)
    } else {
        subtree_order(fs, parent, depth, i + 1, fuel)
    }
}

/// The listing of an orphan: the orphan at the root, then its own subtree
/// one level deeper.
pub open spec fn orphan_tree(fs: Seq<FolderModel>, i: int) -> Seq<(usize, u8)> {
    seq![(i as usize, 0u8)] + subtree_order(fs, Some(fs[i].id), 1, 0, 255)
}

/// The listings of the orphans among the first `n` folders, in position
/// order.
pub open spec fn orphan_trees(fs: Seq<FolderModel>, n: int) -> Seq<(usize, u8)>
    decreases n,
{
    if n <= 0 {
        Seq::empty()
    } else if missing_parent(fs, n - 1) {
        orphan_trees(fs, n - 1) + orphan_tree(fs, n - 1)
    } else {
        orphan_trees(fs, n - 1)
    }
}

/// The display order of the folder tree: the depth-first listing from the
/// root, then each orphan at the root with its subtree, depth first.
pub open spec fn tree_order(fs: Seq<FolderModel>) -> Seq<(usize, u8)> {
    subtree_order(fs, None, 0, 0, 256) + orphan_trees(fs, fs.len() as int)
}

pub(crate) proof fn lemma_child_extends_chain(fs: Seq<FolderModel>, path: Seq<int>, parent: Option<i64>, i: int)
    requires
        is_chain(fs, path, parent),
        0 <= i < fs.len(),
        fs[i].parent == parent,
    ensures
        is_chain(fs, path.push(i), Some(fs[i].id)),
{
    let np = path.push(i);
    assert forall|k: int| 0 < k < np.len() implies fs[#[trigger] np[k]].parent == Some(fs[np[k - 1]].id) by {
        if k < path.len() {
            assert(np[k] == path[k] && np[k - 1] == path[k - 1]);
        } else {
            assert(np[k] == i && np[k - 1] == path.last());
        }
    }
    assert forall|k: int| 0 <= k < np.len() implies 0 <= #[trigger] np[k] < fs.len() by {
        if k < path.len() {
            assert(np[k] == path[k]);
        }
    }
    if path.len() == 0 {
        assert(np[0] == i);
    } else {
        assert(np[0] == path[0]);
    }
}

/// Append to `out` the depth-first listing of the folders under `parent`.
fn push_children(
    folders: &Vec<Folder>,
    parent: Option<i64>,
    depth: u8,
    out: &mut Vec<(usize, u8)>,
    Ghost(path): Ghost<Seq<int>>,
)
    requires
        depths_fit(folders_model(folders@)),
        is_chain(folders_model(folders@), path, parent),
        path.len() == depth,
    ensures
        final(out)@ == old(out)@ + subtree_order(folders_model(folders@), parent, depth as int, 0, (256 - depth) as nat),
    decreases 255 - depth,
{
    let ghost fs = folders_model(folders@);
    let ghost fuel: nat = (256 - depth) as nat;
    assert(is_chain(fs, path, parent));
    assert(path.len() <= 255);
    let ghost start = out@;
    let mut i: usize = 0;
    while i < folders.len()
        invariant
            fs == folders_model(folders@),
            depths_fit(fs),
            is_chain(fs, path, parent),
            path.len() == depth,
            depth <= 255,
            fuel == 256 - depth,
            i <= folders@.len(),
            start + subtree_order(fs, parent, depth as int, 0, fuel)
                == out@ + subtree_order(fs, parent, depth as int, i as int, fuel),
        decreases folders@.len() - i,
    {
        let ghost before = out@;
        if folders[i].parent == parent {
            proof {
                lemma_child_extends_chain(fs, path, parent, i as int);
                assert(is_chain(fs, path.push(i as int), Some(fs[i as int].id)));
                assert(path.push(i as int).len() <= 255);
            }
            out.push((i, depth));
            push_children(folders, Some(folders[i].id), depth + 1, out, Ghost(path.push(i as int)));
            assert(out@ =~= before + (seq![(i as usize, depth as u8)]
                + subtree_order(fs, Some(fs[i as int].id), depth + 1, 0, (fuel - 1) as nat)));
        }
        i = i + 1;
    }
}

/// Whether some folder has id `p`.
fn has_id(folders: &Vec<Folder>, p: i64) -> (r: bool)
    ensures
        r == exists|g: int| 0 <= g < folders@.len() && #[trigger] folders_model(folders@)[g].id == p,
{
    let mut g: usize = 0;
    while g < folders.len()
        invariant
            g <= folders@.len(),
            forall|q: int| 0 <= q < g ==> (#[trigger] folders@[q]).id != p,
        decreases folders@.len() - g,
    {
        if folders[g].id == p {
            assert(folders_model(folders@)[g as int].id == p);
            return true;
        }
        g = g + 1;
    }
    assert forall|q: int| 0 <= q < folders@.len() implies #[trigger] folders_model(folders@)[q].id != p by {
        assert(folders_model(folders@)[q] == folders@[q]@);
    }
    false
}

/// Depth-first display order of the folder tree: (folder index, depth).
/// Folders whose parent is not in the set are shown at the root, each with
/// its subtree.
pub fn folder_order(folders: &Vec<Folder>) -> (out: Vec<(usize, u8)>)
    requires
        depths_fit(folders_model(folders@)),
    ensures
        out@ == tree_order(folders_model(folders@)),
{
    let ghost fs = folders_model(folders@);
    let mut out: Vec<(usize, u8)> = Vec::new();
    assert(is_chain(fs, Seq::<int>::empty(), None));
    push_children(folders, None, 0, &mut out, Ghost(Seq::<int>::empty()));
    let ghost tree = out@;
    assert(tree =~= subtree_order(fs, None, 0, 0, 256));
    let mut i: usize = 0;
    while i < folders.len()
        invariant
            fs == folders_model(folders@),
            depths_fit(fs),
            tree == subtree_order(fs, None, 0, 0, 256),
            i <= folders@.len(),
            out@ == tree + orphan_trees(fs, i as int),
        decreases folders@.len() - i,
    {
        let orphan = match folders[i].parent {
            Some(p) => !has_id(folders, p),
            None => false,
        };
        assert(orphan == missing_parent(fs, i as int)) by {
            assert(fs[i as int] == folders@[i as int]@);
        }
        let ghost before = out@;
        if orphan {
            let ghost path = seq![i as int];
            assert(is_chain(fs, path, Some(fs[i as int].id))) by {
                assert(path[0] == i as int);
                assert(fs[i as int] == folders@[i as int]@);
            }
            out.push((i, 0));
            push_children(folders, Some(folders[i].id), 1, &mut out, Ghost(path));
            assert(out@ =~= before + orphan_tree(fs, i as int));
        }
        assert(out@ =~= tree + orphan_trees(fs, i + 1));
        i = i + 1;
    }
    out
}

/// Some chain of `len` folders from the root ends at folder `j`.
pub open spec fn ends_chain(fs: Seq<FolderModel>, j: int, len: nat) -> bool {
    exists|p: Seq<int>| #[trigger] is_chain(fs, p, chain_end(fs, p)) && p.len() == len && p.last() == j
}

/// The parent value a chain leaves for its children.
pub open spec fn chain_end(fs: Seq<FolderModel>, p: Seq<int>) -> Option<i64> {
    if p.len() == 0 { None } else { Some(fs[p.last()].id) }
}

pub(crate) proof fn lemma_chain_prefix(fs: Seq<FolderModel>, p: Seq<int>, parent: Option<i64>, k: int)
    requires
        is_chain(fs, p, parent),
        1 <= k <= p.len(),
    ensures
        is_chain(fs, p.take(k), chain_end(fs, p.take(k))),
{
    let q = p.take(k);
    assert forall|m: int| 0 < m < q.len() implies fs[#[trigger] q[m]].parent == Some(fs[q[m - 1]].id) by {
        assert(q[m] == p[m] && q[m - 1] == p[m - 1]);
    }
    assert forall|m: int| 0 <= m < q.len() implies 0 <= #[trigger] q[m] < fs.len() by {
        assert(q[m] == p[m]);
    }
    assert(q[0] == p[0]);
}

proof fn lemma_chain_step(fs: Seq<FolderModel>, j: int, len: nat)
    requires
        len >= 1,
        0 <= j < fs.len(),
    ensures
        ends_chain(fs, j, len + 1) <==> exists|i: int| 0 <= i < fs.len() && #[trigger] ends_chain(fs, i, len) && fs[j].parent == Some(fs[i].id),
{
    if ends_chain(fs, j, len + 1) {
        let p = choose|p: Seq<int>| #[trigger] is_chain(fs, p, chain_end(fs, p)) && p.len() == len + 1 && p.last() == j;
        let q = p.take(len as int);
        lemma_chain_prefix(fs, p, chain_end(fs, p), len as int);
        let i = q.last();
        assert(q.last() == p[len - 1]);
        assert(ends_chain(fs, i, len));
        assert(fs[p[len as int]].parent == Some(fs[p[len - 1]].id));
    }
    if exists|i: int| 0 <= i < fs.len() && #[trigger] ends_chain(fs, i, len) && fs[j].parent == Some(fs[i].id) {
        let i = choose|i: int| 0 <= i < fs.len() && #[trigger] ends_chain(fs, i, len) && fs[j].parent == Some(fs[i].id);
        let q = choose|q: Seq<int>| #[trigger] is_chain(fs, q, chain_end(fs, q)) && q.len() == len && q.last() == i;
        lemma_child_extends_chain(fs, q, chain_end(fs, q), j);
        let p = q.push(j);
        assert(p.last() == j);
        assert(chain_end(fs, p) == Some(fs[j].id));
        assert(is_chain(fs, p, chain_end(fs, p)));
    }
}

proof fn lemma_chain_base(fs: Seq<FolderModel>, j: int)
    requires
        0 <= j < fs.len(),
    ensures
        ends_chain(fs, j, 1) <==> is_top(fs, j),
{
    if is_top(fs, j) {
        let p = seq![j];
        assert(p.last() == j);
        assert(is_chain(fs, p, chain_end(fs, p)));
    }
}

proof fn lemma_fit_iff(fs: Seq<FolderModel>)
    ensures
        depths_fit(fs) <==> !exists|j: int| 0 <= j < fs.len() && #[trigger] ends_chain(fs, j, 256),
{
    if exists|j: int| 0 <= j < fs.len() && #[trigger] ends_chain(fs, j, 256) {
        let j = choose|j: int| 0 <= j < fs.len() && #[trigger] ends_chain(fs, j, 256);
        let p = choose|p: Seq<int>| #[trigger] is_chain(fs, p, chain_end(fs, p)) && p.len() == 256 && p.last() == j;
        assert(!(p.len() <= 255));
    }
    if !depths_fit(fs) {
        let (p, parent) = choose|p: Seq<int>, parent: Option<i64>| #[trigger] is_chain(fs, p, parent) && !(p.len() <= 255);
        lemma_chain_prefix(fs, p, parent, 256);
        let q = p.take(256);
        assert(0 <= q.last() < fs.len());
        assert(ends_chain(fs, q.last(), 256));
    }
}

/// Whether no chain of folders from the root is longer than 255, so that
/// `folder_order` can list the tree.
pub fn folder_depths_fit(folders: &Vec<Folder>) -> (r: bool)
    ensures
        r == depths_fit(folders_model(folders@)),
{
    let ghost fs = folders_model(folders@);
    let n = folders.len();
    let mut level: Vec<bool> = Vec::new();
    let mut j: usize = 0;
    while j < n
        invariant
            fs == folders_model(folders@),
            n == fs.len(),
            j <= n,
            level@.len() == j,
            forall|q: int| 0 <= q < j ==> #[trigger] level@[q] == ends_chain(fs, q, 1),
        decreases n - j,
    {
        proof { lemma_chain_base(fs, j as int); }
        let top = match folders[j].parent {
            Some(p) => !has_id(folders, p),
            None => true,
        };
        assert(top == is_top(fs, j as int)) by {
            assert(fs[j as int] == folders@[j as int]@);
        }
        level.push(top);
        j = j + 1;
    }
    let mut len: usize = 1;
    while len < 256
        invariant
            fs == folders_model(folders@),
            n == fs.len(),
            1 <= len <= 256,
            level@.len() == n,
            forall|q: int| 0 <= q < n ==> #[trigger] level@[q] == ends_chain(fs, q, len as nat),
        decreases 256 - len,
    {
        let mut next: Vec<bool> = Vec::new();
        let mut j: usize = 0;
        while j < n
            invariant
                fs == folders_model(folders@),
                n == fs.len(),
                1 <= len < 256,
                level@.len() == n,
                forall|q: int| 0 <= q < n ==> #[trigger] level@[q] == ends_chain(fs, q, len as nat),
                j <= n,
                next@.len() == j,
                forall|q: int| 0 <= q < j ==> #[trigger] next@[q] == ends_chain(fs, q, (len + 1) as nat),
            decreases n - j,
        {
            let mut found = false;
            let mut i: usize = 0;
            while i < n
                invariant
                    fs == folders_model(folders@),
                    n == fs.len(),
                    j < n,
                    level@.len() == n,
                    forall|q: int| 0 <= q < n ==> #[trigger] level@[q] == ends_chain(fs, q, len as nat),
                    i <= n,
                    found == exists|k: int| 0 <= k < i && #[trigger] ends_chain(fs, k, len as nat) && fs[j as int].parent == Some(fs[k].id),
                decreases n - i,
            {
                assert(fs[i as int] == folders@[i as int]@);
                assert(fs[j as int] == folders@[j as int]@);
                if level[i] && folders[j].parent == Some(folders[i].id) {
                    found = true;
                }
                i = i + 1;
            }
            proof { lemma_chain_step(fs, j as int, len as nat); }
            next.push(found);
            j = j + 1;
        }
        level = next;
        len = len + 1;
    }
    let mut any = false;
    let mut q: usize = 0;
    while q < n
        invariant
            fs == folders_model(folders@),
            n == fs.len(),
            level@.len() == n,
            forall|k: int| 0 <= k < n ==> #[trigger] level@[k] == ends_chain(fs, k, 256),
            q <= n,
            any == exists|k: int| 0 <= k < q && #[trigger] ends_chain(fs, k, 256),
        decreases n - q,
    {
        if level[q] {
            any = true;
        }
        q = q + 1;
    }
    proof { lemma_fit_iff(fs); }
    !any
}

/// The number of messages counted in the first `n` folders.
pub open spec fn counts_sum(fs: Seq<FolderModel>, n: int) -> nat
    decreases n,
{
    if n <= 0 { 0 } else { counts_sum(fs, n - 1) + fs[n - 1].count }
}

/// The number of messages in all folders, shown beside "All messages".
pub fn folder_total(folders: &Vec<Folder>) -> (r: usize)
    requires
        counts_sum(folders_model(folders@), folders@.len() as int) <= usize::MAX,
    ensures
        r == counts_sum(folders_model(folders@), folders@.len() as int),
{
    let ghost fs = folders_model(folders@);
    let mut total: usize = 0;
    let mut i: usize = 0;
    while i < folders.len()
        invariant
            fs == folders_model(folders@),
            i <= folders@.len(),
            total == counts_sum(fs, i as int),
            counts_sum(fs, folders@.len() as int) <= usize::MAX,
        decreases folders@.len() - i,
    {
        proof { lemma_counts_monotone(fs, i + 1, folders@.len() as int); }
        assert(fs[i as int] == folders@[i as int]@);
        total = total + folders[i].count;
        i = i + 1;
    }
    total
}

/// Whether the number of messages in all folders fits in a `usize`.
pub fn folder_total_fits(folders: &Vec<Folder>) -> (r: bool)
    ensures
        r == (counts_sum(folders_model(folders@), folders@.len() as int) <= usize::MAX),
{
    let ghost fs = folders_model(folders@);
    let mut total: usize = 0;
    let mut i: usize = 0;
    while i < folders.len()
        invariant
            fs == folders_model(folders@),
            i <= folders@.len(),
            total == counts_sum(fs, i as int),
        decreases folders@.len() - i,
    {
        assert(fs[i as int] == folders@[i as int]@);
        if folders[i].count > usize::MAX - total {
            proof { lemma_counts_monotone(fs, i + 1, folders@.len() as int); }
            return false;
        }
        total = total + folders[i].count;
        i = i + 1;
    }
    true
}

proof fn lemma_counts_monotone(fs: Seq<FolderModel>, a: int, b: int)
    requires
        0 <= a <= b,
    ensures
        counts_sum(fs, a) <= counts_sum(fs, b),
    decreases b - a,
{
    if a < b {
        lemma_counts_monotone(fs, a, b - 1);
    }
}

} // verus!
