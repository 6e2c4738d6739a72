//! The size tree of a scanned directory, as reported to the user: wide
//! directories keep only their most telling children, and the tree can be
//! flattened into its largest entries or into the scaffolds it holds.

use vstd::prelude::*;
use crate::sort::{is_permutation, sorted_desc_stable, stable_order_desc, take_in_order};
use crate::text::{append_str, chars_of, decimal, string_of, u64_to_decimal};

verus! {

/// A file or directory of the size tree.
#[derive(Debug)]
pub struct TreeNode {
    pub path: String,
    pub name: String,
    /// Bytes, the total of everything below for a directory.
    pub size: u64,
    pub file_count: u64,
    pub is_dir: bool,
    pub children: Vec<TreeNode>,
    /// The scaffold recognised at this directory, if any.
    pub scaffold_id: Option<String>,
}

/// How many children a directory keeps at a given depth.
pub open spec fn child_cap(depth: int) -> int {
    if depth < 2 {
        100
    } else if depth < 4 {
        50
    } else {
        20
    }
}

/// The depth of a directory's children. From depth 4 on every level keeps
/// the same number of children, so the count stops there.
pub open spec fn deeper(depth: int) -> int {
    if depth >= 4 {
        depth
    } else {
        depth + 1
    }
}

/// Indices below `n` of the nodes that are tagged (or, with `tagged`
/// false, untagged), in order.
pub open spec fn tag_indices(kids: Seq<TreeNode>, tagged: bool, n: int) -> Seq<usize>
    decreases n,
{
    if n <= 0 {
        Seq::empty()
    } else if (kids[n - 1].scaffold_id is Some) == tagged {
        tag_indices(kids, tagged, n - 1).push((n - 1) as usize)
    } else {
        tag_indices(kids, tagged, n - 1)
    }
}

/// The children a directory keeps: tagged ones first, up to `cap`, then
/// untagged ones while room remains, each in their original order.
pub open spec fn kept_indices(kids: Seq<TreeNode>, cap: int) -> Seq<usize> {
    let t = tag_indices(kids, true, kids.len() as int);
    let u = tag_indices(kids, false, kids.len() as int);
    let nt = if t.len() < cap {
        t.len() as int
    } else {
        cap
    };
    let nu = if u.len() < cap - nt {
        u.len() as int
    } else {
        cap - nt
    };
    t.take(nt) + u.take(nu)
}

/// The sizes of the nodes at `idx`.
pub open spec fn sizes_at(kids: Seq<TreeNode>, idx: Seq<usize>) -> Seq<u64> {
    idx.map_values(|i: usize| kids[i as int].size)
}

/// `out` is what a directory keeps of its (already processed) children
/// `mids`: all of them when they fit under `cap`, else the kept ones
/// ordered by size, largest first, ties in kept order.
pub open spec fn chosen_children(out: Seq<TreeNode>, mids: Seq<TreeNode>, cap: int) -> bool {
    if mids.len() <= cap {
        out == mids
    } else {
        let sel = kept_indices(mids, cap);
        &&& out.len() == sel.len()
        &&& exists|p: Seq<usize>|
            #![trigger is_permutation(p, sel.len())]
            is_permutation(p, sel.len()) && sorted_desc_stable(sizes_at(mids, sel), p) && forall|k: int|
                0 <= k < sel.len() ==> #[trigger] out[k] == mids[sel[p[k] as int] as int]
    }
}

/// `out` is `inp` with, at every directory, the children kept that
/// [`chosen_children`] describes at its depth; nothing else changes.
pub open spec fn truncated_tree(out: TreeNode, inp: TreeNode, depth: int) -> bool
    decreases inp,
{
    &&& out.path == inp.path
    &&& out.name == inp.name
    &&& out.size == inp.size
    &&& out.file_count == inp.file_count
    &&& out.is_dir == inp.is_dir
    &&& out.scaffold_id == inp.scaffold_id
    &&& exists|mids: Seq<TreeNode>|
        #![trigger chosen_children(out.children@, mids, child_cap(depth))]
        mids.len() == inp.children@.len() && (forall|k: int|
            0 <= k < mids.len() ==> truncated_tree(
                #[trigger] mids[k],
                inp.children@[k],
                deeper(depth),
            )) && chosen_children(out.children@, mids, child_cap(depth))
}

fn child_cap_exec(depth: usize) -> (c: usize)
    ensures
        c == child_cap(depth as int),
{
    if depth < 2 {
        100
    } else if depth < 4 {
        50
    } else {
        20
    }
}

/// The indices of [`tag_indices`].
fn tag_indices_exec(kids: &Vec<TreeNode>, tagged: bool) -> (r: Vec<usize>)
    ensures
        r@ == tag_indices(kids@, tagged, kids@.len() as int),
{
    let mut r: Vec<usize> = Vec::new();
    let mut i: usize = 0;
    while i < kids.len()
        invariant
            i <= kids@.len(),
            r@ == tag_indices(kids@, tagged, i as int),
        decreases kids@.len() - i,
    {
        if kids[i].scaffold_id.is_some() == tagged {
            r.push(i);
        }
        i = i + 1;
    }
    r
}

proof fn lemma_tag_indices_bound(kids: Seq<TreeNode>, tagged: bool, n: int)
    requires
        0 <= n <= kids.len() <= usize::MAX,
    ensures
        tag_indices(kids, tagged, n).len() <= n,
        forall|a: int|
            0 <= a < tag_indices(kids, tagged, n).len() ==> #[trigger] tag_indices(kids, tagged, n)[a]
                < n && (kids[tag_indices(kids, tagged, n)[a] as int].scaffold_id is Some) == tagged,
        forall|a: int, b: int|
            0 <= a < b < tag_indices(kids, tagged, n).len() ==> tag_indices(kids, tagged, n)[a]
                < tag_indices(kids, tagged, n)[b],
    decreases n,
{
    if n > 0 {
        lemma_tag_indices_bound(kids, tagged, n - 1);
        let prev = tag_indices(kids, tagged, n - 1);
        let cur = tag_indices(kids, tagged, n);
        if (kids[n - 1].scaffold_id is Some) == tagged {
            assert(((n - 1) as usize) as int == n - 1);
            assert(cur == prev.push((n - 1) as usize));
            assert forall|a: int| 0 <= a < cur.len() implies #[trigger] cur[a] < n && (
            kids[cur[a] as int].scaffold_id is Some) == tagged by {
                if a < prev.len() {
                    assert(cur[a] == prev[a]);
                }
            }
            assert forall|a: int, b: int| 0 <= a < b < cur.len() implies cur[a] < cur[b] by {
                assert(cur[a] == prev[a]);
                if b < prev.len() {
                    assert(cur[b] == prev[b]);
                }
            }
        } else {
            assert(cur == prev);
        }
    }
}

proof fn lemma_tag_counts(kids: Seq<TreeNode>, n: int)
    requires
        0 <= n <= kids.len(),
    ensures
        tag_indices(kids, true, n).len() + tag_indices(kids, false, n).len() == n,
    decreases n,
{
    if n > 0 {
        lemma_tag_counts(kids, n - 1);
    }
}

/// A directory keeps all its children when they fit under the cap of its
/// depth, and exactly that many otherwise.
pub proof fn lemma_truncation_keeps_cap(out: TreeNode, inp: TreeNode, depth: int)
    requires
        truncated_tree(out, inp, depth),
    ensures
        out.children@.len() == (if inp.children@.len() <= child_cap(depth) {
            inp.children@.len() as int
        } else {
            child_cap(depth)
        }),
{
    let mids = choose|mids: Seq<TreeNode>|
        #![trigger chosen_children(out.children@, mids, child_cap(depth))]
        mids.len() == inp.children@.len() && (forall|k: int|
            0 <= k < mids.len() ==> truncated_tree(
                #[trigger] mids[k],
                inp.children@[k],
                deeper(depth),
            )) && chosen_children(out.children@, mids, child_cap(depth));
    if mids.len() > child_cap(depth) {
        lemma_tag_counts(mids, mids.len() as int);
    }
}

proof fn lemma_tag_indices_complete(kids: Seq<TreeNode>, tagged: bool, n: int, i: int)
    requires
        0 <= i < n <= kids.len() <= usize::MAX,
        (kids[i].scaffold_id is Some) == tagged,
    ensures
        exists|a: int|
            0 <= a < tag_indices(kids, tagged, n).len() && tag_indices(kids, tagged, n)[a] == i,
    decreases n,
{
    let cur = tag_indices(kids, tagged, n);
    if i == n - 1 {
        assert(((n - 1) as usize) as int == n - 1);
        assert(cur[cur.len() - 1] == i);
    } else {
        lemma_tag_indices_complete(kids, tagged, n - 1, i);
        let prev = tag_indices(kids, tagged, n - 1);
        let a = choose|a: int| 0 <= a < prev.len() && prev[a] == i;
        if (kids[n - 1].scaffold_id is Some) == tagged {
            assert(cur[a] == prev[a]);
        }
    }
}

/// When a directory has no more tagged children than its cap, every
/// tagged child is among those it keeps: recognised scaffolds are never
/// truncated away.
pub proof fn lemma_tagged_children_kept(kids: Seq<TreeNode>, cap: int, i: int)
    requires
        kids.len() <= usize::MAX,
        0 <= i < kids.len(),
        kids[i].scaffold_id is Some,
        tag_indices(kids, true, kids.len() as int).len() <= cap,
    ensures
        exists|a: int| 0 <= a < kept_indices(kids, cap).len() && kept_indices(kids, cap)[a] == i,
{
    lemma_tag_indices_complete(kids, true, kids.len() as int, i);
    let t = tag_indices(kids, true, kids.len() as int);
    let a = choose|a: int| 0 <= a < t.len() && t[a] == i;
    assert(kept_indices(kids, cap)[a] == t[a]);
}

/// Keeps the children described by [`chosen_children`].
fn choose_children(mids: Vec<TreeNode>, cap: usize) -> (out: Vec<TreeNode>)
    ensures
        chosen_children(out@, mids@, cap as int),
{
    if mids.len() <= cap {
        return mids;
    }
    let ghost m = mids@;
    let t = tag_indices_exec(&mids, true);
    let u = tag_indices_exec(&mids, false);
    proof {
        lemma_tag_indices_bound(m, true, m.len() as int);
        lemma_tag_indices_bound(m, false, m.len() as int);
    }
    let nt = if t.len() < cap {
        t.len()
    } else {
        cap
    };
    let nu = if u.len() < cap - nt {
        u.len()
    } else {
        cap - nt
    };
    let mut sel: Vec<usize> = Vec::new();
    let mut a: usize = 0;
    while a < nt
        invariant
            a <= nt <= t@.len(),
            sel@ == t@.take(a as int),
        decreases nt - a,
    {
        sel.push(t[a]);
        a = a + 1;
        assert(sel@ =~= t@.take(a as int));
    }
    let mut b: usize = 0;
    while b < nu
        invariant
            b <= nu <= u@.len(),
            a == nt,
            sel@ == t@.take(nt as int) + u@.take(b as int),
        decreases nu - b,
    {
        sel.push(u[b]);
        b = b + 1;
        assert(sel@ =~= t@.take(nt as int) + u@.take(b as int));
    }
    assert(sel@ == kept_indices(m, cap as int));
    assert forall|k: int| 0 <= k < sel@.len() implies #[trigger] sel@[k] < m.len() by {
        if k < nt {
            assert(sel@[k] == t@[k]);
        } else {
            assert(sel@[k] == u@[k - nt]);
        }
    }
    assert forall|x: int, y: int| 0 <= x < y < sel@.len() implies sel@[x] != sel@[y] by {
        if y < nt {
            assert(sel@[x] == t@[x] && sel@[y] == t@[y]);
        } else if x >= nt {
            assert(sel@[x] == u@[x - nt] && sel@[y] == u@[y - nt]);
        } else {
            assert(sel@[x] == t@[x] && sel@[y] == u@[y - nt]);
            assert(m[t@[x] as int].scaffold_id is Some);
            assert(m[u@[y - nt] as int].scaffold_id is None);
        }
    }
    let mut keys: Vec<u64> = Vec::new();
    let mut k: usize = 0;
    while k < sel.len()
        invariant
            k <= sel@.len(),
            mids@ == m,
            forall|j: int| 0 <= j < sel@.len() ==> #[trigger] sel@[j] < m.len(),
            keys@ == sizes_at(m, sel@).take(k as int),
        decreases sel@.len() - k,
    {
        keys.push(mids[sel[k]].size);
        k = k + 1;
        assert(keys@ =~= sizes_at(m, sel@).take(k as int));
    }
    assert(keys@ =~= sizes_at(m, sel@));
    let p = stable_order_desc(&keys);
    let mut order: Vec<usize> = Vec::new();
    let mut c: usize = 0;
    while c < sel.len()
        invariant
            c <= sel@.len() == p@.len(),
            is_permutation(p@, sel@.len() as nat),
            order@.len() == c,
            forall|q: int| 0 <= q < c ==> #[trigger] order@[q] == sel@[p@[q] as int],
        decreases sel@.len() - c,
    {
        order.push(sel[p[c]]);
        c = c + 1;
    }
    assert forall|a: int, b: int| 0 <= a < b < order@.len() implies order@[a] != order@[b] by {
        assert(p@[a] != p@[b]);
    }
    take_in_order(mids, &order)
}

/// Keeps, at every directory of the tree, the children that
/// [`chosen_children`] describes for its depth (100 for the root and its
/// children, 50 two and three levels down, 20 further down). Children are
/// processed before their parent chooses among them.
#[verifier::loop_isolation(false)]
pub fn truncate_tree(node: TreeNode, depth: usize) -> (out: TreeNode)
    ensures
        truncated_tree(out, node, depth as int),
    decreases node,
{
    let ghost inp = node;
    let TreeNode { path, name, size, file_count, is_dir, children, scaffold_id } = node;
    let ghost kids = children@;
    let n = children.len();
    let next = if depth >= 4 {
        depth
    } else {
        depth + 1
    };
    let mut rest = children;
    let mut rev: Vec<TreeNode> = Vec::new();
    while rest.len() > 0
        invariant
            kids == inp.children@,
            n == kids.len(),
            next == deeper(depth as int),
            rest@ == kids.take(rest@.len() as int),
            rev@.len() + rest@.len() == n,
            forall|j: int|
                0 <= j < rev@.len() ==> truncated_tree(#[trigger] rev@[j], kids[n - 1 - j], deeper(depth as int)),
        decreases rest@.len(),
    {
        let ghost k = rest@.len() - 1;
        let last = rest.pop();
        match last {
            Some(c) => {
                assert(c == kids[k]);
                assert(rest@ =~= kids.take(k));
                let t = truncate_tree(c, next);
                rev.push(t);
            },
            None => {
                assert(false);
            },
        }
    }
    let mut mids: Vec<TreeNode> = Vec::new();
    while rev.len() > 0
        invariant
            n == kids.len(),
            rev@.len() + mids@.len() == n,
            forall|j: int|
                0 <= j < rev@.len() ==> truncated_tree(#[trigger] rev@[j], kids[n - 1 - j], deeper(depth as int)),
            forall|j: int|
                0 <= j < mids@.len() ==> truncated_tree(#[trigger] mids@[j], kids[j], deeper(depth as int)),
        decreases rev@.len(),
    {
        let ghost k = rev@.len() - 1;
        let ghost before = rev@;
        let last = rev.pop();
        match last {
            Some(t) => {
                assert(t == before[k]);
                mids.push(t);
            },
            None => {
                assert(false);
            },
        }
    }
    let ghost mv = mids@;
    let cap = child_cap_exec(depth);
    let kept = choose_children(mids, cap);
    let out = TreeNode { path, name, size, file_count, is_dir, children: kept, scaffold_id };
    assert(chosen_children(out.children@, mv, child_cap(depth as int)));
    out
}


// ───────────────────────────── summaries ─────────────────────────────

/// One entry of the largest-entries list.
#[derive(Debug)]
pub struct TopEntry {
    pub path: String,
    pub name: String,
    pub size: u64,
    pub is_dir: bool,
    pub scaffold_id: Option<String>,
}

/// A directory where a scaffold was recognised.
#[derive(Debug)]
pub struct ScaffoldMatch {
    pub scaffold_id: String,
    pub path: String,
    pub size: u64,
    pub file_count: u64,
}

/// The summary of an analysed tree.
#[derive(Debug)]
pub struct AnalyzeSummary {
    pub top_dirs: Vec<TopEntry>,
    pub scaffold_matches: Vec<ScaffoldMatch>,
}

pub open spec fn entry_of(n: TreeNode) -> TopEntry {
    TopEntry {
        path: n.path,
        name: n.name,
        size: n.size,
        is_dir: n.is_dir,
        scaffold_id: n.scaffold_id,
    }
}

/// Every node of the tree, parents before their children, children in order.
pub open spec fn preorder(n: TreeNode) -> Seq<TopEntry>
    decreases n,
{
    seq![entry_of(n)] + preorder_all(n.children@)
}

/// [`preorder`] of each node, one after the other.
pub open spec fn preorder_all(kids: Seq<TreeNode>) -> Seq<TopEntry>
    decreases kids,
{
    if kids.len() == 0 {
        Seq::empty()
    } else {
        preorder_all(kids.drop_last()) + preorder(kids.last())
    }
}

/// The topmost directories where a scaffold was recognised, in tree order:
/// below a match nothing more is collected.
pub open spec fn scaffold_roots(n: TreeNode) -> Seq<ScaffoldMatch>
    decreases n,
{
    match n.scaffold_id {
        Some(id) => seq![ScaffoldMatch { scaffold_id: id, path: n.path, size: n.size, file_count: n.file_count }],
        None => scaffold_roots_all(n.children@),
    }
}

/// [`scaffold_roots`] of each node, one after the other.
pub open spec fn scaffold_roots_all(kids: Seq<TreeNode>) -> Seq<ScaffoldMatch>
    decreases kids,
{
    if kids.len() == 0 {
        Seq::empty()
    } else {
        scaffold_roots_all(kids.drop_last()) + scaffold_roots(kids.last())
    }
}

fn clone_opt(s: &Option<String>) -> (r: Option<String>)
    ensures
        r == *s,
{
    match s {
        Some(x) => Some(x.clone()),
        None => None,
    }
}

fn flatten_into(node: &TreeNode, out: &mut Vec<TopEntry>)
    ensures
        final(out)@ == old(out)@ + preorder(*node),
    decreases node,
{
    let ghost o0 = out@;
    out.push(
        TopEntry {
            path: node.path.clone(),
            name: node.name.clone(),
            size: node.size,
            is_dir: node.is_dir,
            scaffold_id: clone_opt(&node.scaffold_id),
        },
    );
    let ghost kids = node.children@;
    let mut i: usize = 0;
    while i < node.children.len()
        invariant
            kids == node.children@,
            i <= kids.len(),
            out@ == o0 + seq![entry_of(*node)] + preorder_all(kids.take(i as int)),
        decreases kids.len() - i,
    {
        assert(kids.take(i + 1).drop_last() =~= kids.take(i as int));
        assert(kids.take(i + 1).last() == kids[i as int]);
        flatten_into(&node.children[i], out);
        i = i + 1;
        assert(out@ =~= o0 + seq![entry_of(*node)] + preorder_all(kids.take(i as int)));
    }
    assert(kids.take(kids.len() as int) =~= kids);
}

/// The nodes of the tree in [`preorder`]; at depth 0 the root itself is
/// left out.
pub fn flatten(node: &TreeNode, depth: usize) -> (r: Vec<TopEntry>)
    ensures
        r@ == (if depth > 0 {
            preorder(*node)
        } else {
            preorder_all(node.children@)
        }),
{
    let mut out: Vec<TopEntry> = Vec::new();
    if depth > 0 {
        flatten_into(node, &mut out);
        assert(out@ =~= preorder(*node));
    } else {
        let ghost kids = node.children@;
        let mut i: usize = 0;
        while i < node.children.len()
            invariant
                kids == node.children@,
                i <= kids.len(),
                out@ == preorder_all(kids.take(i as int)),
            decreases kids.len() - i,
        {
            assert(kids.take(i + 1).drop_last() =~= kids.take(i as int));
            assert(kids.take(i + 1).last() == kids[i as int]);
            flatten_into(&node.children[i], &mut out);
            i = i + 1;
        }
        assert(kids.take(kids.len() as int) =~= kids);
    }
    out
}

fn scaffold_roots_into(node: &TreeNode, out: &mut Vec<ScaffoldMatch>)
    ensures
        final(out)@ == old(out)@ + scaffold_roots(*node),
    decreases node,
{
    match &node.scaffold_id {
        Some(id) => {
            out.push(
                ScaffoldMatch {
                    scaffold_id: id.clone(),
                    path: node.path.clone(),
                    size: node.size,
                    file_count: node.file_count,
                },
            );
        },
        None => {
            let ghost o0 = out@;
            let ghost kids = node.children@;
            let mut i: usize = 0;
            while i < node.children.len()
                invariant
                    kids == node.children@,
                    node.scaffold_id is None,
                    i <= kids.len(),
                    out@ == o0 + scaffold_roots_all(kids.take(i as int)),
                decreases kids.len() - i,
            {
                assert(kids.take(i + 1).drop_last() =~= kids.take(i as int));
                assert(kids.take(i + 1).last() == kids[i as int]);
                        scaffold_roots_into(&node.children[i], out);
                i = i + 1;
                assert(out@ =~= o0 + scaffold_roots_all(kids.take(i as int)));
            }
            assert(kids.take(kids.len() as int) =~= kids);
        },
    }
}

pub open spec fn entry_sizes(es: Seq<TopEntry>) -> Seq<u64> {
    es.map_values(|e: TopEntry| e.size)
}

pub open spec fn match_sizes(ms: Seq<ScaffoldMatch>) -> Seq<u64> {
    ms.map_values(|m: ScaffoldMatch| m.size)
}

/// The largest `top` nodes of the tree (root included), largest first,
/// ties in tree order; and the scaffold matches, largest first, ties in
/// tree order.
pub fn analyze_summary(root: &TreeNode, top: usize) -> (r: AnalyzeSummary)
    ensures
        ({
            let all = preorder(*root);
            &&& r.top_dirs@.len() == (if top < all.len() {
                top as int
            } else {
                all.len() as int
            })
            &&& exists|p: Seq<usize>|
                #![trigger is_permutation(p, all.len())]
                is_permutation(p, all.len()) && sorted_desc_stable(entry_sizes(all), p) && forall|k: int|
                    0 <= k < r.top_dirs@.len() ==> #[trigger] r.top_dirs@[k] == all[p[k] as int]
        }),
        ({
            let ms = scaffold_roots(*root);
            &&& r.scaffold_matches@.len() == ms.len()
            &&& exists|p: Seq<usize>|
                #![trigger is_permutation(p, ms.len())]
                is_permutation(p, ms.len()) && sorted_desc_stable(match_sizes(ms), p) && forall|k: int|
                    0 <= k < ms.len() ==> #[trigger] r.scaffold_matches@[k] == ms[p[k] as int]
        }),
{
    let all = flatten(root, 1);
    let ghost av = all@;
    let mut keys: Vec<u64> = Vec::new();
    let mut i: usize = 0;
    while i < all.len()
        invariant
            i <= av.len(),
            all@ == av,
            keys@ == entry_sizes(av).take(i as int),
        decreases av.len() - i,
    {
        keys.push(all[i].size);
        i = i + 1;
        assert(keys@ =~= entry_sizes(av).take(i as int));
    }
    assert(keys@ =~= entry_sizes(av));
    let p = stable_order_desc(&keys);
    let mut top_dirs = take_in_order(all, &p);
    top_dirs.truncate(top);
    let mut matches: Vec<ScaffoldMatch> = Vec::new();
    scaffold_roots_into(root, &mut matches);
    let ghost mv = matches@;
    assert(mv =~= scaffold_roots(*root));
    let mut mkeys: Vec<u64> = Vec::new();
    let mut j: usize = 0;
    while j < matches.len()
        invariant
            j <= mv.len(),
            matches@ == mv,
            mkeys@ == match_sizes(mv).take(j as int),
        decreases mv.len() - j,
    {
        mkeys.push(matches[j].size);
        j = j + 1;
        assert(mkeys@ =~= match_sizes(mv).take(j as int));
    }
    assert(mkeys@ =~= match_sizes(mv));
    let q = stable_order_desc(&mkeys);
    let scaffold_matches = take_in_order(matches, &q);
    AnalyzeSummary { top_dirs, scaffold_matches }
}


// ───────────────────────────── text summary ─────────────────────────────

/// `n` copies of `c`.
pub open spec fn repeat_char(c: char, n: nat) -> Seq<char>
    decreases n,
{
    if n == 0 {
        Seq::empty()
    } else {
        repeat_char(c, (n - 1) as nat).push(c)
    }
}

/// The summary line of one node: two spaces per level, `D` or `F`, the
/// name, then the size and the file count.
pub open spec fn summary_line(n: TreeNode, depth: nat) -> Seq<char> {
    repeat_char(' ', 2 * depth) + (if n.is_dir {
        "D"@
    } else {
        "F"@
    }) + " "@ + n.name@ + " ("@ + decimal(n.size as nat) + " bytes, "@ + decimal(
        n.file_count as nat,
    ) + " files)"@
}

/// The summary of a tree down to `max_depth`: each node's line, followed by
/// its children's summaries while the depth is below `max_depth`.
pub open spec fn summary_lines(n: TreeNode, depth: nat, max_depth: nat) -> Seq<Seq<char>>
    decreases n,
{
    seq![summary_line(n, depth)] + if depth < max_depth {
        summary_lines_all(n.children@, depth + 1, max_depth)
    } else {
        Seq::empty()
    }
}

/// [`summary_lines`] of each node, one after the other.
pub open spec fn summary_lines_all(kids: Seq<TreeNode>, depth: nat, max_depth: nat) -> Seq<Seq<char>>
    decreases kids,
{
    if kids.len() == 0 {
        Seq::empty()
    } else {
        summary_lines_all(kids.drop_last(), depth, max_depth) + summary_lines(
            kids.last(),
            depth,
            max_depth,
        )
    }
}

/// The number of levels below a node.
pub open spec fn tree_height(n: TreeNode) -> nat
    decreases n,
{
    if n.children@.len() == 0 {
        0
    } else {
        1 + forest_height(n.children@)
    }
}

/// The greatest [`tree_height`] among the nodes.
pub open spec fn forest_height(kids: Seq<TreeNode>) -> nat
    decreases kids,
{
    if kids.len() == 0 {
        0
    } else {
        let a = forest_height(kids.drop_last());
        let b = tree_height(kids.last());
        if a < b {
            b
        } else {
            a
        }
    }
}

proof fn lemma_child_height(kids: Seq<TreeNode>, i: int)
    requires
        0 <= i < kids.len(),
    ensures
        tree_height(kids[i]) <= forest_height(kids),
    decreases kids.len(),
{
    if i < kids.len() - 1 {
        lemma_child_height(kids.drop_last(), i);
    }
}

/// The summary goes no deeper than `max_depth` and than the tree itself,
/// so its indentation fits in memory.
pub open spec fn summary_depth_fits(n: TreeNode, depth: nat, max_depth: nat) -> bool {
    &&& depth <= usize::MAX / 2
    &&& (max_depth <= usize::MAX / 2 || depth + tree_height(n) <= usize::MAX / 2)
}

fn summary_line_exec(n: &TreeNode, depth: usize) -> (r: String)
    requires
        depth <= usize::MAX / 2,
    ensures
        r@ == summary_line(*n, depth as nat),
{
    let mut v: Vec<char> = Vec::new();
    let width = 2 * depth;
    let mut k: usize = 0;
    while k < width
        invariant
            k <= width,
            v@ == repeat_char(' ', k as nat),
        decreases width - k,
    {
        v.push(' ');
        k = k + 1;
    }
    if n.is_dir {
        append_str(&mut v, "D");
    } else {
        append_str(&mut v, "F");
    }
    append_str(&mut v, " ");
    append_str(&mut v, n.name.as_str());
    append_str(&mut v, " (");
    let size = string_of(&u64_to_decimal(n.size));
    append_str(&mut v, size.as_str());
    append_str(&mut v, " bytes, ");
    let count = string_of(&u64_to_decimal(n.file_count));
    append_str(&mut v, count.as_str());
    append_str(&mut v, " files)");
    string_of(&v)
}

fn summary_into(n: &TreeNode, depth: usize, max_depth: usize, out: &mut Vec<String>)
    requires
        summary_depth_fits(*n, depth as nat, max_depth as nat),
        depth <= max_depth,
    ensures
        final(out)@.map_values(|s: String| s@) == old(out)@.map_values(|s: String| s@) + summary_lines(
            *n,
            depth as nat,
            max_depth as nat,
        ),
    decreases n,
{
    let ghost o0 = out@.map_values(|s: String| s@);
    out.push(summary_line_exec(n, depth));
    assert(out@.map_values(|s: String| s@) =~= o0 + seq![summary_line(*n, depth as nat)]);
    if depth < max_depth {
        let ghost kids = n.children@;
        let ghost o1 = out@.map_values(|s: String| s@);
        let mut i: usize = 0;
        while i < n.children.len()
            invariant
                kids == n.children@,
                depth < max_depth,
                summary_depth_fits(*n, depth as nat, max_depth as nat),
                i <= kids.len(),
                out@.map_values(|s: String| s@) == o1 + summary_lines_all(
                    kids.take(i as int),
                    (depth + 1) as nat,
                    max_depth as nat,
                ),
            decreases kids.len() - i,
        {
            assert(kids.take(i + 1).drop_last() =~= kids.take(i as int));
            assert(kids.take(i + 1).last() == kids[i as int]);
            proof {
                lemma_child_height(kids, i as int);
            }
            summary_into(&n.children[i], depth + 1, max_depth, out);
            i = i + 1;
            assert(out@.map_values(|s: String| s@) =~= o1 + summary_lines_all(
                kids.take(i as int),
                (depth + 1) as nat,
                max_depth as nat,
            ));
        }
        assert(kids.take(kids.len() as int) =~= kids);
    }
}

/// The text summary of a tree, one line per node, down to `max_depth`
/// levels below the root.
pub fn tree_summary(root: &TreeNode, max_depth: usize) -> (r: Vec<String>)
    requires
        max_depth <= usize::MAX / 2 || tree_height(*root) <= usize::MAX / 2,
    ensures
        r@.map_values(|s: String| s@) == summary_lines(*root, 0, max_depth as nat),
{
    let mut out: Vec<String> = Vec::new();
    summary_into(root, 0, max_depth, &mut out);
    assert(out@.map_values(|s: String| s@) =~= summary_lines(*root, 0, max_depth as nat));
    out
}

} // verus!
