//! Duplicate-file detection in three phases, each cheaper than the next:
//! files are grouped by size, size collisions by the SHA-256 of their first
//! bytes, and head collisions by the SHA-256 of their whole content.
//!
//! Reading the disk is left to the caller: the functions here take the sizes,
//! heads and contents that it read, and decide what is a duplicate. Nothing
//! is ever deleted here.

use sha2::{Digest, Sha256};
use std::collections::HashMap;
use vstd::prelude::*;

use crate::sort::{is_permutation, sorted_desc_stable, stable_order_desc, take_in_order};
use crate::text::{decimal, replace_char, replace_char_exec, chars_of, string_of, u64_to_decimal};

verus! {

broadcast use vstd::std_specs::hash::group_hash_axioms;

/// Options for duplicate detection.
#[derive(Debug, Clone)]
pub struct DedupOptions {
    /// Files smaller than this are skipped.
    pub min_size: u64,
    /// How many leading bytes are hashed in the second phase.
    pub head_size: usize,
}

impl Default for DedupOptions {
    /// Skips files under 1 KiB and hashes the first 4 KiB.
    fn default() -> (r: Self)
        ensures
            r.min_size == 1024,
            r.head_size == 4096,
    {
        DedupOptions { min_size: 1024, head_size: 4096 }
    }
}

/// A single file in a duplicate group.
#[derive(Debug)]
pub struct DupFile {
    /// Path with `/` as separator.
    pub path: String,
    /// Modification time in seconds since the Unix epoch, in decimal.
    pub mtime: Option<String>,
}

/// A group of files with identical content.
#[derive(Debug)]
pub struct DupGroup {
    /// Lowercase hex SHA-256 of the shared content.
    pub hash: String,
    pub size: u64,
    pub files: Vec<DupFile>,
    /// Bytes freed by keeping one copy and deleting the rest.
    pub waste_bytes: u64,
}

/// A regular file met while walking a directory tree.
#[derive(Debug, Clone)]
pub struct ScannedFile {
    pub path: String,
    pub size: u64,
}

/// Files of one size, found in the first phase.
#[derive(Debug)]
pub struct SizeGroup {
    pub size: u64,
    /// Indices into the scanned files, increasing.
    pub members: Vec<usize>,
}

/// Files of one size whose heads hash alike, found in the second phase.
#[derive(Debug)]
pub struct HeadHashGroup {
    pub size: u64,
    pub head_hash: String,
    pub files: Vec<String>,
    /// Positions of the files among those of the size group, increasing.
    pub members: Vec<usize>,
}

// ───────────────────────────── hex and digests ─────────────────────────────

/// The lowercase hex digit of `d < 16`.
pub open spec fn hex_digit(d: int) -> char {
    if d < 10 {
        ((d + 48) as u32) as char
    } else {
        ((d + 87) as u32) as char
    }
}

/// Two lowercase hex digits per byte (`format!("{:02x}", b)` for each byte).
pub open spec fn hex_of(bytes: Seq<u8>) -> Seq<char>
    decreases bytes.len(),
{
    if bytes.len() == 0 {
        Seq::empty()
    } else {
        hex_of(bytes.drop_last()) + seq![
            hex_digit(bytes.last() as int / 16),
            hex_digit(bytes.last() as int % 16),
        ]
    }
}

fn hex_digit_exec(d: u8) -> (c: char)
    requires
        d < 16,
    ensures
        c == hex_digit(d as int),
{
    if d < 10 {
        (d + 48) as char
    } else {
        (d + 87) as char
    }
}

/// Lowercase hex encoding of `bytes`.
pub fn hex_encode(bytes: &[u8]) -> (r: String)
    ensures
        r@ == hex_of(bytes@),
{
    let mut v: Vec<char> = Vec::new();
    let mut i: usize = 0;
    while i < bytes.len()
        invariant
            i <= bytes@.len(),
            v@ == hex_of(bytes@.take(i as int)),
        decreases bytes.len() - i,
    {
        let b = bytes[i];
        let hi = hex_digit_exec(b / 16);
        let lo = hex_digit_exec(b % 16);
        v.push(hi);
        v.push(lo);
        proof {
            let t = bytes@.take(i + 1);
            assert(t.drop_last() =~= bytes@.take(i as int));
            assert(t.last() == b);
        }
        i = i + 1;
        assert(v@ =~= hex_of(bytes@.take(i as int)));
    }
    assert(bytes@.take(bytes@.len() as int) =~= bytes@);
    string_of(&v)
}

/// The SHA-256 digest of a byte sequence.
pub uninterp spec fn sha256_digest(bytes: Seq<u8>) -> Seq<u8>;

/// `sha2::Sha256::digest`: the 32-byte SHA-256 digest of `bytes`.
#[verifier::external_body]
fn sha256(bytes: &[u8]) -> (r: Vec<u8>)
    ensures
        r@ == sha256_digest(bytes@),
        r@.len() == 32,
{
    Sha256::digest(bytes).to_vec()
}

/// The digest of the first `head_size` bytes of a file (all of them when
/// it is shorter), given what was read of its head.
pub fn hash_head(head: &[u8], head_size: usize) -> (r: String)
    ensures
        r@ == hex_of(
            sha256_digest(
                if head@.len() <= head_size {
                    head@
                } else {
                    head@.take(head_size as int)
                },
            ),
        ),
{
    let n = if head.len() <= head_size {
        head.len()
    } else {
        head_size
    };
    let mut prefix: Vec<u8> = Vec::new();
    let mut i: usize = 0;
    while i < n
        invariant
            n <= head@.len(),
            i <= n,
            prefix@ == head@.take(i as int),
        decreases n - i,
    {
        prefix.push(head[i]);
        i = i + 1;
        assert(prefix@ =~= head@.take(i as int));
    }
    assert(head@.len() <= head_size ==> head@.take(n as int) =~= head@);
    let digest = sha256(prefix.as_slice());
    hex_encode(digest.as_slice())
}

/// The digest of a whole file content.
pub fn hash_full(content: &[u8]) -> (r: String)
    ensures
        r@ == hex_of(sha256_digest(content@)),
{
    let digest = sha256(content);
    hex_encode(digest.as_slice())
}

/// Modification time as reported in a [`DupFile`]: seconds in decimal.
pub fn mtime_string(secs: Option<u64>) -> (r: Option<String>)
    ensures
        match secs {
            Some(s) => r is Some && r->0@ == decimal(s as nat),
            None => r is None,
        },
{
    match secs {
        Some(s) => {
            let d = u64_to_decimal(s);
            Some(string_of(&d))
        },
        None => None,
    }
}

/// A path as reported in a [`DupFile`]: backslashes become slashes.
pub fn dup_path(path: &str) -> (r: String)
    ensures
        r@ == replace_char(path@, '\\', '/'),
{
    let v = chars_of(path);
    let w = replace_char_exec(&v, '\\', '/');
    string_of(&w)
}


// ───────────────────────────── classes of equal keys ─────────────────────────────

/// `g` is non-empty, increasing, made of indices below `n` that share the
/// (present) key of its first member, and holds every index below `n` with
/// that key.
pub open spec fn is_class_within<K>(keys: Seq<Option<K>>, g: Seq<usize>, n: int) -> bool {
    &&& 0 < g.len()
    &&& n <= keys.len()
    &&& keys[g[0] as int] is Some
    &&& forall|a: int, b: int| 0 <= a < b < g.len() ==> g[a] < g[b]
    &&& forall|a: int|
        0 <= a < g.len() ==> (#[trigger] g[a]) < n && keys[g[a] as int] == keys[g[0] as int]
    &&& forall|i: int|
        0 <= i < n && #[trigger] keys[i] == keys[g[0] as int] ==> exists|a: int|
            0 <= a < g.len() && g[a] == i
}

/// `g` lists, in increasing order, all the indices that carry one key.
pub open spec fn is_class<K>(keys: Seq<Option<K>>, g: Seq<usize>) -> bool {
    is_class_within(keys, g, keys.len() as int)
}

/// `i` has a key, and another index has the same one.
pub open spec fn has_twin<K>(keys: Seq<Option<K>>, i: int) -> bool {
    &&& keys[i] is Some
    &&& exists|j: int| 0 <= j < keys.len() && j != i && #[trigger] keys[j] == keys[i]
}

/// `groups` are the classes of the keys below `n`, ordered by first member,
/// and every index below `n` that has a key lies in one of them.
pub open spec fn classes_within<K>(keys: Seq<Option<K>>, groups: Seq<Seq<usize>>, n: int) -> bool {
    &&& forall|g: int| 0 <= g < groups.len() ==> is_class_within(keys, #[trigger] groups[g], n)
    &&& forall|g: int, h: int| 0 <= g < h < groups.len() ==> groups[g][0] < groups[h][0]
    &&& forall|i: int|
        0 <= i < n && (#[trigger] keys[i]) is Some ==> exists|g: int, a: int|
            0 <= g < groups.len() && 0 <= a < groups[g].len() && groups[g][a] == i
}

/// `groups` are exactly the classes of the keys that occur at least twice,
/// ordered by their first member.
pub open spec fn duplicate_classes<K>(keys: Seq<Option<K>>, groups: Seq<Seq<usize>>) -> bool {
    &&& forall|g: int|
        0 <= g < groups.len() ==> is_class(keys, #[trigger] groups[g]) && groups[g].len() >= 2
    &&& forall|g: int, h: int| 0 <= g < h < groups.len() ==> groups[g][0] < groups[h][0]
    &&& forall|i: int|
        0 <= i < keys.len() && has_twin(keys, i) ==> exists|g: int, a: int|
            0 <= g < groups.len() && 0 <= a < groups[g].len() && #[trigger] groups[g][a] == i
}

/// The index lists held by a vector of vectors.
pub open spec fn lists_of(v: Seq<Vec<usize>>) -> Seq<Seq<usize>> {
    v.map_values(|m: Vec<usize>| m@)
}

/// Keeps, in order, the classes that have at least two members.
fn keep_duplicates<K>(Ghost(keys): Ghost<Seq<Option<K>>>, slots: Vec<Vec<usize>>) -> (r: Vec<
    Vec<usize>,
>)
    requires
        classes_within(keys, lists_of(slots@), keys.len() as int),
    ensures
        duplicate_classes(keys, lists_of(r@)),
{
    let ghost sv = lists_of(slots@);
    let mut r: Vec<Vec<usize>> = Vec::new();
    let ghost mut from: Seq<int> = Seq::empty();
    let n = slots.len();
    let mut slots = slots;
    let mut k: usize = 0;
    while k < n
        invariant
            n == sv.len(),
            k <= n,
            slots@.len() == n,
            classes_within(keys, sv, keys.len() as int),
            forall|m: int| k <= m < n ==> (#[trigger] slots@[m])@ == sv[m],
            from.len() == r@.len(),
            forall|a: int| 0 <= a < from.len() ==> 0 <= #[trigger] from[a] < k,
            forall|a: int, b: int| 0 <= a < b < from.len() ==> from[a] < from[b],
            forall|a: int| 0 <= a < r@.len() ==> (#[trigger] r@[a])@ == sv[from[a]] && sv[from[a]].len() >= 2,
            forall|m: int|
                0 <= m < k && (#[trigger] sv[m]).len() >= 2 ==> exists|a: int|
                    0 <= a < from.len() && from[a] == m,
        decreases n - k,
    {
        let mut taken: Vec<usize> = Vec::new();
        std::mem::swap(&mut taken, &mut slots[k]);
        assert(taken@ == sv[k as int]);
        let ghost old_r = r@;
        let ghost old_from = from;
        if taken.len() >= 2 {
            r.push(taken);
            proof {
                from = from.push(k as int);
                assert forall|a: int| 0 <= a < r@.len() implies (#[trigger] r@[a])@ == sv[from[a]]
                    && sv[from[a]].len() >= 2 by {
                    if a < old_r.len() {
                        assert(r@[a] == old_r[a]);
                        assert(from[a] == old_from[a]);
                    }
                }
            }
        }
        proof {
            assert forall|m: int| 0 <= m < k + 1 && (#[trigger] sv[m]).len() >= 2 implies exists|a: int|
                0 <= a < from.len() && from[a] == m by {
                if m < k {
                    let a = choose|a: int| 0 <= a < old_from.len() && old_from[a] == m;
                    assert(from[a] == m);
                } else {
                    assert(from[from.len() - 1] == m);
                }
            }
        }
        k = k + 1;
    }
    proof {
        let rv = lists_of(r@);
        assert forall|g: int| 0 <= g < rv.len() implies is_class(keys, #[trigger] rv[g])
            && rv[g].len() >= 2 by {
            assert(rv[g] == sv[from[g]]);
        }
        assert forall|g: int, h: int| 0 <= g < h < rv.len() implies rv[g][0] < rv[h][0] by {
            assert(rv[g] == sv[from[g]]);
            assert(rv[h] == sv[from[h]]);
        }
        assert forall|i: int| 0 <= i < keys.len() && has_twin(keys, i) implies exists|g: int, a: int|
            0 <= g < rv.len() && 0 <= a < rv[g].len() && #[trigger] rv[g][a] == i by {
            let j = choose|j: int| 0 <= j < keys.len() && j != i && #[trigger] keys[j] == keys[i];
            assert(keys[i] is Some);
            let (c, a) = choose|c: int, a: int| 0 <= c < sv.len() && 0 <= a < sv[c].len() && sv[c][a] == i;
            assert(is_class_within(keys, sv[c], keys.len() as int));
            assert(keys[j] == keys[sv[c][0] as int]);
            let b = choose|b: int| 0 <= b < sv[c].len() && sv[c][b] == j;
            assert(a != b);
            assert(sv[c].len() >= 2);
            let f = choose|f: int| 0 <= f < from.len() && from[f] == c;
            assert(rv[f] == sv[c]);
            assert(rv[f][a] == i);
        }
    }
    r
}

/// A file is reported in at most one group: two different groups of
/// [`duplicate_classes`] share no index.
pub proof fn lemma_groups_disjoint<K>(keys: Seq<Option<K>>, groups: Seq<Seq<usize>>, g: int, h: int, a: int, b: int)
    requires
        duplicate_classes(keys, groups),
        0 <= g < h < groups.len(),
        0 <= a < groups[g].len(),
        0 <= b < groups[h].len(),
    ensures
        groups[g][a] != groups[h][b],
{
    let cg = groups[g];
    let ch = groups[h];
    assert(is_class(keys, cg));
    assert(is_class(keys, ch));
    if cg[a] == ch[b] {
        let i = cg[a] as int;
        assert(keys[i] == keys[cg[0] as int]);
        assert(keys[i] == keys[ch[0] as int]);
        assert(keys[cg[0] as int] == keys[ch[0] as int]);
        let c = choose|c: int| 0 <= c < ch.len() && ch[c] == cg[0];
        assert(cg[0] < ch[0]);
        if c > 0 {
            assert(ch[0] < ch[c]);
        }
        assert(false);
    }
}

/// The keys of the first phase: a file's size, when it is at least `min_size`.
pub open spec fn size_keys(files: Seq<ScannedFile>, min_size: u64) -> Seq<Option<u64>> {
    Seq::new(
        files.len(),
        |i: int|
            if files[i].size >= min_size {
                Some(files[i].size)
            } else {
                None
            },
    )
}

/// The member lists of size groups.
pub open spec fn size_group_lists(gs: Seq<SizeGroup>) -> Seq<Seq<usize>> {
    gs.map_values(|g: SizeGroup| g.members@)
}

/// First phase: the files of at least `min_size` bytes whose size some other
/// such file shares, one group per size, groups in the order in which their
/// size first occurs.
pub fn group_by_size(files: &Vec<ScannedFile>, min_size: u64) -> (r: Vec<SizeGroup>)
    ensures
        duplicate_classes(size_keys(files@, min_size), size_group_lists(r@)),
        forall|g: int|
            0 <= g < r@.len() ==> files@[(#[trigger] r@[g]).members@[0] as int].size == r@[g].size,
{
    let ghost keys = size_keys(files@, min_size);
    let n = files.len();
    let mut slot_of: HashMap<u64, usize> = HashMap::new();
    let mut slots: Vec<Vec<usize>> = Vec::new();
    let mut sizes: Vec<u64> = Vec::new();
    let mut i: usize = 0;
    while i < n
        invariant
            n == files@.len() == keys.len(),
            keys == size_keys(files@, min_size),
            i <= n,
            sizes@.len() == slots@.len(),
            forall|s: u64|
                #[trigger] slot_of@.contains_key(s) ==> slot_of@[s] < slots@.len() && sizes@[slot_of@[s] as int]
                    == s,
            forall|g: int|
                0 <= g < slots@.len() ==> slot_of@.contains_key(#[trigger] sizes@[g])
                    && slot_of@[sizes@[g]] == g,
            forall|g: int|
                0 <= g < slots@.len() ==> keys[(#[trigger] slots@[g])@[0] as int] == Some(sizes@[g]),
            classes_within(keys, lists_of(slots@), i as int),
        decreases n - i,
    {
        let s = files[i].size;
        let ghost before = lists_of(slots@);
        if s >= min_size {
            assert(keys[i as int] == Some(s));
            match slot_of.get(&s) {
                Some(gref) => {
                    let g = *gref;
                    slots[g].push(i);
                    proof {
                        let after = lists_of(slots@);
                        assert(after[g as int] == before[g as int].push(i));
                        assert forall|h: int| 0 <= h < after.len() implies is_class_within(
                            keys,
                            #[trigger] after[h],
                            i + 1,
                        ) by {
                            assert(is_class_within(keys, before[h], i as int));
                            if h == g {
                                let ag = after[h];
                                assert forall|j: int| 0 <= j < i + 1 && #[trigger] keys[j] == keys[ag[0] as int]
                                    implies exists|a: int| 0 <= a < ag.len() && ag[a] == j by {
                                    if j < i {
                                        let a = choose|a: int| 0 <= a < before[h].len() && before[h][a] == j;
                                        assert(ag[a] == j);
                                    } else {
                                        assert(ag[ag.len() - 1] == j);
                                    }
                                }
                            } else {
                                assert(after[h] == before[h]);
                                assert(sizes@[h] != s);
                            }
                        }
                        assert forall|j: int| 0 <= j < i + 1 && (#[trigger] keys[j]) is Some implies exists|
                            c: int,
                            a: int,
                        | 0 <= c < after.len() && 0 <= a < after[c].len() && after[c][a] == j by {
                            if j < i {
                                let (c, a) = choose|c: int, a: int|
                                    0 <= c < before.len() && 0 <= a < before[c].len() && before[c][a] == j;
                                assert(after[c][a] == j);
                            } else {
                                assert(after[g as int][after[g as int].len() - 1] == j);
                            }
                        }
                        assert forall|c: int, h: int| 0 <= c < h < after.len() implies after[c][0]
                            < after[h][0] by {
                            assert(before[c][0] < before[h][0]);
                        }
                    }
                },
                None => {
                    let g = slots.len();
                    slot_of.insert(s, g);
                    let mut m: Vec<usize> = Vec::new();
                    m.push(i);
                    slots.push(m);
                    sizes.push(s);
                    proof {
                        let after = lists_of(slots@);
                        assert(after[g as int] == seq![i]);
                        assert forall|h: int| 0 <= h < after.len() implies is_class_within(
                            keys,
                            #[trigger] after[h],
                            i + 1,
                        ) by {
                            if h < g {
                                assert(after[h] == before[h]);
                                assert(is_class_within(keys, before[h], i as int));
                                assert(sizes@[h] != s);
                            } else {
                                let ag = after[h];
                                assert forall|j: int| 0 <= j < i + 1 && #[trigger] keys[j] == keys[ag[0] as int]
                                    implies exists|a: int| 0 <= a < ag.len() && ag[a] == j by {
                                    if j < i {
                                        assert(keys[j] is Some);
                                        let (c, a) = choose|c: int, a: int|
                                            0 <= c < before.len() && 0 <= a < before[c].len() && before[c][a] == j;
                                        assert(is_class_within(keys, before[c], i as int));
                                        assert(keys[before[c][0] as int] == Some(sizes@[c]));
                                        assert(slot_of@.contains_key(sizes@[c]));
                                        assert(false);
                                    } else {
                                        assert(ag[0] == j);
                                    }
                                }
                            }
                        }
                        assert forall|j: int| 0 <= j < i + 1 && (#[trigger] keys[j]) is Some implies exists|
                            c: int,
                            a: int,
                        | 0 <= c < after.len() && 0 <= a < after[c].len() && after[c][a] == j by {
                            if j < i {
                                let (c, a) = choose|c: int, a: int|
                                    0 <= c < before.len() && 0 <= a < before[c].len() && before[c][a] == j;
                                assert(after[c][a] == j);
                            } else {
                                assert(after[g as int][0] == j);
                            }
                        }
                        assert forall|c: int, h: int| 0 <= c < h < after.len() implies after[c][0]
                            < after[h][0] by {
                            if h < g {
                                assert(before[c][0] < before[h][0]);
                            } else {
                                assert(is_class_within(keys, before[c], i as int));
                            }
                        }
                    }
                },
            }
        } else {
            proof {
                assert(keys[i as int] is None);
                let after = lists_of(slots@);
                assert forall|h: int| 0 <= h < after.len() implies is_class_within(
                    keys,
                    #[trigger] after[h],
                    i + 1,
                ) by {
                    assert(is_class_within(keys, before[h], i as int));
                }
            }
        }
        i = i + 1;
    }
    let kept = keep_duplicates::<u64>(Ghost(keys), slots);
    let mut r: Vec<SizeGroup> = Vec::new();
    let ghost kv = lists_of(kept@);
    let mut kept = kept;
    let mut k: usize = 0;
    let m = kept.len();
    while k < m
        invariant
            m == kept@.len() == kv.len(),
            k <= m,
            keys == size_keys(files@, min_size),
            duplicate_classes(keys, kv),
            forall|c: int| k <= c < m ==> (#[trigger] kept@[c])@ == kv[c],
            r@.len() == k,
            forall|c: int| 0 <= c < k ==> (#[trigger] r@[c]).members@ == kv[c] && files@[kv[c][0] as int].size == r@[c].size,
        decreases m - k,
    {
        let mut members: Vec<usize> = Vec::new();
        std::mem::swap(&mut members, &mut kept[k]);
        assert(is_class(keys, kv[k as int]));
        let size = files[members[0]].size;
        r.push(SizeGroup { size, members });
        k = k + 1;
    }
    assert(size_group_lists(r@) =~= kv);
    r
}


/// The keys of a digest list: the digest's characters, when there is one.
pub open spec fn digest_keys(digests: Seq<Option<String>>) -> Seq<Option<Seq<char>>> {
    Seq::new(
        digests.len(),
        |i: int|
            match digests[i] {
                Some(d) => Some(d@),
                None => None,
            },
    )
}

/// The slot whose first member carries digest `d`, if any.
fn find_slot(digests: &Vec<Option<String>>, slots: &Vec<Vec<usize>>, d: &String) -> (r: Option<
    usize,
>)
    requires
        forall|g: int|
            0 <= g < slots@.len() ==> (#[trigger] slots@[g])@.len() > 0 && slots@[g]@[0]
                < digests@.len(),
    ensures
        match r {
            Some(c) => c < slots@.len() && digest_keys(digests@)[slots@[c as int]@[0] as int] == Some(
                d@,
            ),
            None => forall|g: int|
                0 <= g < slots@.len() ==> digest_keys(digests@)[(#[trigger] slots@[g])@[0] as int]
                    != Some(d@),
        },
{
    let ghost keys = digest_keys(digests@);
    let mut g: usize = 0;
    while g < slots.len()
        invariant
            keys == digest_keys(digests@),
            g <= slots@.len(),
            forall|h: int|
                0 <= h < slots@.len() ==> (#[trigger] slots@[h])@.len() > 0 && slots@[h]@[0]
                    < digests@.len(),
            forall|h: int| 0 <= h < g ==> keys[(#[trigger] slots@[h])@[0] as int] != Some(d@),
        decreases slots@.len() - g,
    {
        let first = slots[g][0];
        match &digests[first] {
            Some(x) => {
                if *x == *d {
                    return Some(g);
                }
            },
            None => {},
        }
        g = g + 1;
    }
    None
}

/// Second and third phases: the positions whose digest some other position
/// shares, one group per digest, groups in the order in which their digest
/// first occurs. `None` marks a file that could not be read.
pub fn partition_by_digest(digests: &Vec<Option<String>>) -> (r: Vec<Vec<usize>>)
    ensures
        duplicate_classes(digest_keys(digests@), lists_of(r@)),
{
    let ghost keys = digest_keys(digests@);
    let n = digests.len();
    let mut slots: Vec<Vec<usize>> = Vec::new();
    let mut i: usize = 0;
    while i < n
        invariant
            n == digests@.len() == keys.len(),
            keys == digest_keys(digests@),
            i <= n,
            forall|g: int, h: int|
                0 <= g < slots@.len() && 0 <= h < slots@.len() && g != h ==> keys[slots@[g]@[0] as int]
                    != keys[slots@[h]@[0] as int],
            classes_within(keys, lists_of(slots@), i as int),
        decreases n - i,
    {
        let ghost before = lists_of(slots@);
        proof {
            assert forall|g: int| 0 <= g < slots@.len() implies (#[trigger] slots@[g])@.len() > 0
                && slots@[g]@[0] < digests@.len() by {
                assert(is_class_within(keys, before[g], i as int));
            }
        }
        match &digests[i] {
            Some(d) => {
                assert(keys[i as int] == Some(d@));
                match find_slot(digests, &slots, d) {
                    Some(g) => {
                        slots[g].push(i);
                        proof {
                            let after = lists_of(slots@);
                            assert(after[g as int] == before[g as int].push(i));
                            assert forall|h: int| 0 <= h < after.len() implies is_class_within(
                                keys,
                                #[trigger] after[h],
                                i + 1,
                            ) by {
                                assert(is_class_within(keys, before[h], i as int));
                                if h == g {
                                    let ag = after[h];
                                    assert forall|j: int|
                                        0 <= j < i + 1 && #[trigger] keys[j] == keys[ag[0] as int] implies exists|
                                        a: int,
                                    | 0 <= a < ag.len() && ag[a] == j by {
                                        if j < i {
                                            let a = choose|a: int|
                                                0 <= a < before[h].len() && before[h][a] == j;
                                            assert(ag[a] == j);
                                        } else {
                                            assert(ag[ag.len() - 1] == j);
                                        }
                                    }
                                } else {
                                    assert(after[h] == before[h]);
                                    assert(keys[before[h][0] as int] != keys[before[g as int][0] as int]);
                                }
                            }
                            assert forall|j: int| 0 <= j < i + 1 && (#[trigger] keys[j]) is Some implies exists|
                                c: int,
                                a: int,
                            | 0 <= c < after.len() && 0 <= a < after[c].len() && after[c][a] == j by {
                                if j < i {
                                    let (c, a) = choose|c: int, a: int|
                                        0 <= c < before.len() && 0 <= a < before[c].len() && before[c][a]
                                            == j;
                                    assert(after[c][a] == j);
                                } else {
                                    assert(after[g as int][after[g as int].len() - 1] == j);
                                }
                            }
                            assert forall|c: int, h: int| 0 <= c < h < after.len() implies after[c][0]
                                < after[h][0] by {
                                assert(before[c][0] < before[h][0]);
                            }
                            assert forall|c: int, h: int|
                                0 <= c < after.len() && 0 <= h < after.len() && c != h implies keys[after[c][0] as int]
                                != keys[after[h][0] as int] by {
                                assert(after[c][0] == before[c][0]);
                                assert(after[h][0] == before[h][0]);
                            }
                        }
                    },
                    None => {
                        let g = slots.len();
                        let mut m: Vec<usize> = Vec::new();
                        m.push(i);
                        slots.push(m);
                        proof {
                            let after = lists_of(slots@);
                            assert(after[g as int] == seq![i]);
                            assert forall|h: int| 0 <= h < after.len() implies is_class_within(
                                keys,
                                #[trigger] after[h],
                                i + 1,
                            ) by {
                                if h < g {
                                    assert(after[h] == before[h]);
                                    assert(is_class_within(keys, before[h], i as int));
                                } else {
                                    let ag = after[h];
                                    assert forall|j: int|
                                        0 <= j < i + 1 && #[trigger] keys[j] == keys[ag[0] as int] implies exists|
                                        a: int,
                                    | 0 <= a < ag.len() && ag[a] == j by {
                                        if j < i {
                                            assert(keys[j] is Some);
                                            let (c, a) = choose|c: int, a: int|
                                                0 <= c < before.len() && 0 <= a < before[c].len()
                                                    && before[c][a] == j;
                                            assert(is_class_within(keys, before[c], i as int));
                                            assert(keys[before[c][0] as int] != Some(d@));
                                            assert(false);
                                        } else {
                                            assert(ag[0] == j);
                                        }
                                    }
                                }
                            }
                            assert forall|j: int| 0 <= j < i + 1 && (#[trigger] keys[j]) is Some implies exists|
                                c: int,
                                a: int,
                            | 0 <= c < after.len() && 0 <= a < after[c].len() && after[c][a] == j by {
                                if j < i {
                                    let (c, a) = choose|c: int, a: int|
                                        0 <= c < before.len() && 0 <= a < before[c].len() && before[c][a]
                                            == j;
                                    assert(after[c][a] == j);
                                } else {
                                    assert(after[g as int][0] == j);
                                }
                            }
                            assert forall|c: int, h: int| 0 <= c < h < after.len() implies after[c][0]
                                < after[h][0] by {
                                if h < g {
                                    assert(before[c][0] < before[h][0]);
                                } else {
                                    assert(is_class_within(keys, before[c], i as int));
                                }
                            }
                            assert forall|c: int, h: int|
                                0 <= c < after.len() && 0 <= h < after.len() && c != h implies keys[after[c][0] as int]
                                != keys[after[h][0] as int] by {
                                if c < g && h < g {
                                    assert(after[c][0] == before[c][0]);
                                    assert(after[h][0] == before[h][0]);
                                } else if c < g {
                                    assert(after[c][0] == before[c][0]);
                                } else {
                                    assert(after[h][0] == before[h][0]);
                                }
                            }
                        }
                    },
                }
            },
            None => {
                proof {
                    assert(keys[i as int] is None);
                    let after = lists_of(slots@);
                    assert forall|h: int| 0 <= h < after.len() implies is_class_within(
                        keys,
                        #[trigger] after[h],
                        i + 1,
                    ) by {
                        assert(is_class_within(keys, before[h], i as int));
                    }
                }
            },
        }
        i = i + 1;
    }
    keep_duplicates::<Seq<char>>(Ghost(keys), slots)
}


/// Copies a path list entry by entry.
fn clone_paths(paths: &Vec<String>, members: &Vec<usize>) -> (r: Vec<String>)
    requires
        forall|a: int| 0 <= a < members@.len() ==> (#[trigger] members@[a]) < paths@.len(),
    ensures
        r@.len() == members@.len(),
        forall|a: int| 0 <= a < members@.len() ==> (#[trigger] r@[a])@ == paths@[members@[a] as int]@,
{
    let mut r: Vec<String> = Vec::new();
    let mut a: usize = 0;
    while a < members.len()
        invariant
            a <= members@.len(),
            forall|b: int| 0 <= b < members@.len() ==> (#[trigger] members@[b]) < paths@.len(),
            r@.len() == a,
            forall|b: int| 0 <= b < a ==> (#[trigger] r@[b])@ == paths@[members@[b] as int]@,
        decreases members@.len() - a,
    {
        r.push(paths[members[a]].clone());
        a = a + 1;
    }
    r
}

/// The digest held by a class whose members all carry one.
fn class_digest(digests: &Vec<Option<String>>, members: &Vec<usize>) -> (r: String)
    requires
        is_class(digest_keys(digests@), members@),
    ensures
        digest_keys(digests@)[members@[0] as int] == Some(r@),
{
    match &digests[members[0]] {
        Some(d) => d.clone(),
        None => String::new(),
    }
}

/// Second phase: among files of one size, those whose heads hash alike, one
/// group per head digest, in the order in which the digest first occurs.
/// `heads[i]` is the head digest of `paths[i]`, `None` when it could not be
/// read.
pub fn head_groups(size: u64, paths: &Vec<String>, heads: &Vec<Option<String>>) -> (r: Vec<
    HeadHashGroup,
>)
    requires
        paths@.len() == heads@.len(),
    ensures
        exists|cls: Seq<Seq<usize>>|
            #![trigger duplicate_classes(digest_keys(heads@), cls)]
            duplicate_classes(digest_keys(heads@), cls) && r@.len() == cls.len() && forall|g: int|
                0 <= g < cls.len() ==> {
                    &&& (#[trigger] r@[g]).size == size
                    &&& digest_keys(heads@)[cls[g][0] as int] == Some(r@[g].head_hash@)
                    &&& r@[g].members@ == cls[g]
                    &&& r@[g].files@.len() == cls[g].len()
                    &&& forall|a: int|
                        0 <= a < cls[g].len() ==> (#[trigger] r@[g].files@[a])@ == paths@[cls[g][a] as int]@
                },
{
    let mut cls = partition_by_digest(heads);
    let ghost cv = lists_of(cls@);
    let mut r: Vec<HeadHashGroup> = Vec::new();
    let mut g: usize = 0;
    while g < cls.len()
        invariant
            g <= cls@.len() == cv.len(),
            forall|h: int| g <= h < cv.len() ==> (#[trigger] cls@[h])@ == cv[h],
            paths@.len() == heads@.len(),
            duplicate_classes(digest_keys(heads@), cv),
            r@.len() == g,
            forall|h: int|
                0 <= h < g ==> {
                    &&& (#[trigger] r@[h]).size == size
                    &&& digest_keys(heads@)[cv[h][0] as int] == Some(r@[h].head_hash@)
                    &&& r@[h].members@ == cv[h]
                    &&& r@[h].files@.len() == cv[h].len()
                    &&& forall|a: int|
                        0 <= a < cv[h].len() ==> (#[trigger] r@[h].files@[a])@ == paths@[cv[h][a] as int]@
                },
        decreases cls@.len() - g,
    {
        assert(is_class(digest_keys(heads@), cv[g as int]));
        assert(cls@[g as int]@ == cv[g as int]);
        let head_hash = class_digest(heads, &cls[g]);
        let files = clone_paths(paths, &cls[g]);
        let mut members: Vec<usize> = Vec::new();
        std::mem::swap(&mut members, &mut cls[g]);
        r.push(HeadHashGroup { size, head_hash, files, members });
        g = g + 1;
    }
    r
}

/// How many positions carry key `k`.
pub open spec fn count_key<K>(keys: Seq<Option<K>>, k: Option<K>) -> nat
    decreases keys.len(),
{
    if keys.len() == 0 {
        0
    } else {
        count_key(keys.drop_last(), k) + if keys.last() == k {
            1nat
        } else {
            0nat
        }
    }
}

/// An increasing list of indices below `n` that all carry `k` is no longer
/// than the count of `k` among the first `n` keys.
proof fn lemma_class_len<K>(keys: Seq<Option<K>>, g: Seq<usize>, k: Option<K>, n: int)
    requires
        0 <= n <= keys.len(),
        forall|a: int, b: int| 0 <= a < b < g.len() ==> g[a] < g[b],
        forall|a: int| 0 <= a < g.len() ==> (#[trigger] g[a]) < n && keys[g[a] as int] == k,
    ensures
        g.len() <= count_key(keys.take(n), k),
    decreases n,
{
    if n == 0 {
        if g.len() > 0 {
            assert(g[0] < 0);
        }
    } else {
        let t = keys.take(n);
        assert(t.drop_last() =~= keys.take(n - 1));
        if g.len() > 0 && g[g.len() - 1] == n - 1 {
            let h = g.drop_last();
            assert forall|a: int| 0 <= a < h.len() implies (#[trigger] h[a]) < n - 1 && keys[h[a] as int]
                == k by {
                assert(g[a] < g[g.len() - 1]);
            }
            lemma_class_len(keys, h, k, n - 1);
            assert(t.last() == k);
        } else {
            assert forall|a: int| 0 <= a < g.len() implies (#[trigger] g[a]) < n - 1 && keys[g[a] as int]
                == k by {
                if g[a] == n - 1 {
                    assert(g[a] < g[g.len() - 1] || a == g.len() - 1);
                }
            }
            lemma_class_len(keys, g, k, n - 1);
        }
    }
}

/// Bytes freed by keeping one of `count` copies of a `size`-byte file.
pub open spec fn waste_of(size: u64, count: nat) -> int {
    size * (count - 1)
}

/// Every digest's copies, but one, fit in a `u64` count of bytes.
pub open spec fn waste_fits(size: u64, digests: Seq<Option<String>>) -> bool {
    forall|i: int|
        0 <= i < digests.len() && (#[trigger] digest_keys(digests)[i]) is Some ==> waste_of(
            size,
            count_key(digest_keys(digests), digest_keys(digests)[i]),
        ) <= u64::MAX
}

/// How many positions carry the digest `d`.
fn count_digest(digests: &Vec<Option<String>>, d: &String) -> (r: u64)
    requires
        digests@.len() <= u64::MAX,
    ensures
        r == count_key(digest_keys(digests@), Some(d@)),
{
    let ghost keys = digest_keys(digests@);
    let mut c: u64 = 0;
    let mut j: usize = 0;
    while j < digests.len()
        invariant
            keys == digest_keys(digests@),
            digests@.len() <= u64::MAX,
            j <= digests@.len(),
            c == count_key(keys.take(j as int), Some(d@)),
            c <= j,
        decreases digests@.len() - j,
    {
        assert(keys.take(j + 1).drop_last() =~= keys.take(j as int));
        assert(keys.take(j + 1).last() == keys[j as int]);
        match &digests[j] {
            Some(x) => {
                if *x == *d {
                    c = c + 1;
                }
            },
            None => {},
        }
        j = j + 1;
    }
    assert(keys.take(keys.len() as int) =~= keys);
    c
}

/// A key that occurs is counted at least once.
proof fn lemma_count_present<K>(keys: Seq<Option<K>>, i: int)
    requires
        0 <= i < keys.len(),
    ensures
        count_key(keys, keys[i]) >= 1,
    decreases keys.len(),
{
    if i < keys.len() - 1 {
        lemma_count_present(keys.drop_last(), i);
    }
}

/// Whether [`waste_fits`] holds: whether every digest's copies, but one,
/// fit in a `u64` count of bytes.
pub fn check_waste_fits(size: u64, digests: &Vec<Option<String>>) -> (r: bool)
    ensures
        r == waste_fits(size, digests@),
{
    let ghost keys = digest_keys(digests@);
    let mut i: usize = 0;
    while i < digests.len()
        invariant
            keys == digest_keys(digests@),
            i <= digests@.len(),
            forall|k: int|
                0 <= k < i && (#[trigger] keys[k]) is Some ==> waste_of(size, count_key(keys, keys[k]))
                    <= u64::MAX,
        decreases digests@.len() - i,
    {
        match &digests[i] {
            Some(d) => {
                let c = count_digest(digests, d);
                assert(keys[i as int] == Some(d@));
                proof {
                    lemma_count_present(keys, i as int);
                }
                if size.checked_mul(c - 1).is_none() {
                    return false;
                }
            },
            None => {},
        }
        i = i + 1;
    }
    true
}

/// The [`DupFile`] reported for a path and its modification time.
pub open spec fn dup_file_of(f: DupFile, path: Seq<char>, mtime: Option<u64>) -> bool {
    &&& f.path@ == replace_char(path, '\\', '/')
    &&& match mtime {
        Some(t) => f.mtime is Some && f.mtime->0@ == decimal(t as nat),
        None => f.mtime is None,
    }
}

/// Third phase: among files whose heads hash alike, those whose whole
/// contents hash alike, one group per content digest, in the order in which
/// the digest first occurs. `full_hashes[i]` is the content digest of
/// `hg.files[i]` (`None` when it could not be read) and `mtimes[i]` its
/// modification time.
pub fn confirm_duplicates(
    hg: &HeadHashGroup,
    full_hashes: &Vec<Option<String>>,
    mtimes: &Vec<Option<u64>>,
) -> (r: Vec<DupGroup>)
    requires
        hg.files@.len() == full_hashes@.len(),
        mtimes@.len() == full_hashes@.len(),
        waste_fits(hg.size, full_hashes@),
    ensures
        exists|cls: Seq<Seq<usize>>|
            #![trigger duplicate_classes(digest_keys(full_hashes@), cls)]
            duplicate_classes(digest_keys(full_hashes@), cls) && r@.len() == cls.len() && forall|g: int|
                0 <= g < cls.len() ==> {
                    &&& digest_keys(full_hashes@)[cls[g][0] as int] == Some((#[trigger] r@[g]).hash@)
                    &&& r@[g].size == hg.size
                    &&& r@[g].waste_bytes == waste_of(hg.size, cls[g].len())
                    &&& r@[g].files@.len() == cls[g].len()
                    &&& forall|a: int|
                        0 <= a < cls[g].len() ==> dup_file_of(
                            #[trigger] r@[g].files@[a],
                            hg.files@[cls[g][a] as int]@,
                            mtimes@[cls[g][a] as int],
                        )
                },
{
    let ghost keys = digest_keys(full_hashes@);
    let cls = partition_by_digest(full_hashes);
    let ghost cv = lists_of(cls@);
    let mut r: Vec<DupGroup> = Vec::new();
    let mut g: usize = 0;
    while g < cls.len()
        invariant
            g <= cls@.len() == cv.len(),
            cv == lists_of(cls@),
            keys == digest_keys(full_hashes@),
            hg.files@.len() == full_hashes@.len() == keys.len(),
            mtimes@.len() == full_hashes@.len(),
            waste_fits(hg.size, full_hashes@),
            duplicate_classes(keys, cv),
            r@.len() == g,
            forall|h: int|
                0 <= h < g ==> {
                    &&& keys[cv[h][0] as int] == Some((#[trigger] r@[h]).hash@)
                    &&& r@[h].size == hg.size
                    &&& r@[h].waste_bytes == waste_of(hg.size, cv[h].len())
                    &&& r@[h].files@.len() == cv[h].len()
                    &&& forall|a: int|
                        0 <= a < cv[h].len() ==> dup_file_of(
                            #[trigger] r@[h].files@[a],
                            hg.files@[cv[h][a] as int]@,
                            mtimes@[cv[h][a] as int],
                        )
                },
        decreases cls@.len() - g,
    {
        let members = &cls[g];
        let ghost mv = cv[g as int];
        assert(members@ == mv);
        assert(is_class(keys, mv) && mv.len() >= 2);
        let hash = class_digest(full_hashes, members);
        proof {
            lemma_class_len(keys, mv, keys[mv[0] as int], keys.len() as int);
            assert(keys.take(keys.len() as int) =~= keys);
            let c = count_key(keys, keys[mv[0] as int]);
            assert(waste_of(hg.size, c) <= u64::MAX);
            assert(hg.size * (mv.len() - 1) <= hg.size * (c - 1)) by (nonlinear_arith)
                requires
                    mv.len() <= c,
                    mv.len() >= 2,
            ;
        }
        let waste = hg.size * ((members.len() as u64) - 1);
        let mut files: Vec<DupFile> = Vec::new();
        let mut a: usize = 0;
        while a < members.len()
            invariant
                members@ == mv,
                a <= mv.len(),
                is_class(keys, mv),
                hg.files@.len() == keys.len(),
                mtimes@.len() == keys.len(),
                files@.len() == a,
                forall|b: int|
                    0 <= b < a ==> dup_file_of(
                        #[trigger] files@[b],
                        hg.files@[mv[b] as int]@,
                        mtimes@[mv[b] as int],
                    ),
            decreases mv.len() - a,
        {
            let idx = members[a];
            assert(idx < keys.len());
            let path = dup_path(hg.files[idx].as_str());
            let mtime = mtime_string(mtimes[idx]);
            files.push(DupFile { path, mtime });
            a = a + 1;
        }
        r.push(DupGroup { hash, size: hg.size, files, waste_bytes: waste });
        g = g + 1;
    }
    r
}

// ───────────────────────────── the three phases together ─────────────────────────────

/// The keys at positions `idx`, in that order.
pub open spec fn restrict<K>(keys: Seq<Option<K>>, idx: Seq<usize>) -> Seq<Option<K>> {
    Seq::new(idx.len(), |a: int| keys[idx[a] as int])
}

/// The positions that `inner` picks out of `outer`.
pub open spec fn compose(outer: Seq<usize>, inner: Seq<usize>) -> Seq<usize> {
    Seq::new(inner.len(), |a: int| outer[inner[a] as int])
}

/// The files, by index, of a group reported by the three phases: the
/// `u`-th content class of the `t`-th head class of the `s`-th size group.
pub open spec fn final_group(
    size_groups: Seq<Seq<usize>>,
    head_cls: Seq<Seq<Seq<usize>>>,
    full_cls: Seq<Seq<Seq<Seq<usize>>>>,
    s: int,
    t: int,
    u: int,
) -> Seq<usize> {
    compose(compose(size_groups[s], head_cls[s][t]), full_cls[s][t][u])
}

/// The three phases run over files `0..sizes.len()`: `sizes`, `heads` and
/// `fulls` are each file's size key, head digest and content digest
/// (`None` when the file is left out or could not be read); the size groups
/// are the duplicate classes of the sizes; the head classes of each size
/// group those of its files' head digests; and the content classes of each
/// head class those of its files' content digests.
pub open spec fn phases_run(
    sizes: Seq<Option<u64>>,
    heads: Seq<Option<Seq<char>>>,
    fulls: Seq<Option<Seq<char>>>,
    size_groups: Seq<Seq<usize>>,
    head_cls: Seq<Seq<Seq<usize>>>,
    full_cls: Seq<Seq<Seq<Seq<usize>>>>,
) -> bool {
    &&& heads.len() == sizes.len()
    &&& fulls.len() == sizes.len()
    &&& duplicate_classes(sizes, size_groups)
    &&& head_cls.len() == size_groups.len()
    &&& full_cls.len() == size_groups.len()
    &&& forall|s: int|
        0 <= s < size_groups.len() ==> duplicate_classes(
            restrict(heads, size_groups[s]),
            #[trigger] head_cls[s],
        )
    &&& forall|s: int| 0 <= s < size_groups.len() ==> (#[trigger] full_cls[s]).len() == head_cls[s].len()
    &&& forall|s: int, t: int|
        0 <= s < size_groups.len() && 0 <= t < head_cls[s].len() ==> duplicate_classes(
            restrict(fulls, compose(size_groups[s], head_cls[s][t])),
            #[trigger] full_cls[s][t],
        )
}

/// Every reported group is made of at least two different files, listed in
/// increasing order, that all have the same size, head digest and content
/// digest.
pub proof fn lemma_final_group_sound(
    sizes: Seq<Option<u64>>,
    heads: Seq<Option<Seq<char>>>,
    fulls: Seq<Option<Seq<char>>>,
    size_groups: Seq<Seq<usize>>,
    head_cls: Seq<Seq<Seq<usize>>>,
    full_cls: Seq<Seq<Seq<Seq<usize>>>>,
    s: int,
    t: int,
    u: int,
    a: int,
    b: int,
)
    requires
        phases_run(sizes, heads, fulls, size_groups, head_cls, full_cls),
        0 <= s < size_groups.len(),
        0 <= t < head_cls[s].len(),
        0 <= u < full_cls[s][t].len(),
        0 <= a < final_group(size_groups, head_cls, full_cls, s, t, u).len(),
        0 <= b < final_group(size_groups, head_cls, full_cls, s, t, u).len(),
    ensures
        ({
            let g = final_group(size_groups, head_cls, full_cls, s, t, u);
            let p = g[a] as int;
            let q = g[b] as int;
            &&& g.len() >= 2
            &&& 0 <= p < sizes.len()
            &&& a < b ==> p < q
            &&& sizes[p] is Some && sizes[p] == sizes[q]
            &&& heads[p] is Some && heads[p] == heads[q]
            &&& fulls[p] is Some && fulls[p] == fulls[q]
        }),
{
    let g1 = size_groups[s];
    let c = head_cls[s][t];
    let f = full_cls[s][t][u];
    let hk = restrict(heads, g1);
    let g2 = compose(g1, c);
    let fk = restrict(fulls, g2);
    assert(is_class(sizes, g1));
    assert(duplicate_classes(hk, head_cls[s]));
    assert(is_class(hk, c));
    assert(duplicate_classes(fk, full_cls[s][t]));
    assert(is_class(fk, f));
    let g = compose(g2, f);
    assert(g == final_group(size_groups, head_cls, full_cls, s, t, u));
    // Each position of `g` goes back through the three classes.
    let xa = f[a] as int;
    let xb = f[b] as int;
    let x0 = f[0] as int;
    assert(xa < c.len() && xb < c.len() && x0 < c.len());
    let ya = c[xa] as int;
    let yb = c[xb] as int;
    let y0 = c[0] as int;
    assert(ya < g1.len() && yb < g1.len() && y0 < g1.len());
    let p = g1[ya] as int;
    let q = g1[yb] as int;
    assert(p < sizes.len());
    assert(g[a] == p && g[b] == q);
    // content digests agree through the content class
    assert(fk[xa] == fk[x0] && fk[xb] == fk[x0] && fk[x0] is Some);
    assert(fk[xa] == fulls[p] && fk[xb] == fulls[q]);
    // head digests agree through the head class
    assert(hk[ya] == hk[y0] && hk[yb] == hk[y0] && hk[y0] is Some);
    assert(hk[ya] == heads[p] && hk[yb] == heads[q]);
    // sizes agree through the size group
    assert(sizes[p] == sizes[g1[0] as int] && sizes[q] == sizes[g1[0] as int]);
    if a < b {
        assert(xa < xb);
        assert(ya < yb);
        assert(p < q);
    }
}

/// Two different files with the same size, head digest and content digest
/// are reported in one and the same group.
pub proof fn lemma_final_group_complete(
    sizes: Seq<Option<u64>>,
    heads: Seq<Option<Seq<char>>>,
    fulls: Seq<Option<Seq<char>>>,
    size_groups: Seq<Seq<usize>>,
    head_cls: Seq<Seq<Seq<usize>>>,
    full_cls: Seq<Seq<Seq<Seq<usize>>>>,
    i: int,
    j: int,
)
    requires
        phases_run(sizes, heads, fulls, size_groups, head_cls, full_cls),
        0 <= i < sizes.len(),
        0 <= j < sizes.len(),
        i != j,
        sizes[i] is Some && sizes[i] == sizes[j],
        heads[i] is Some && heads[i] == heads[j],
        fulls[i] is Some && fulls[i] == fulls[j],
    ensures
        exists|s: int, t: int, u: int, a: int, b: int|
            #![trigger final_group(size_groups, head_cls, full_cls, s, t, u)[a], final_group(size_groups, head_cls, full_cls, s, t, u)[b]]
            0 <= s < size_groups.len() && 0 <= t < head_cls[s].len() && 0 <= u < full_cls[s][t].len()
                && 0 <= a < final_group(size_groups, head_cls, full_cls, s, t, u).len() && 0 <= b
                < final_group(size_groups, head_cls, full_cls, s, t, u).len()
                && final_group(size_groups, head_cls, full_cls, s, t, u)[a] == i
                && final_group(size_groups, head_cls, full_cls, s, t, u)[b] == j,
{
    // the size group of `i` and `j`
    assert(sizes[j] == sizes[i]);
    assert(has_twin(sizes, i));
    let (s, a0) = choose|s: int, a0: int|
        0 <= s < size_groups.len() && 0 <= a0 < size_groups[s].len() && #[trigger] size_groups[s][a0] == i;
    let g1 = size_groups[s];
    assert(is_class(sizes, g1));
    assert(sizes[i] == sizes[g1[0] as int]);
    assert(sizes[j] == sizes[g1[0] as int]);
    let b0 = choose|b0: int| 0 <= b0 < g1.len() && g1[b0] == j;
    // the head class of their positions in it
    let hk = restrict(heads, g1);
    assert(duplicate_classes(hk, head_cls[s]));
    assert(hk[a0] == heads[i] && hk[b0] == heads[j]);
    assert(a0 != b0);
    assert(hk[b0] == hk[a0]);
    assert(has_twin(hk, a0));
    let (t, x0) = choose|t: int, x0: int|
        0 <= t < head_cls[s].len() && 0 <= x0 < head_cls[s][t].len() && #[trigger] head_cls[s][t][x0] == a0;
    let c = head_cls[s][t];
    assert(is_class(hk, c));
    assert(hk[a0] == hk[c[0] as int]);
    assert(hk[b0] == hk[c[0] as int]);
    let y0 = choose|y0: int| 0 <= y0 < c.len() && c[y0] == b0;
    // the content class of their positions in that
    let g2 = compose(g1, c);
    let fk = restrict(fulls, g2);
    assert(duplicate_classes(fk, full_cls[s][t]));
    assert(fk[x0] == fulls[i] && fk[y0] == fulls[j]);
    assert(x0 != y0);
    assert(fk[y0] == fk[x0]);
    assert(has_twin(fk, x0));
    let (u, a) = choose|u: int, a: int|
        0 <= u < full_cls[s][t].len() && 0 <= a < full_cls[s][t][u].len() && #[trigger] full_cls[s][t][u][a] == x0;
    let f = full_cls[s][t][u];
    assert(is_class(fk, f));
    assert(fk[x0] == fk[f[0] as int]);
    assert(fk[y0] == fk[f[0] as int]);
    let b = choose|b: int| 0 <= b < f.len() && f[b] == y0;
    let g = final_group(size_groups, head_cls, full_cls, s, t, u);
    assert(g == compose(g2, f));
    assert(g[a] == i);
    assert(g[b] == j);
}

/// Two classes of one duplicate partition that share an index are the same class.
proof fn lemma_shared_index_same_class<K>(keys: Seq<Option<K>>, groups: Seq<Seq<usize>>, g: int, h: int, a: int, b: int)
    requires
        duplicate_classes(keys, groups),
        0 <= g < groups.len(),
        0 <= h < groups.len(),
        0 <= a < groups[g].len(),
        0 <= b < groups[h].len(),
        groups[g][a] == groups[h][b],
    ensures
        g == h,
{
    if g < h {
        lemma_groups_disjoint(keys, groups, g, h, a, b);
    } else if h < g {
        lemma_groups_disjoint(keys, groups, h, g, b, a);
    }
}

/// Within one class, equal members sit at equal positions.
proof fn lemma_class_injective<K>(keys: Seq<Option<K>>, c: Seq<usize>, a: int, b: int)
    requires
        is_class(keys, c),
        0 <= a < c.len(),
        0 <= b < c.len(),
        c[a] == c[b],
    ensures
        a == b,
{
    if a < b {
        assert(c[a] < c[b]);
    } else if b < a {
        assert(c[b] < c[a]);
    }
}

/// No file is reported in two groups.
pub proof fn lemma_final_groups_disjoint(
    sizes: Seq<Option<u64>>,
    heads: Seq<Option<Seq<char>>>,
    fulls: Seq<Option<Seq<char>>>,
    size_groups: Seq<Seq<usize>>,
    head_cls: Seq<Seq<Seq<usize>>>,
    full_cls: Seq<Seq<Seq<Seq<usize>>>>,
    s: int,
    t: int,
    u: int,
    a: int,
    s2: int,
    t2: int,
    u2: int,
    b: int,
)
    requires
        phases_run(sizes, heads, fulls, size_groups, head_cls, full_cls),
        0 <= s < size_groups.len(),
        0 <= t < head_cls[s].len(),
        0 <= u < full_cls[s][t].len(),
        0 <= a < final_group(size_groups, head_cls, full_cls, s, t, u).len(),
        0 <= s2 < size_groups.len(),
        0 <= t2 < head_cls[s2].len(),
        0 <= u2 < full_cls[s2][t2].len(),
        0 <= b < final_group(size_groups, head_cls, full_cls, s2, t2, u2).len(),
        (s, t, u) != (s2, t2, u2),
    ensures
        final_group(size_groups, head_cls, full_cls, s, t, u)[a] != final_group(
            size_groups,
            head_cls,
            full_cls,
            s2,
            t2,
            u2,
        )[b],
{
    let g1 = size_groups[s];
    let c = head_cls[s][t];
    let f = full_cls[s][t][u];
    let g1b = size_groups[s2];
    let cb = head_cls[s2][t2];
    let fb = full_cls[s2][t2][u2];
    let hk = restrict(heads, g1);
    let fk = restrict(fulls, compose(g1, c));
    let hkb = restrict(heads, g1b);
    let fkb = restrict(fulls, compose(g1b, cb));
    assert(is_class(sizes, g1) && is_class(sizes, g1b));
    assert(duplicate_classes(hk, head_cls[s]) && duplicate_classes(hkb, head_cls[s2]));
    assert(is_class(hk, c) && is_class(hkb, cb));
    assert(duplicate_classes(fk, full_cls[s][t]) && duplicate_classes(fkb, full_cls[s2][t2]));
    assert(is_class(fk, f) && is_class(fkb, fb));
    let xa = f[a] as int;
    let xb = fb[b] as int;
    let ya = c[xa] as int;
    let yb = cb[xb] as int;
    assert(final_group(size_groups, head_cls, full_cls, s, t, u)[a] == g1[ya]);
    assert(final_group(size_groups, head_cls, full_cls, s2, t2, u2)[b] == g1b[yb]);
    if g1[ya] == g1b[yb] {
        lemma_shared_index_same_class(sizes, size_groups, s, s2, ya, yb);
        lemma_class_injective(sizes, g1, ya, yb);
        lemma_shared_index_same_class(hk, head_cls[s], t, t2, xa, xb);
        lemma_class_injective(hk, c, xa, xb);
        lemma_shared_index_same_class(fk, full_cls[s][t], u, u2, a, b);
        assert(false);
    }
}

/// The waste of each group.
pub open spec fn wastes(groups: Seq<DupGroup>) -> Seq<u64> {
    groups.map_values(|g: DupGroup| g.waste_bytes)
}

/// Orders groups by waste, largest first; groups of equal waste keep their
/// order.
pub fn sort_by_waste(groups: Vec<DupGroup>) -> (r: Vec<DupGroup>)
    ensures
        r@.len() == groups@.len(),
        exists|p: Seq<usize>|
            #![trigger is_permutation(p, groups@.len())]
            is_permutation(p, groups@.len()) && sorted_desc_stable(wastes(groups@), p) && forall|i: int|
                0 <= i < r@.len() ==> #[trigger] r@[i] == groups@[p[i] as int],
{
    let ghost orig = groups@;
    let n = groups.len();
    let mut keys: Vec<u64> = Vec::new();
    let mut i: usize = 0;
    while i < n
        invariant
            n == orig.len() == groups@.len(),
            groups@ == orig,
            i <= n,
            keys@ == wastes(orig).take(i as int),
        decreases n - i,
    {
        keys.push(groups[i].waste_bytes);
        i = i + 1;
        assert(keys@ =~= wastes(orig).take(i as int));
    }
    assert(keys@ =~= wastes(orig));
    let p = stable_order_desc(&keys);
    take_in_order(groups, &p)
}

/// Total waste of the groups.
pub open spec fn total_waste(groups: Seq<DupGroup>) -> int
    decreases groups.len(),
{
    if groups.len() == 0 {
        0
    } else {
        total_waste(groups.drop_last()) + groups.last().waste_bytes
    }
}

/// Total number of files in the groups.
pub open spec fn total_files(groups: Seq<DupGroup>) -> int
    decreases groups.len(),
{
    if groups.len() == 0 {
        0
    } else {
        total_files(groups.drop_last()) + groups.last().files@.len()
    }
}

proof fn lemma_totals_prefix(groups: Seq<DupGroup>, i: int, j: int)
    requires
        0 <= i <= j <= groups.len(),
    ensures
        total_waste(groups.take(i)) <= total_waste(groups.take(j)),
        total_files(groups.take(i)) <= total_files(groups.take(j)),
    decreases j - i,
{
    if i < j {
        lemma_totals_prefix(groups, i, j - 1);
        assert(groups.take(j).drop_last() =~= groups.take(j - 1));
    }
}

/// A report on duplicates.
#[derive(Debug)]
pub struct DedupReport {
    /// The number of groups reported.
    pub total_groups: usize,
    /// Files in all groups found, reported or not.
    pub total_dup_files: usize,
    /// Waste of all groups found, reported or not.
    pub total_waste_bytes: u64,
    /// The first `top` groups (all of them when `top` is 0).
    pub groups: Vec<DupGroup>,
}

/// Sums up the groups found and keeps the first `top` of them (all when
/// `top` is 0). The totals cover every group found.
pub fn summarize_duplicates(groups: Vec<DupGroup>, top: usize) -> (r: DedupReport)
    requires
        total_waste(groups@) <= u64::MAX,
        total_files(groups@) <= usize::MAX,
    ensures
        r.total_waste_bytes == total_waste(groups@),
        r.total_dup_files == total_files(groups@),
        r.groups@ == (if top > 0 && top < groups@.len() {
            groups@.take(top as int)
        } else {
            groups@
        }),
        r.total_groups == r.groups@.len(),
{
    let ghost all = groups@;
    let mut waste: u64 = 0;
    let mut files: usize = 0;
    let mut i: usize = 0;
    while i < groups.len()
        invariant
            all == groups@,
            i <= all.len(),
            total_waste(all) <= u64::MAX,
            total_files(all) <= usize::MAX,
            waste == total_waste(all.take(i as int)),
            files == total_files(all.take(i as int)),
        decreases all.len() - i,
    {
        proof {
            lemma_totals_prefix(all, i + 1, all.len() as int);
            assert(all.take(all.len() as int) =~= all);
            assert(all.take(i + 1).drop_last() =~= all.take(i as int));
        }
        waste = waste + groups[i].waste_bytes;
        files = files + groups[i].files.len();
        i = i + 1;
    }
    assert(all.take(all.len() as int) =~= all);
    let mut groups = groups;
    if top > 0 {
        groups.truncate(top);
    }
    let n = groups.len();
    DedupReport { total_groups: n, total_dup_files: files, total_waste_bytes: waste, groups }
}

} // verus!
