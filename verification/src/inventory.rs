//! Installed-software inventory and leftover search.
//!
//! The host reads the registry's `Uninstall` keys and the app-data
//! directories; the rules for turning what it read into the inventory, for
//! finding an application by name, and for recognising leftovers are here.

use vstd::prelude::*;
use crate::sort::{
    is_permutation, lemma_lex_irreflexive, lemma_lex_total, lemma_permutation_onto, lex_lt,
    sorted_lex_stable, stable_order_lex,
};
use crate::text::{
    ascii_lower_seq, chars_of, eq_ignore_ascii_case, eq_ignore_ascii_case_exec, has_sub,
    is_ascii_seq, lowercase, contains,
    replace_char, replace_char_exec, string_of, trim_end_char, trim_end_char_exec,
    unicode_lowercase,
};

verus! {

/// One installed application as the registry lists it.
#[derive(Debug, Clone)]
pub struct InstalledApp {
    pub name: String,
    pub version: Option<String>,
    pub publisher: Option<String>,
    pub install_path: Option<String>,
    pub install_date: Option<String>,
    pub estimated_size_mb: Option<u64>,
    pub uninstall_string: Option<String>,
    pub is_per_user: bool,
}

/// Leftovers of an uninstalled application.
#[derive(Debug)]
pub struct LeftoverResult {
    pub app_name: String,
    pub found_paths: Vec<LeftoverPath>,
    pub total_size_bytes: u64,
}

#[derive(Debug)]
pub struct LeftoverPath {
    pub path: String,
    pub size_bytes: u64,
    pub is_dir: bool,
}

/// An entry found directly inside an app-data directory (or that directory
/// itself), with its size (the total of the files below it for a directory).
#[derive(Debug)]
pub struct DirEntryInfo {
    pub file_name: String,
    pub path: String,
    pub is_dir: bool,
    pub size_bytes: u64,
}

fn clone_opt(s: &Option<String>) -> (r: Option<String>)
    ensures
        r == *s,
{
    match s {
        Some(x) => Some(x.clone()),
        None => None,
    }
}

/// A field-by-field copy.
pub fn copy_app(a: &InstalledApp) -> (r: InstalledApp)
    ensures
        r == *a,
{
    InstalledApp {
        name: a.name.clone(),
        version: clone_opt(&a.version),
        publisher: clone_opt(&a.publisher),
        install_path: clone_opt(&a.install_path),
        install_date: clone_opt(&a.install_date),
        estimated_size_mb: a.estimated_size_mb,
        uninstall_string: clone_opt(&a.uninstall_string),
        is_per_user: a.is_per_user,
    }
}

// ───────────────────────────── find by name ─────────────────────────────

/// The name contains the query, ignoring case.
pub open spec fn name_matches(name: Seq<char>, query: Seq<char>) -> bool {
    has_sub(unicode_lowercase(name), unicode_lowercase(query))
}

/// Whether a directory entry named `file_name` is a leftover of `app_name`:
/// its name contains the application name, ignoring case.
pub fn is_leftover_name(app_name: &str, file_name: &str) -> (r: bool)
    ensures
        r == name_matches(file_name@, app_name@),
{
    let name = lowercase(&chars_of(file_name));
    let query = lowercase(&chars_of(app_name));
    contains(&name, &query)
}

/// The applications whose name matches, in order.
pub open spec fn matching_apps(apps: Seq<InstalledApp>, query: Seq<char>) -> Seq<InstalledApp>
    decreases apps.len(),
{
    if apps.len() == 0 {
        Seq::empty()
    } else if name_matches(apps.last().name@, query) {
        matching_apps(apps.drop_last(), query).push(apps.last())
    } else {
        matching_apps(apps.drop_last(), query)
    }
}

/// The applications whose name contains `query`, ignoring case, in order.
pub fn find_by_name<'a>(apps: &'a [InstalledApp], query: &str) -> (r: Vec<&'a InstalledApp>)
    ensures
        r@.len() == matching_apps(apps@, query@).len(),
        forall|i: int| 0 <= i < r@.len() ==> *r@[i] == #[trigger] matching_apps(apps@, query@)[i],
{
    let q = lowercase(&chars_of(query));
    let mut r: Vec<&'a InstalledApp> = Vec::new();
    let mut i: usize = 0;
    while i < apps.len()
        invariant
            i <= apps@.len(),
            q@ == unicode_lowercase(query@),
            r@.len() == matching_apps(apps@.take(i as int), query@).len(),
            forall|k: int| 0 <= k < r@.len() ==> *r@[k] == #[trigger] matching_apps(apps@.take(i as int), query@)[k],
        decreases apps.len() - i,
    {
        assert(apps@.take(i + 1).drop_last() =~= apps@.take(i as int));
        assert(apps@.take(i + 1).last() == apps@[i as int]);
        let a = &apps[i];
        let name = lowercase(&chars_of(a.name.as_str()));
        if contains(&name, &q) {
            r.push(a);
        }
        i = i + 1;
    }
    assert(apps@.take(apps@.len() as int) =~= apps@);
    r
}

// ───────────────────────────── registry ─────────────────────────────

/// A string registry value: trailing NULs removed, `None` when nothing is left.
pub fn reg_string_value(raw: String) -> (r: Option<String>)
    ensures
        trim_end_char(raw@, '\0').len() == 0 ==> r is None,
        trim_end_char(raw@, '\0').len() > 0 ==> (r matches Some(s) && s@ == trim_end_char(raw@, '\0')),
{
    let t = trim_end_char_exec(&chars_of(raw.as_str()), '\0');
    if t.len() == 0 {
        None
    } else {
        Some(string_of(&t))
    }
}

/// Builds the inventory record of one `Uninstall` subkey from the values
/// read there; without a `DisplayName` there is no record. `EstimatedSize`
/// is in KB and becomes whole MB.
pub fn app_from_registry(
    name: Option<String>,
    version: Option<String>,
    publisher: Option<String>,
    install_path: Option<String>,
    install_date: Option<String>,
    uninstall_string: Option<String>,
    estimated_size_kb: Option<u32>,
    is_per_user: bool,
) -> (r: Option<InstalledApp>)
    ensures
        name is None ==> r is None,
        name matches Some(n) ==> (r matches Some(a) && a.name == n && a.version == version
            && a.publisher == publisher && a.install_path == install_path && a.install_date
            == install_date && a.uninstall_string == uninstall_string && a.is_per_user
            == is_per_user && a.estimated_size_mb == (match estimated_size_kb {
            Some(k) => Some((k / 1024) as u64),
            None => None,
        })),
{
    match name {
        None => None,
        Some(n) => {
            let estimated_size_mb = match estimated_size_kb {
                Some(k) => Some((k as u64) / 1024),
                None => None,
            };
            Some(
                InstalledApp {
                    name: n,
                    version,
                    publisher,
                    install_path,
                    install_date,
                    estimated_size_mb,
                    uninstall_string,
                    is_per_user,
                },
            )
        },
    }
}

/// The records with a non-empty name, in order.
pub open spec fn named_apps(apps: Seq<InstalledApp>) -> Seq<InstalledApp>
    decreases apps.len(),
{
    if apps.len() == 0 {
        Seq::empty()
    } else if apps.last().name@.len() > 0 {
        named_apps(apps.drop_last()).push(apps.last())
    } else {
        named_apps(apps.drop_last())
    }
}

/// `Vec::dedup_by` with `eq_ignore_ascii_case` on names: an application is
/// dropped when its name equals, ignoring ASCII case, the name of the last
/// one kept.
pub open spec fn dedup_names(apps: Seq<InstalledApp>) -> Seq<InstalledApp>
    decreases apps.len(),
{
    if apps.len() == 0 {
        Seq::empty()
    } else {
        let kept = dedup_names(apps.drop_last());
        if kept.len() > 0 && eq_ignore_ascii_case(apps.last().name@, kept.last().name@) {
            kept
        } else {
            kept.push(apps.last())
        }
    }
}

pub open spec fn lower_names(apps: Seq<InstalledApp>) -> Seq<Seq<char>> {
    apps.map_values(|a: InstalledApp| unicode_lowercase(a.name@))
}

/// A name lowercased in ASCII: what `eq_ignore_ascii_case` compares.
pub open spec fn ascii_key(a: InstalledApp) -> Seq<char> {
    ascii_lower_seq(a.name@)
}

/// `s[t]` is the first record of `s` with its [`ascii_key`].
#[verifier::opaque]
pub open spec fn first_with_key(s: Seq<InstalledApp>, t: int) -> bool {
    forall|u: int| 0 <= u < t ==> ascii_key(#[trigger] s[u]) != ascii_key(s[t])
}

/// De-duplicating a list sorted by [`ascii_key`] leaves keys in strictly
/// increasing order, each kept record taken from the list.
proof fn lemma_dedup_sorted_increasing(s: Seq<InstalledApp>)
    requires
        forall|a: int, b: int|
            0 <= a < b < s.len() ==> !lex_lt(ascii_key(#[trigger] s[b]), ascii_key(#[trigger] s[a])),
    ensures
        forall|a: int, b: int|
            0 <= a < b < dedup_names(s).len() ==> lex_lt(
                ascii_key(#[trigger] dedup_names(s)[a]),
                ascii_key(#[trigger] dedup_names(s)[b]),
            ),
        forall|a: int|
            0 <= a < dedup_names(s).len() ==> exists|i: int|
                0 <= i < s.len() && #[trigger] dedup_names(s)[a] == s[i],
    decreases s.len(),
{
    if s.len() > 0 {
        let init = s.drop_last();
        let last = s.last();
        let n = s.len() - 1;
        assert forall|a: int, b: int| 0 <= a < b < init.len() implies !lex_lt(
            ascii_key(#[trigger] init[b]),
            ascii_key(#[trigger] init[a]),
        ) by {
            assert(init[a] == s[a] && init[b] == s[b]);
        }
        lemma_dedup_sorted_increasing(init);
        let d0 = dedup_names(init);
        let d = dedup_names(s);
        assert forall|a: int| 0 <= a < d0.len() implies exists|i: int|
            0 <= i < n && #[trigger] d0[a] == s[i] by {
            let i = choose|i: int| 0 <= i < init.len() && #[trigger] d0[a] == init[i];
            assert(init[i] == s[i]);
        }
        if d0.len() > 0 && eq_ignore_ascii_case(last.name@, d0.last().name@) {
            assert(d == d0);
            assert forall|a: int| 0 <= a < d.len() implies exists|i: int|
                0 <= i < s.len() && #[trigger] d[a] == s[i] by {
                let i = choose|i: int| 0 <= i < n && #[trigger] d0[a] == s[i];
            }
        } else {
            assert(d == d0.push(last));
            assert forall|a: int| 0 <= a < d0.len() implies lex_lt(ascii_key(d0[a]), ascii_key(last)) by {
                let i = choose|i: int| 0 <= i < n && #[trigger] d0[a] == s[i];
                assert(!lex_lt(ascii_key(s[n]), ascii_key(s[i])));
                lemma_lex_total(ascii_key(d0[a]), ascii_key(last));
                if ascii_key(d0[a]) =~= ascii_key(last) {
                    let t = d0.len() - 1;
                    if a == t {
                        assert(eq_ignore_ascii_case(last.name@, d0.last().name@));
                    } else {
                        assert(lex_lt(ascii_key(d0[a]), ascii_key(d0[t])));
                        let j = choose|j: int| 0 <= j < n && #[trigger] d0[t] == s[j];
                        assert(!lex_lt(ascii_key(s[n]), ascii_key(s[j])));
                    }
                }
            }
            assert forall|a: int, b: int| 0 <= a < b < d.len() implies lex_lt(
                ascii_key(#[trigger] d[a]),
                ascii_key(#[trigger] d[b]),
            ) by {
                assert(d[a] == d0[a]);
                if b < d0.len() {
                    assert(d[b] == d0[b]);
                } else {
                    assert(d[b] == last);
                }
            }
            assert forall|a: int| 0 <= a < d.len() implies exists|i: int|
                0 <= i < s.len() && #[trigger] d[a] == s[i] by {
                if a < d0.len() {
                    let i = choose|i: int| 0 <= i < n && #[trigger] d0[a] == s[i];
                    assert(d[a] == d0[a]);
                } else {
                    assert(d[a] == s[n]);
                }
            }
        }
    }
}

/// De-duplicating loses no name: every record's name equals, ignoring
/// ASCII case, that of a kept record.
proof fn lemma_dedup_complete(s: Seq<InstalledApp>)
    ensures
        forall|j: int|
            0 <= j < s.len() ==> exists|a: int|
                0 <= a < dedup_names(s).len() && ascii_key(#[trigger] dedup_names(s)[a]) == ascii_key(
                    #[trigger] s[j],
                ),
    decreases s.len(),
{
    if s.len() > 0 {
        let init = s.drop_last();
        let last = s.last();
        let n = s.len() - 1;
        lemma_dedup_complete(init);
        let d0 = dedup_names(init);
        let d = dedup_names(s);
        let dropped = d0.len() > 0 && eq_ignore_ascii_case(last.name@, d0.last().name@);
        assert(dropped ==> d == d0);
        assert(!dropped ==> d == d0.push(last));
        assert forall|j: int| 0 <= j < s.len() implies exists|a: int|
            0 <= a < d.len() && ascii_key(#[trigger] d[a]) == ascii_key(#[trigger] s[j]) by {
            if j < n {
                assert(init[j] == s[j]);
                let a = choose|a: int| 0 <= a < d0.len() && ascii_key(#[trigger] d0[a]) == ascii_key(#[trigger] init[j]);
                assert(d[a] == d0[a]);
            } else if dropped {
                assert(ascii_key(d[d0.len() - 1]) == ascii_key(s[j]));
            } else {
                assert(d[d.len() - 1] == s[j]);
            }
        }
    }
}

/// De-duplicating a list sorted by [`ascii_key`] keeps of each key its first
/// record.
proof fn lemma_dedup_sorted_first(s: Seq<InstalledApp>)
    requires
        forall|a: int, b: int|
            0 <= a < b < s.len() ==> !lex_lt(ascii_key(#[trigger] s[b]), ascii_key(#[trigger] s[a])),
    ensures
        forall|a: int|
            0 <= a < dedup_names(s).len() ==> exists|t: int|
                0 <= t < s.len() && first_with_key(s, t) && #[trigger] dedup_names(s)[a] == s[t],
    decreases s.len(),
{
    if s.len() > 0 {
        let init = s.drop_last();
        let last = s.last();
        let n = s.len() - 1;
        assert forall|a: int, b: int| 0 <= a < b < init.len() implies !lex_lt(
            ascii_key(#[trigger] init[b]),
            ascii_key(#[trigger] init[a]),
        ) by {
            assert(init[a] == s[a] && init[b] == s[b]);
        }
        lemma_dedup_sorted_first(init);
        lemma_dedup_complete(init);
        lemma_dedup_sorted_increasing(s);
        let d0 = dedup_names(init);
        let d = dedup_names(s);
        let dropped = d0.len() > 0 && eq_ignore_ascii_case(last.name@, d0.last().name@);
        assert(dropped ==> d == d0);
        assert(!dropped ==> d == d0.push(last));
        assert forall|a: int| 0 <= a < d0.len() implies exists|t: int|
            0 <= t < n && first_with_key(s, t) && #[trigger] d0[a] == s[t] by {
            let t = choose|t: int| 0 <= t < init.len() && first_with_key(init, t) && #[trigger] d0[a] == init[t];
            assert(init[t] == s[t]);
            reveal(first_with_key);
            assert forall|u: int| 0 <= u < t implies ascii_key(#[trigger] s[u]) != ascii_key(s[t]) by {
                assert(init[u] == s[u]);
            }
        }
        if !dropped {
            // every earlier record shares its key with a kept one, all below `last`'s
            assert(first_with_key(s, n)) by {
                reveal(first_with_key);
                assert forall|u: int| 0 <= u < n implies ascii_key(#[trigger] s[u]) != ascii_key(s[n]) by {
                    assert(init[u] == s[u]);
                    let a = choose|a: int| 0 <= a < d0.len() && ascii_key(#[trigger] d0[a]) == ascii_key(#[trigger] init[u]);
                    assert(d[a] == d0[a]);
                    assert(d[d.len() - 1] == last);
                    assert(lex_lt(ascii_key(d[a]), ascii_key(d[d.len() - 1])));
                    lemma_lex_irreflexive(ascii_key(last));
                }
            }
        }
        assert forall|a: int| 0 <= a < d.len() implies exists|t: int|
            0 <= t < s.len() && first_with_key(s, t) && #[trigger] d[a] == s[t] by {
            if a < d0.len() {
                assert(d[a] == d0[a]);
            } else {
                assert(d[a] == s[n]);
            }
        }
    }
}

/// The records of `nm` in the order `order`.
pub open spec fn visit(nm: Seq<InstalledApp>, order: Seq<usize>) -> Seq<InstalledApp> {
    order.map_values(|k: usize| nm[k as int])
}

/// `order` visits `nm` stably sorted by [`ascii_key`].
pub open spec fn stable_by_key(nm: Seq<InstalledApp>, order: Seq<usize>) -> bool {
    &&& is_permutation(order, nm.len())
    &&& forall|a: int, b: int|
        #![trigger order[a], order[b]]
        0 <= a < b < order.len() ==> !lex_lt(
            ascii_key(nm[order[b] as int]),
            ascii_key(nm[order[a] as int]),
        ) && (ascii_key(nm[order[a] as int]) == ascii_key(nm[order[b] as int]) ==> order[a]
            < order[b])
}

proof fn lemma_sorted_view(nm: Seq<InstalledApp>, order: Seq<usize>)
    requires
        stable_by_key(nm, order),
    ensures
        forall|a: int, b: int|
            0 <= a < b < order.len() ==> !lex_lt(
                ascii_key(#[trigger] visit(nm, order)[b]),
                ascii_key(#[trigger] visit(nm, order)[a]),
            ),
{
    let sorted = visit(nm, order);
    assert forall|a: int, b: int| 0 <= a < b < sorted.len() implies !lex_lt(
        ascii_key(#[trigger] sorted[b]),
        ascii_key(#[trigger] sorted[a]),
    ) by {
        assert(sorted[a] == nm[order[a] as int] && sorted[b] == nm[order[b] as int]);
    }
}

#[verifier::spinoff_prover]
proof fn lemma_inventory_distinct(nm: Seq<InstalledApp>, order: Seq<usize>, out: Seq<InstalledApp>)
    requires
        stable_by_key(nm, order),
        out == dedup_names(visit(nm, order)),
    ensures
        forall|a: int, b: int|
            0 <= a < b < out.len() ==> !eq_ignore_ascii_case(
                (#[trigger] out[a]).name@,
                (#[trigger] out[b]).name@,
            ),
{
    lemma_sorted_view(nm, order);
    lemma_dedup_sorted_increasing(visit(nm, order));
    assert forall|a: int, b: int| 0 <= a < b < out.len() implies !eq_ignore_ascii_case(
        (#[trigger] out[a]).name@,
        (#[trigger] out[b]).name@,
    ) by {
        assert(lex_lt(ascii_key(out[a]), ascii_key(out[b])));
        if eq_ignore_ascii_case(out[a].name@, out[b].name@) {
            lemma_lex_irreflexive(ascii_key(out[a]));
            assert(ascii_key(out[a]) == ascii_key(out[b]));
        }
    }
}

#[verifier::spinoff_prover]
proof fn lemma_inventory_complete(nm: Seq<InstalledApp>, order: Seq<usize>, out: Seq<InstalledApp>)
    requires
        stable_by_key(nm, order),
        out == dedup_names(visit(nm, order)),
    ensures
        forall|i: int|
            0 <= i < nm.len() ==> exists|a: int|
                0 <= a < out.len() && eq_ignore_ascii_case(
                    (#[trigger] out[a]).name@,
                    (#[trigger] nm[i]).name@,
                ),
{
    let sorted = visit(nm, order);
    lemma_dedup_complete(sorted);
    assert forall|i: int| 0 <= i < nm.len() implies exists|a: int|
        0 <= a < out.len() && eq_ignore_ascii_case((#[trigger] out[a]).name@, (#[trigger] nm[i]).name@) by {
        lemma_permutation_onto(order, nm.len(), i);
        let u = choose|u: int| 0 <= u < order.len() && order[u] == i;
        assert(sorted[u] == nm[i]);
        let a = choose|a: int| 0 <= a < out.len() && ascii_key(#[trigger] out[a]) == ascii_key(#[trigger] sorted[u]);
        assert(ascii_lower_seq(out[a].name@) =~= ascii_lower_seq(nm[i].name@));
    }
}

#[verifier::spinoff_prover]
proof fn lemma_inventory_first(nm: Seq<InstalledApp>, order: Seq<usize>, out: Seq<InstalledApp>)
    requires
        stable_by_key(nm, order),
        out == dedup_names(visit(nm, order)),
    ensures
        forall|a: int|
            0 <= a < out.len() ==> exists|i: int|
                0 <= i < nm.len() && #[trigger] out[a] == nm[i] && forall|j: int|
                    0 <= j < i ==> !eq_ignore_ascii_case((#[trigger] nm[j]).name@, nm[i].name@),
{
    let sorted = visit(nm, order);
    lemma_sorted_view(nm, order);
    lemma_dedup_sorted_first(sorted);
    assert forall|a: int| 0 <= a < out.len() implies exists|i: int|
        0 <= i < nm.len() && #[trigger] out[a] == nm[i] && forall|j: int|
            0 <= j < i ==> !eq_ignore_ascii_case((#[trigger] nm[j]).name@, nm[i].name@) by {
        let t = choose|t: int| 0 <= t < sorted.len() && first_with_key(sorted, t) && #[trigger] out[a] == sorted[t];
        let i = order[t] as int;
        assert(out[a] == nm[i]);
        assert forall|j: int| 0 <= j < i implies !eq_ignore_ascii_case((#[trigger] nm[j]).name@, nm[i].name@) by {
            if eq_ignore_ascii_case(nm[j].name@, nm[i].name@) {
                assert(ascii_key(nm[j]) == ascii_key(nm[i]));
                lemma_permutation_onto(order, nm.len(), j);
                let u = choose|u: int| 0 <= u < order.len() && order[u] == j;
                assert(sorted[u] == nm[j] && sorted[t] == nm[i]);
                if u < t {
                    reveal(first_with_key);
                    assert(ascii_key(sorted[u]) != ascii_key(sorted[t]));
                } else {
                    assert(u != t);
                    assert(order[t] < order[u]);
                }
            }
        }
    }
}

/// The records read from the three `Uninstall` keys become the inventory:
/// records without a name are dropped, the rest are sorted stably by
/// lowercased name, and runs of names equal ignoring ASCII case keep their
/// first record.
#[verifier::spinoff_prover]
#[verifier::rlimit(40)]
pub fn list_installed_apps(registry_apps: Vec<InstalledApp>) -> (r: Vec<InstalledApp>)
    ensures
        exists|p: Seq<usize>|
            #![trigger is_permutation(p, named_apps(registry_apps@).len())]
            is_permutation(p, named_apps(registry_apps@).len()) && sorted_lex_stable(
                lower_names(named_apps(registry_apps@)),
                p,
            ) && r@ == dedup_names(
                p.map_values(|k: usize| named_apps(registry_apps@)[k as int]),
            ),
        (forall|i: int|
            0 <= i < named_apps(registry_apps@).len() ==> is_ascii_seq(
                (#[trigger] named_apps(registry_apps@)[i]).name@,
            )) ==> {
            let nm = named_apps(registry_apps@);
            &&& forall|a: int, b: int|
                0 <= a < b < r@.len() ==> !eq_ignore_ascii_case(
                    (#[trigger] r@[a]).name@,
                    (#[trigger] r@[b]).name@,
                )
            &&& forall|i: int|
                0 <= i < nm.len() ==> exists|a: int|
                    0 <= a < r@.len() && eq_ignore_ascii_case(
                        (#[trigger] r@[a]).name@,
                        (#[trigger] nm[i]).name@,
                    )
            &&& forall|a: int|
                0 <= a < r@.len() ==> exists|i: int|
                    0 <= i < nm.len() && #[trigger] r@[a] == nm[i] && forall|j: int|
                        0 <= j < i ==> !eq_ignore_ascii_case((#[trigger] nm[j]).name@, nm[i].name@)
        },
{
    let ghost src = registry_apps@;
    let mut named: Vec<InstalledApp> = Vec::new();
    let mut i: usize = 0;
    while i < registry_apps.len()
        invariant
            i <= registry_apps@.len(),
            src == registry_apps@,
            named@ == named_apps(registry_apps@.take(i as int)),
        decreases registry_apps.len() - i,
    {
        assert(registry_apps@.take(i + 1).drop_last() =~= registry_apps@.take(i as int));
        assert(registry_apps@.take(i + 1).last() == registry_apps@[i as int]);
        if !registry_apps[i].name.as_str().is_empty() {
            named.push(copy_app(&registry_apps[i]));
        }
        i = i + 1;
    }
    assert(registry_apps@.take(registry_apps@.len() as int) =~= registry_apps@);
    let ghost nm = named@;
    let mut keys: Vec<Vec<char>> = Vec::new();
    let mut k: usize = 0;
    while k < named.len()
        invariant
            k <= named@.len(),
            keys@.len() == k,
            forall|m: int| 0 <= m < k ==> (#[trigger] keys@[m])@ == unicode_lowercase(named@[m].name@),
            forall|m: int|
                0 <= m < k && is_ascii_seq(named@[m].name@) ==> (#[trigger] keys@[m])@ == ascii_lower_seq(
                    named@[m].name@,
                ),
        decreases named.len() - k,
    {
        keys.push(lowercase(&chars_of(named[k].name.as_str())));
        k = k + 1;
    }
    assert(keys@.map_values(|k: Vec<char>| k@) =~= lower_names(nm));
    let order = stable_order_lex(&keys);
    let ghost sorted = order@.map_values(|k: usize| nm[k as int]);
    let ghost all_ascii = forall|i: int| 0 <= i < nm.len() ==> is_ascii_seq((#[trigger] nm[i]).name@);
    proof {
        if all_ascii {
            let ks = keys@.map_values(|k: Vec<char>| k@);
            assert forall|a: int, b: int|
                #![trigger order@[a], order@[b]]
                0 <= a < b < order@.len() implies !lex_lt(
                    ascii_key(nm[order@[b] as int]),
                    ascii_key(nm[order@[a] as int]),
                ) && (ascii_key(nm[order@[a] as int]) == ascii_key(nm[order@[b] as int]) ==> order@[a]
                    < order@[b]) by {
                let pa = order@[a] as int;
                let pb = order@[b] as int;
                assert(ks[pa] == keys@[pa]@ && ks[pb] == keys@[pb]@);
                assert(is_ascii_seq(nm[pa].name@) && is_ascii_seq(nm[pb].name@));
                assert(!lex_lt(ks[pb], ks[pa]));
            }
        }
    }
    let mut out: Vec<InstalledApp> = Vec::new();
    let mut m: usize = 0;
    while m < order.len()
        invariant
            m <= order@.len(),
            nm == named@,
            is_permutation(order@, nm.len()),
            sorted == order@.map_values(|k: usize| nm[k as int]),
            out@ == dedup_names(sorted.take(m as int)),
            all_ascii ==> forall|a: int, b: int|
                #![trigger order@[a], order@[b]]
                0 <= a < b < order@.len() ==> !lex_lt(
                    ascii_key(nm[order@[b] as int]),
                    ascii_key(nm[order@[a] as int]),
                ) && (ascii_key(nm[order@[a] as int]) == ascii_key(nm[order@[b] as int]) ==> order@[a]
                    < order@[b]),
        decreases order.len() - m,
    {
        let app = &named[order[m]];
        assert(sorted.take(m + 1).drop_last() =~= sorted.take(m as int));
        assert(sorted.take(m + 1).last() == *app);
        let keep = if out.len() == 0 {
            true
        } else {
            let last = &out[out.len() - 1];
            !eq_ignore_ascii_case_exec(&chars_of(app.name.as_str()), &chars_of(last.name.as_str()))
        };
        if keep {
            out.push(copy_app(app));
        }
        m = m + 1;
    }
    assert(sorted.take(order@.len() as int) =~= sorted);
    proof {
        if all_ascii {
            lemma_inventory_distinct(nm, order@, out@);
            lemma_inventory_complete(nm, order@, out@);
            lemma_inventory_first(nm, order@, out@);
        }
    }
    out
}

// ───────────────────────────── leftovers ─────────────────────────────

/// The entries whose name contains the application name, ignoring case.
pub open spec fn leftover_entries(entries: Seq<DirEntryInfo>, app: Seq<char>) -> Seq<DirEntryInfo>
    decreases entries.len(),
{
    if entries.len() == 0 {
        Seq::empty()
    } else if name_matches(entries.last().file_name@, app) {
        leftover_entries(entries.drop_last(), app).push(entries.last())
    } else {
        leftover_entries(entries.drop_last(), app)
    }
}

pub open spec fn total_size(entries: Seq<DirEntryInfo>) -> int
    decreases entries.len(),
{
    if entries.len() == 0 {
        0
    } else {
        total_size(entries.drop_last()) + entries.last().size_bytes
    }
}

/// `p` records the entry `e` with `/` separators.
pub open spec fn leftover_of(p: LeftoverPath, e: DirEntryInfo) -> bool {
    &&& p.path@ == replace_char(e.path@, '\\', '/')
    &&& p.size_bytes == e.size_bytes
    &&& p.is_dir == e.is_dir
}

/// Leftovers of `app_name` among the entries found in the app-data
/// directories (`%APPDATA%`, `%LOCALAPPDATA%`, `%PROGRAMDATA%`, each with its
/// direct children): the entries whose name contains the application name,
/// ignoring case, with their sizes added up.
pub fn find_leftovers(app_name: &str, entries: &Vec<DirEntryInfo>) -> (r: LeftoverResult)
    requires
        total_size(leftover_entries(entries@, app_name@)) <= u64::MAX,
    ensures
        r.app_name@ == app_name@,
        r.found_paths@.len() == leftover_entries(entries@, app_name@).len(),
        forall|i: int|
            0 <= i < r.found_paths@.len() ==> leftover_of(
                #[trigger] r.found_paths@[i],
                leftover_entries(entries@, app_name@)[i],
            ),
        r.total_size_bytes == total_size(leftover_entries(entries@, app_name@)),
{
    let lower_name = lowercase(&chars_of(app_name));
    let mut found: Vec<LeftoverPath> = Vec::new();
    let mut total: u64 = 0;
    let mut i: usize = 0;
    while i < entries.len()
        invariant
            i <= entries@.len(),
            lower_name@ == unicode_lowercase(app_name@),
            total_size(leftover_entries(entries@, app_name@)) <= u64::MAX,
            found@.len() == leftover_entries(entries@.take(i as int), app_name@).len(),
            forall|k: int|
                0 <= k < found@.len() ==> leftover_of(
                    #[trigger] found@[k],
                    leftover_entries(entries@.take(i as int), app_name@)[k],
                ),
            total == total_size(leftover_entries(entries@.take(i as int), app_name@)),
        decreases entries.len() - i,
    {
        assert(entries@.take(i + 1).drop_last() =~= entries@.take(i as int));
        assert(entries@.take(i + 1).last() == entries@[i as int]);
        let e = &entries[i];
        let name = lowercase(&chars_of(e.file_name.as_str()));
        if contains(&name, &lower_name) {
            proof {
                lemma_leftover_prefix_total(entries@, app_name@, i + 1);
                let prev = leftover_entries(entries@.take(i as int), app_name@);
                assert(prev.push(entries@[i as int]).drop_last() =~= prev);
            }
            total = total + e.size_bytes;
            let path = string_of(&replace_char_exec(&chars_of(e.path.as_str()), '\\', '/'));
            found.push(LeftoverPath { path, size_bytes: e.size_bytes, is_dir: e.is_dir });
        }
        i = i + 1;
    }
    assert(entries@.take(entries@.len() as int) =~= entries@);
    LeftoverResult { app_name: String::from_str(app_name), found_paths: found, total_size_bytes: total }
}

/// [`find_leftovers`] where the leftovers' sizes add up within a `u64`;
/// `None` where they do not.
pub fn try_find_leftovers(app_name: &str, entries: &Vec<DirEntryInfo>) -> (r: Option<LeftoverResult>)
    ensures
        match r {
            None => total_size(leftover_entries(entries@, app_name@)) > u64::MAX,
            Some(res) => {
                &&& total_size(leftover_entries(entries@, app_name@)) <= u64::MAX
                &&& res.app_name@ == app_name@
                &&& res.found_paths@.len() == leftover_entries(entries@, app_name@).len()
                &&& forall|i: int|
                    0 <= i < res.found_paths@.len() ==> leftover_of(
                        #[trigger] res.found_paths@[i],
                        leftover_entries(entries@, app_name@)[i],
                    )
                &&& res.total_size_bytes == total_size(leftover_entries(entries@, app_name@))
            },
        },
{
    let lower_name = lowercase(&chars_of(app_name));
    let mut total: u64 = 0;
    let mut i: usize = 0;
    while i < entries.len()
        invariant
            i <= entries@.len(),
            lower_name@ == unicode_lowercase(app_name@),
            total == total_size(leftover_entries(entries@.take(i as int), app_name@)),
        decreases entries.len() - i,
    {
        assert(entries@.take(i + 1).drop_last() =~= entries@.take(i as int));
        assert(entries@.take(i + 1).last() == entries@[i as int]);
        let e = &entries[i];
        let name = lowercase(&chars_of(e.file_name.as_str()));
        if contains(&name, &lower_name) {
            let ghost prev = leftover_entries(entries@.take(i as int), app_name@);
            assert(prev.push(entries@[i as int]).drop_last() =~= prev);
            match total.checked_add(e.size_bytes) {
                Some(t) => {
                    total = t;
                },
                None => {
                    proof {
                        lemma_leftover_prefix_total(entries@, app_name@, i + 1);
                    }
                    return None;
                },
            }
        }
        i = i + 1;
    }
    assert(entries@.take(entries@.len() as int) =~= entries@);
    Some(find_leftovers(app_name, entries))
}

proof fn lemma_leftover_prefix_total(entries: Seq<DirEntryInfo>, app: Seq<char>, n: int)
    requires
        0 <= n <= entries.len(),
    ensures
        total_size(leftover_entries(entries.take(n), app)) <= total_size(leftover_entries(entries, app)),
    decreases entries.len(),
{
    if n < entries.len() {
        assert(entries.drop_last().take(n) =~= entries.take(n));
        lemma_leftover_prefix_total(entries.drop_last(), app, n);
        let prev = leftover_entries(entries.drop_last(), app);
        assert(prev.push(entries.last()).drop_last() =~= prev);
    } else {
        assert(entries.take(n) =~= entries);
    }
}

} // verus!
