//! Adopted external roots and the version pins read from `Cargo.lock`.

use vstd::prelude::*;
use crate::lexical::{split_exec, split_seq, strip_prefix_all, strip_prefix_all_exec, strip_suffix_all, strip_suffix_all_exec, trim, trim_exec, slice_vec, chars_eq};
use crate::resolution::{pairs_view, strings_view};
use crate::sorting::{dedup_sorted_strings, sort_strings, strictly_sorted_strings};
use crate::text::{chars_of, occurs_at_exec, starts_with, string_of};

verus! {

/// One external crate a workspace re-exports from: the root binding, the
/// package behind it with its locked version(s) and registry checkout, and
/// what is re-exported (whole namespace, globbed module paths, and
/// (source, binding) leaves) at how many sites.
#[derive(Debug, Clone)]
pub struct AdoptedRoot {
    pub root: String,
    pub package: String,
    pub version: String,
    pub versions: Vec<String>,
    pub checkout: Option<String>,
    pub namespace: bool,
    pub globs: Vec<String>,
    pub leaves: Vec<(String, String)>,
    pub sites: usize,
}

/// `s` with every leading and trailing `"` removed (`str::trim_matches('"')`).
pub open spec fn unquote(s: Seq<char>) -> Seq<char> {
    strip_suffix_all(strip_prefix_all(s, seq!['"']), seq!['"'])
}

/// The package name being read and the (name, version) pins so far, after
/// reading lock-file lines in order: `[[package]]` forgets the name, a
/// `name = ` line sets it, a `version = ` line pins it once to the current
/// name.
pub open spec fn lock_scan(lines: Seq<Seq<char>>) -> (Option<Seq<char>>, Seq<(Seq<char>, Seq<char>)>)
    decreases lines.len(),
{
    if lines.len() == 0 {
        (None, Seq::empty())
    } else {
        let prev = lock_scan(lines.drop_last());
        let l = trim(lines.last());
        if l == "[[package]]"@ {
            (None, prev.1)
        } else if starts_with(l, "name = "@) {
            (Some(unquote(l.skip(7))), prev.1)
        } else if starts_with(l, "version = "@) {
            match prev.0 {
                Some(n) => (None, prev.1.push((n, unquote(l.skip(10))))),
                None => prev,
            }
        } else {
            prev
        }
    }
}

fn unquote_exec(s: &[char]) -> (r: Vec<char>)
    ensures
        r@ == unquote(s@),
{
    let q = vec!['"'];
    assert(q@ =~= seq!['"']);
    let a = strip_prefix_all_exec(s, &q);
    strip_suffix_all_exec(&a, &q)
}

/// The (name, version) pins of a lock file's text, in order.
pub fn lock_pins(text: &str) -> (r: Vec<(String, String)>)
    ensures
        pairs_view(r@) == lock_scan(split_seq(text@, seq!['\n'])).1,
{
    proof {
        reveal_strlit("[[package]]");
        reveal_strlit("name = ");
        reveal_strlit("version = ");
    }
    let cs = chars_of(text);
    let nl = vec!['\n'];
    assert(nl@ =~= seq!['\n']);
    let lines = split_exec(&cs, &nl);
    let ghost ls = lines@.map_values(|v: Vec<char>| v@);
    let pkg = vec!['[', '[', 'p', 'a', 'c', 'k', 'a', 'g', 'e', ']', ']'];
    let name_kw = vec!['n', 'a', 'm', 'e', ' ', '=', ' '];
    let version_kw = vec!['v', 'e', 'r', 's', 'i', 'o', 'n', ' ', '=', ' '];
    assert(pkg@ =~= "[[package]]"@);
    assert(name_kw@ =~= "name = "@);
    assert(version_kw@ =~= "version = "@);
    let mut name: Option<Vec<char>> = None;
    let mut out: Vec<(String, String)> = Vec::new();
    let mut i: usize = 0;
    assert(ls.take(0) =~= Seq::<Seq<char>>::empty());
    assert(pairs_view(out@) =~= Seq::<(Seq<char>, Seq<char>)>::empty());
    while i < lines.len()
        invariant
            i <= lines@.len(),
            ls == lines@.map_values(|v: Vec<char>| v@),
            pkg@ == "[[package]]"@,
            name_kw@ == "name = "@,
            version_kw@ == "version = "@,
            name_kw@.len() == 7,
            version_kw@.len() == 10,
            lock_scan(ls.take(i as int)).0 == (match name {
                Some(n) => Some(n@),
                None => None,
            }),
            lock_scan(ls.take(i as int)).1 == pairs_view(out@),
        decreases lines@.len() - i,
    {
        assert(ls.take(i + 1).drop_last() =~= ls.take(i as int));
        assert(ls.take(i + 1).last() == lines@[i as int]@);
        let l = trim_exec(&lines[i]);
        if chars_eq(&l, &pkg) {
            name = None;
        } else if occurs_at_exec(&l, &name_kw, 0) {
            let rest = slice_vec(&l, 7, l.len());
            assert(rest@ =~= l@.skip(7));
            name = Some(unquote_exec(&rest));
        } else if occurs_at_exec(&l, &version_kw, 0) {
            let rest = slice_vec(&l, 10, l.len());
            assert(rest@ =~= l@.skip(10));
            match name {
                Some(n) => {
                    let v = unquote_exec(&rest);
                    let ghost before = pairs_view(out@);
                    out.push((string_of(&n), string_of(&v)));
                    assert(pairs_view(out@) =~= before.push((n@, v@)));
                    name = None;
                },
                None => {},
            }
        }
        i = i + 1;
    }
    assert(ls.take(i as int) =~= ls);
    out
}

/// The distinct names pinned by `pins`.
pub open spec fn pinned_names(pins: Seq<(Seq<char>, Seq<char>)>) -> Set<Seq<char>> {
    Set::new(|n: Seq<char>| exists|i: int| 0 <= i < pins.len() && (#[trigger] pins[i]).0 == n)
}

/// The distinct versions `pins` gives the name `n`.
pub open spec fn pinned_versions(pins: Seq<(Seq<char>, Seq<char>)>, n: Seq<char>) -> Set<Seq<char>> {
    Set::new(|v: Seq<char>| pins.contains((n, v)))
}

/// The versions of each name, as `lock_versions` groups them.
pub open spec fn versions_grouped(r: Seq<(String, Vec<String>)>, pins: Seq<(Seq<char>, Seq<char>)>) -> bool {
    &&& strictly_sorted_strings(r.map_values(|e: (String, Vec<String>)| e.0@))
    &&& r.map_values(|e: (String, Vec<String>)| e.0@).to_set() == pinned_names(pins)
    &&& forall|j: int| 0 <= j < r.len() ==> {
        &&& strictly_sorted_strings(strings_view((#[trigger] r[j]).1@))
        &&& strings_view(r[j].1@).to_set() == pinned_versions(pins, r[j].0@)
    }
}

/// Groups lock-file pins by package name: names ascending, each with its
/// distinct versions ascending.
pub fn group_versions(pins: &Vec<(String, String)>) -> (r: Vec<(String, Vec<String>)>)
    ensures
        versions_grouped(r@, pairs_view(pins@)),
{
    let ghost ps = pairs_view(pins@);
    let mut names: Vec<String> = Vec::new();
    let mut i: usize = 0;
    while i < pins.len()
        invariant
            i <= pins@.len(),
            ps == pairs_view(pins@),
            strings_view(names@) == ps.take(i as int).map_values(|p: (Seq<char>, Seq<char>)| p.0),
        decreases pins@.len() - i,
    {
        let ghost n0 = strings_view(names@);
        names.push(pins[i].0.clone());
        assert(strings_view(names@) =~= n0.push(ps[i as int].0));
        assert(ps.take(i + 1).map_values(|p: (Seq<char>, Seq<char>)| p.0) =~= n0.push(ps[i as int].0));
        i = i + 1;
    }
    assert(ps.take(i as int) =~= ps);
    let ghost all_names = ps.map_values(|p: (Seq<char>, Seq<char>)| p.0);
    let sorted = sort_strings(&names);
    let keys = dedup_sorted_strings(&sorted);
    proof {
        assert forall|n: Seq<char>| #[trigger] strings_view(keys@).to_set().contains(n) <==> pinned_names(ps).contains(n) by {
            assert(strings_view(keys@).to_set().contains(n) == strings_view(sorted@).to_set().contains(n));
            vstd::seq_lib::to_multiset_contains(strings_view(sorted@), n);
            vstd::seq_lib::to_multiset_contains(all_names, n);
            if all_names.contains(n) {
                let k = choose|k: int| 0 <= k < all_names.len() && all_names[k] == n;
                assert(ps[k].0 == n);
            }
            if pinned_names(ps).contains(n) {
                let k = choose|k: int| 0 <= k < ps.len() && (#[trigger] ps[k]).0 == n;
                assert(all_names[k] == n);
            }
        }
    }
    let mut out: Vec<(String, Vec<String>)> = Vec::new();
    let mut j: usize = 0;
    while j < keys.len()
        invariant
            j <= keys@.len(),
            ps == pairs_view(pins@),
            out@.len() == j,
            forall|m: int| 0 <= m < j ==> (#[trigger] out@[m]).0@ == keys@[m]@,
            forall|m: int| 0 <= m < j ==> {
                &&& strictly_sorted_strings(strings_view((#[trigger] out@[m]).1@))
                &&& strings_view(out@[m].1@).to_set() == pinned_versions(ps, out@[m].0@)
            },
        decreases keys@.len() - j,
    {
        let key = &keys[j];
        let mut vs: Vec<String> = Vec::new();
        let mut k: usize = 0;
        while k < pins.len()
            invariant
                k <= pins@.len(),
                ps == pairs_view(pins@),
                forall|v: Seq<char>| #[trigger] strings_view(vs@).contains(v) <==> ps.take(k as int).contains((key@, v)),
            decreases pins@.len() - k,
        {
            let ghost v0 = strings_view(vs@);
            if crate::text::str_eq(pins[k].0.as_str(), key.as_str()) {
                vs.push(pins[k].1.clone());
                assert(strings_view(vs@) =~= v0.push(ps[k as int].1));
            }
            proof {
                let t0 = ps.take(k as int);
                let t1 = ps.take(k + 1);
                let vv = strings_view(vs@);
                assert(t1 =~= t0.push(ps[k as int]));
                assert forall|v: Seq<char>| #[trigger] vv.contains(v) <==> t1.contains((key@, v)) by {
                    if t1.contains((key@, v)) {
                        let m = choose|m: int| 0 <= m < t1.len() && t1[m] == (key@, v);
                        if m < k {
                            assert(t0[m] == (key@, v));
                            assert(t0.contains((key@, v)));
                            assert(v0.contains(v));
                            let t = choose|t: int| 0 <= t < v0.len() && v0[t] == v;
                            assert(vv[t] == v);
                        } else {
                            assert(vv[vv.len() - 1] == v);
                        }
                    }
                    if vv.contains(v) {
                        let t = choose|t: int| 0 <= t < vv.len() && vv[t] == v;
                        if t < v0.len() {
                            assert(v0[t] == v);
                            assert(v0.contains(v));
                            assert(t0.contains((key@, v)));
                            let m = choose|m: int| 0 <= m < t0.len() && t0[m] == (key@, v);
                            assert(t1[m] == (key@, v));
                        } else {
                            assert(t1[k as int] == (key@, v));
                        }
                    }
                }
            }
            k = k + 1;
        }
        assert(ps.take(k as int) =~= ps);
        let sorted_vs = sort_strings(&vs);
        let uniq = dedup_sorted_strings(&sorted_vs);
        proof {
            assert(strings_view(uniq@).to_set() =~= pinned_versions(ps, key@)) by {
                assert forall|v: Seq<char>| strings_view(uniq@).to_set().contains(v) == pinned_versions(ps, key@).contains(v) by {
                    vstd::seq_lib::to_multiset_contains(strings_view(sorted_vs@), v);
                    vstd::seq_lib::to_multiset_contains(strings_view(vs@), v);
                    assert(strings_view(uniq@).to_set().contains(v) == strings_view(sorted_vs@).to_set().contains(v));
                }
            }
        }
        out.push((key.clone(), uniq));
        j = j + 1;
    }
    proof {
        let rk = out@.map_values(|e: (String, Vec<String>)| e.0@);
        assert(rk =~= strings_view(keys@));
        assert(rk.to_set() =~= pinned_names(ps));
    }
    out
}

/// The versions pinned per package in a lock file's text (`lock_versions`
/// on the file's contents): names ascending, each with its distinct
/// versions ascending.
pub fn lock_versions(text: &str) -> (r: Vec<(String, Vec<String>)>)
    ensures
        versions_grouped(r@, lock_scan(split_seq(text@, seq!['\n'])).1),
{
    let pins = lock_pins(text);
    group_versions(&pins)
}

} // verus!
