//! The per-file index of the workspace's item facts: every fact list
//! bucketed by the file each record came from.

use vstd::prelude::*;
use crate::instances::FactRecord;
use crate::metrics::text_or_empty;
use crate::text::str_eq;

verus! {

/// The workspace's item facts, one list per fact kind.
#[derive(Debug, Clone)]
pub struct ItemFacts {
    pub impls: Vec<FactRecord>,
    pub traits: Vec<FactRecord>,
    pub types: Vec<FactRecord>,
    pub fns: Vec<FactRecord>,
    pub uses: Vec<FactRecord>,
    pub macros: Vec<FactRecord>,
    pub derives: Vec<FactRecord>,
    pub macro_defs: Vec<FactRecord>,
    pub mods: Vec<FactRecord>,
    pub type_usages: Vec<FactRecord>,
    pub example_type_usages: Vec<FactRecord>,
}

/// The item facts of one file, one list per fact kind.
#[derive(Debug, Clone)]
pub struct ItemFile {
    pub impls: Vec<FactRecord>,
    pub traits: Vec<FactRecord>,
    pub types: Vec<FactRecord>,
    pub fns: Vec<FactRecord>,
    pub uses: Vec<FactRecord>,
    pub macros: Vec<FactRecord>,
    pub derives: Vec<FactRecord>,
    pub macro_defs: Vec<FactRecord>,
    pub mods: Vec<FactRecord>,
    pub type_usages: Vec<FactRecord>,
    pub example_type_usages: Vec<FactRecord>,
}

/// The fact kinds.
#[derive(Debug, Clone, Copy, PartialEq, Eq, Structural)]
pub enum ItemList {
    Impls,
    Traits,
    Types,
    Fns,
    Uses,
    Macros,
    Derives,
    MacroDefs,
    Mods,
    TypeUsages,
    ExampleTypeUsages,
}

/// The list of kind `l` of a file's facts.
pub open spec fn file_list(f: ItemFile, l: ItemList) -> Seq<FactRecord> {
    match l {
        ItemList::Impls => f.impls@,
        ItemList::Traits => f.traits@,
        ItemList::Types => f.types@,
        ItemList::Fns => f.fns@,
        ItemList::Uses => f.uses@,
        ItemList::Macros => f.macros@,
        ItemList::Derives => f.derives@,
        ItemList::MacroDefs => f.macro_defs@,
        ItemList::Mods => f.mods@,
        ItemList::TypeUsages => f.type_usages@,
        ItemList::ExampleTypeUsages => f.example_type_usages@,
    }
}

/// The list of kind `l` of the workspace's facts.
pub open spec fn facts_list(f: ItemFacts, l: ItemList) -> Seq<FactRecord> {
    match l {
        ItemList::Impls => f.impls@,
        ItemList::Traits => f.traits@,
        ItemList::Types => f.types@,
        ItemList::Fns => f.fns@,
        ItemList::Uses => f.uses@,
        ItemList::Macros => f.macros@,
        ItemList::Derives => f.derives@,
        ItemList::MacroDefs => f.macro_defs@,
        ItemList::Mods => f.mods@,
        ItemList::TypeUsages => f.type_usages@,
        ItemList::ExampleTypeUsages => f.example_type_usages@,
    }
}

/// The file a record came from (empty when it names none).
pub open spec fn file_of(r: FactRecord) -> Seq<char> {
    text_or_empty(r.file)
}

/// The records of `rs` from file `k`, in order.
pub open spec fn bucket(rs: Seq<FactRecord>, k: Seq<char>) -> Seq<FactRecord>
    decreases rs.len(),
{
    if rs.len() == 0 {
        Seq::empty()
    } else if file_of(rs.last()) == k {
        bucket(rs.drop_last(), k).push(rs.last())
    } else {
        bucket(rs.drop_last(), k)
    }
}

/// The files of an index, in order.
pub open spec fn index_keys(v: Seq<(String, ItemFile)>) -> Seq<Seq<char>> {
    v.map_values(|e: (String, ItemFile)| e.0@)
}

/// Some record of `rs` comes from file `k`.
pub open spec fn file_from(rs: Seq<FactRecord>, k: Seq<char>) -> bool {
    exists|i: int| 0 <= i < rs.len() && #[trigger] file_of(rs[i]) == k
}

/// Some record of some kind comes from file `k`.
pub open spec fn file_in_facts(facts: ItemFacts, k: Seq<char>) -> bool {
    exists|l: ItemList| #[trigger] file_from(facts_list(facts, l), k)
}

/// No file is indexed twice.
pub open spec fn keys_distinct(v: Seq<(String, ItemFile)>) -> bool {
    forall|i: int, j: int| 0 <= i < j < v.len() ==> (#[trigger] v[i]).0@ != (#[trigger] v[j]).0@
}

fn empty_file() -> (r: ItemFile)
    ensures
        forall|l: ItemList| #[trigger] file_list(r, l) == Seq::<FactRecord>::empty(),
{
    let r = ItemFile {
        impls: Vec::new(),
        traits: Vec::new(),
        types: Vec::new(),
        fns: Vec::new(),
        uses: Vec::new(),
        macros: Vec::new(),
        derives: Vec::new(),
        macro_defs: Vec::new(),
        mods: Vec::new(),
        type_usages: Vec::new(),
        example_type_usages: Vec::new(),
    };
    assert forall|l: ItemList| #[trigger] file_list(r, l) == Seq::<FactRecord>::empty() by {
        match l {
            _ => {},
        }
    }
    r
}

fn push_to(f: &mut ItemFile, l: ItemList, x: FactRecord)
    ensures
        file_list(*final(f), l) == file_list(*old(f), l).push(x),
        forall|m: ItemList| m != l ==> #[trigger] file_list(*final(f), m) == file_list(*old(f), m),
{
    match l {
        ItemList::Impls => f.impls.push(x),
        ItemList::Traits => f.traits.push(x),
        ItemList::Types => f.types.push(x),
        ItemList::Fns => f.fns.push(x),
        ItemList::Uses => f.uses.push(x),
        ItemList::Macros => f.macros.push(x),
        ItemList::Derives => f.derives.push(x),
        ItemList::MacroDefs => f.macro_defs.push(x),
        ItemList::Mods => f.mods.push(x),
        ItemList::TypeUsages => f.type_usages.push(x),
        ItemList::ExampleTypeUsages => f.example_type_usages.push(x),
    }
}

fn find_file(out: &Vec<(String, ItemFile)>, k: &str) -> (r: Option<usize>)
    ensures
        r matches Some(j) ==> j < out@.len() && out@[j as int].0@ == k@,
        r is None ==> !index_keys(out@).contains(k@),
{
    let mut j: usize = 0;
    while j < out.len()
        invariant
            j <= out@.len(),
            forall|i: int| 0 <= i < j ==> out@[i].0@ != k@,
        decreases out@.len() - j,
    {
        if str_eq(out[j].0.as_str(), k) {
            return Some(j);
        }
        j = j + 1;
    }
    proof {
        if index_keys(out@).contains(k@) {
            let i = choose|i: int| 0 <= i < index_keys(out@).len() && index_keys(out@)[i] == k@;
            assert(out@[i].0@ == k@);
        }
    }
    None
}

proof fn lemma_bucket_absent(rs: Seq<FactRecord>, k: Seq<char>)
    requires
        forall|i: int| 0 <= i < rs.len() ==> file_of(#[trigger] rs[i]) != k,
    ensures
        bucket(rs, k) == Seq::<FactRecord>::empty(),
    decreases rs.len(),
{
    if rs.len() > 0 {
        assert forall|i: int| 0 <= i < rs.drop_last().len() implies file_of(#[trigger] rs.drop_last()[i]) != k by {
            assert(rs.drop_last()[i] == rs[i]);
        }
        lemma_bucket_absent(rs.drop_last(), k);
        assert(file_of(rs[rs.len() - 1]) != k);
    }
}

/// The index after adding the records of one fact kind: every earlier file
/// keeps its position, and each file's list of that kind is extended by
/// the records from that file; the other kinds are left alone (and empty
/// for the files this adds).
fn add_records(out: &mut Vec<(String, ItemFile)>, rs: Vec<FactRecord>, l: ItemList)
    requires
        keys_distinct(old(out)@),
    ensures
        keys_distinct(final(out)@),
        final(out)@.len() >= old(out)@.len(),
        forall|j: int| 0 <= j < old(out)@.len() ==> #[trigger] final(out)@[j].0@ == old(out)@[j].0@,
        forall|j: int| 0 <= j < final(out)@.len() ==> #[trigger] file_list(final(out)@[j].1, l) == (if j < old(
            out,
        )@.len() {
            file_list(old(out)@[j].1, l)
        } else {
            Seq::<FactRecord>::empty()
        }) + bucket(rs@, final(out)@[j].0@),
        forall|j: int, m: ItemList|
            0 <= j < final(out)@.len() && m != l ==> #[trigger] file_list(final(out)@[j].1, m) == (if j < old(
                out,
            )@.len() {
                file_list(old(out)@[j].1, m)
            } else {
                Seq::<FactRecord>::empty()
            }),
        forall|i: int| 0 <= i < rs@.len() ==> #[trigger] index_keys(final(out)@).contains(file_of(rs@[i])),
        forall|j: int| old(out)@.len() <= j < final(out)@.len() ==> #[trigger] file_from(rs@, final(out)@[j].0@),
{
    let ghost start = out@;
    let ghost all = rs@;
    let ghost n = rs@.len() as int;
    let mut v = rs;
    let mut rev: Vec<FactRecord> = Vec::new();
    while v.len() > 0
        invariant
            v@ == all.take(v@.len() as int),
            v@.len() <= n,
            n == all.len(),
            rev@.len() == n - v@.len(),
            forall|j: int| 0 <= j < rev@.len() ==> #[trigger] rev@[j] == all[n - 1 - j],
        decreases v@.len(),
    {
        let x = v.pop().unwrap();
        assert(all.take(v@.len() + 1 as int).drop_last() =~= all.take(v@.len() as int));
        rev.push(x);
    }
    let ghost mut k: int = 0;
    assert(all.take(0) =~= Seq::<FactRecord>::empty());
    while rev.len() > 0
        invariant
            0 <= k <= n,
            n == all.len(),
            rev@.len() == n - k,
            forall|j: int| 0 <= j < rev@.len() ==> #[trigger] rev@[j] == all[n - 1 - j],
            keys_distinct(out@),
            out@.len() >= start.len(),
            forall|j: int| 0 <= j < start.len() ==> #[trigger] out@[j].0@ == start[j].0@,
            forall|j: int| 0 <= j < out@.len() ==> #[trigger] file_list(out@[j].1, l) == (if j < start.len() {
                file_list(start[j].1, l)
            } else {
                Seq::<FactRecord>::empty()
            }) + bucket(all.take(k), out@[j].0@),
            forall|j: int, m: ItemList|
                0 <= j < out@.len() && m != l ==> #[trigger] file_list(out@[j].1, m) == (if j < start.len() {
                    file_list(start[j].1, m)
                } else {
                    Seq::<FactRecord>::empty()
                }),
            forall|i: int| 0 <= i < k ==> #[trigger] index_keys(out@).contains(file_of(all[i])),
            forall|j: int| start.len() <= j < out@.len() ==> #[trigger] file_from(all, out@[j].0@),
        decreases rev@.len(),
    {
        let x = rev.pop().unwrap();
        assert(x == all[k]);
        let ghost tk = all.take(k);
        assert(all.take(k + 1).drop_last() =~= tk);
        assert(all.take(k + 1).last() == all[k]);
        let key: String = match &x.file {
            Some(f) => f.clone(),
            None => String::new(),
        };
        assert(key@ == file_of(x));
        let ghost before = out@;
        match find_file(&*out, key.as_str()) {
            Some(j) => {
                let (kk, mut f) = out.remove(j);
                push_to(&mut f, l, x);
                out.insert(j, (kk, f));
                proof {
                    assert forall|a: int| 0 <= a < out@.len() && a != j implies #[trigger] out@[a] == before[a] by {}
                    assert(out@[j as int].0 == before[j as int].0);
                    assert forall|a: int| 0 <= a < out@.len() implies #[trigger] file_list(out@[a].1, l) == (if a < start.len() {
                        file_list(start[a].1, l)
                    } else {
                        Seq::<FactRecord>::empty()
                    }) + bucket(all.take(k + 1), out@[a].0@) by {
                        lemma_bucket_step(all, k, out@[a].0@);
                        if a != j {
                            assert(before[a].0@ != before[j as int].0@);
                        }
                    }
                    assert forall|a: int, b: int| 0 <= a < b < out@.len() implies (#[trigger] out@[a]).0@ != (
                    #[trigger] out@[b]).0@ by {
                        assert(before[a].0@ != before[b].0@);
                    }
                    assert forall|i: int| 0 <= i < k + 1 implies #[trigger] index_keys(out@).contains(
                        file_of(all[i]),
                    ) by {
                        if i < k {
                            assert(index_keys(before).contains(file_of(all[i])));
                            let p = choose|p: int| 0 <= p < index_keys(before).len() && index_keys(before)[p] == file_of(all[i]);
                            assert(out@[p].0@ == before[p].0@);
                            assert(index_keys(out@)[p] == index_keys(before)[p]);
                        } else {
                            assert(index_keys(out@)[j as int] == file_of(all[i]));
                        }
                    }
                    assert forall|a: int| start.len() <= a < out@.len() implies #[trigger] file_from(all, out@[a].0@) by {
                        if a != j {
                            assert(out@[a] == before[a]);
                        }
                        assert(file_from(all, before[a].0@));
                    }
                }
            },
            None => {
                let mut f = empty_file();
                push_to(&mut f, l, x);
                out.push((key, f));
                proof {
                    let p = before.len() as int;
                    assert forall|a: int| 0 <= a < p implies #[trigger] out@[a] == before[a] by {}
                    assert forall|a: int, b: int| 0 <= a < b < out@.len() implies (#[trigger] out@[a]).0@ != (
                    #[trigger] out@[b]).0@ by {
                        if b < p {
                            assert(before[a].0@ != before[b].0@);
                        } else {
                            assert(index_keys(before)[a] == before[a].0@);
                        }
                    }
                    lemma_bucket_absent_prefix(all, k, key@, before);
                    assert forall|a: int| 0 <= a < out@.len() implies #[trigger] file_list(out@[a].1, l) == (if a < start.len() {
                        file_list(start[a].1, l)
                    } else {
                        Seq::<FactRecord>::empty()
                    }) + bucket(all.take(k + 1), out@[a].0@) by {
                        lemma_bucket_step(all, k, out@[a].0@);
                        if a < p {
                            assert(index_keys(before)[a] == before[a].0@);
                        } else {
                            assert(Seq::<FactRecord>::empty().push(x) =~= Seq::<FactRecord>::empty() + Seq::<FactRecord>::empty().push(x));
                        }
                    }
                    assert forall|i: int| 0 <= i < k + 1 implies #[trigger] index_keys(out@).contains(
                        file_of(all[i]),
                    ) by {
                        if i < k {
                            assert(index_keys(before).contains(file_of(all[i])));
                            let q = choose|q: int| 0 <= q < index_keys(before).len() && index_keys(before)[q] == file_of(all[i]);
                            assert(out@[q] == before[q]);
                            assert(index_keys(out@)[q] == index_keys(before)[q]);
                        } else {
                            assert(index_keys(out@)[p] == file_of(all[i]));
                        }
                    }
                    assert forall|a: int| start.len() <= a < out@.len() implies #[trigger] file_from(all, out@[a].0@) by {
                        if a < p {
                            assert(out@[a] == before[a]);
                            assert(file_from(all, before[a].0@));
                        } else {
                            assert(file_of(all[k]) == out@[a].0@);
                        }
                    }
                }
            },
        }
        proof {
            k = k + 1;
        }
    }
    assert(all.take(k) =~= all);
}

proof fn lemma_bucket_step(all: Seq<FactRecord>, k: int, key: Seq<char>)
    requires
        0 <= k < all.len(),
    ensures
        bucket(all.take(k + 1), key) == (if file_of(all[k]) == key {
            bucket(all.take(k), key).push(all[k])
        } else {
            bucket(all.take(k), key)
        }),
{
    assert(all.take(k + 1).drop_last() =~= all.take(k));
    assert(all.take(k + 1).last() == all[k]);
}

proof fn lemma_bucket_absent_prefix(all: Seq<FactRecord>, k: int, key: Seq<char>, before: Seq<(String, ItemFile)>)
    requires
        0 <= k <= all.len(),
        !index_keys(before).contains(key),
        forall|i: int| 0 <= i < k ==> #[trigger] index_keys(before).contains(file_of(all[i])),
    ensures
        bucket(all.take(k), key) == Seq::<FactRecord>::empty(),
{
    assert forall|i: int| 0 <= i < all.take(k).len() implies file_of(#[trigger] all.take(k)[i]) != key by {
        assert(all.take(k)[i] == all[i]);
        assert(index_keys(before).contains(file_of(all[i])));
    }
    lemma_bucket_absent(all.take(k), key);
}

/// An index holding the kinds in `done`: files distinct, each file's list
/// of a done kind its bucket of that kind, the other kinds empty, and every
/// record of a done kind filed.
pub open spec fn index_holds(out: Seq<(String, ItemFile)>, facts: ItemFacts, done: Set<ItemList>) -> bool {
    &&& keys_distinct(out)
    &&& forall|j: int, l: ItemList|
        0 <= j < out.len() ==> #[trigger] file_list(out[j].1, l) == if done.contains(l) {
            bucket(facts_list(facts, l), out[j].0@)
        } else {
            Seq::<FactRecord>::empty()
        }
    &&& forall|l: ItemList, i: int|
        done.contains(l) && 0 <= i < facts_list(facts, l).len() ==> #[trigger] index_keys(out).contains(
            file_of(facts_list(facts, l)[i]),
        )
    &&& forall|j: int| 0 <= j < out.len() ==> #[trigger] key_filed(out[j].0@, facts, done)
}

/// Some record of a kind in `done` comes from file `k`.
pub open spec fn key_filed(k: Seq<char>, facts: ItemFacts, done: Set<ItemList>) -> bool {
    exists|l: ItemList, i: int|
        done.contains(l) && 0 <= i < facts_list(facts, l).len() && #[trigger] file_of(facts_list(facts, l)[i]) == k
}

proof fn lemma_index_step(
    before: Seq<(String, ItemFile)>,
    after: Seq<(String, ItemFile)>,
    facts: ItemFacts,
    done: Set<ItemList>,
    l: ItemList,
    rs: Seq<FactRecord>,
)
    requires
        rs == facts_list(facts, l),
        index_holds(before, facts, done),
        !done.contains(l),
        keys_distinct(after),
        after.len() >= before.len(),
        forall|j: int| 0 <= j < before.len() ==> #[trigger] after[j].0@ == before[j].0@,
        forall|j: int| 0 <= j < after.len() ==> #[trigger] file_list(after[j].1, l) == (if j < before.len() {
            file_list(before[j].1, l)
        } else {
            Seq::<FactRecord>::empty()
        }) + bucket(facts_list(facts, l), after[j].0@),
        forall|j: int, m: ItemList|
            0 <= j < after.len() && m != l ==> #[trigger] file_list(after[j].1, m) == (if j < before.len() {
                file_list(before[j].1, m)
            } else {
                Seq::<FactRecord>::empty()
            }),
        forall|i: int| 0 <= i < facts_list(facts, l).len() ==> #[trigger] index_keys(after).contains(
            file_of(facts_list(facts, l)[i]),
        ),
        forall|j: int| before.len() <= j < after.len() ==> #[trigger] file_from(rs, after[j].0@),
    ensures
        index_holds(after, facts, done.insert(l)),
{
    let d2 = done.insert(l);
    assert forall|j: int| 0 <= j < after.len() implies #[trigger] key_filed(after[j].0@, facts, d2) by {
        if j < before.len() {
            assert(key_filed(before[j].0@, facts, done));
            let (m, i) = choose|m: ItemList, i: int|
                done.contains(m) && 0 <= i < facts_list(facts, m).len() && #[trigger] file_of(facts_list(facts, m)[i])
                    == before[j].0@;
            assert(d2.contains(m) && file_of(facts_list(facts, m)[i]) == after[j].0@);
        } else {
            assert(file_from(rs, after[j].0@));
            let i = choose|i: int| 0 <= i < rs.len() && #[trigger] file_of(rs[i]) == after[j].0@;
            assert(d2.contains(l) && file_of(facts_list(facts, l)[i]) == after[j].0@);
        }
    }
    assert forall|j: int, m: ItemList| 0 <= j < after.len() implies #[trigger] file_list(after[j].1, m) == if d2.contains(
        m,
    ) {
        bucket(facts_list(facts, m), after[j].0@)
    } else {
        Seq::<FactRecord>::empty()
    } by {
        if m == l {
            if j < before.len() {
                assert(file_list(before[j].1, l) == Seq::<FactRecord>::empty());
            }
            assert(Seq::<FactRecord>::empty() + bucket(facts_list(facts, l), after[j].0@) =~= bucket(
                facts_list(facts, l),
                after[j].0@,
            ));
        } else if j < before.len() {
            assert(file_list(before[j].1, m) == if done.contains(m) {
                bucket(facts_list(facts, m), before[j].0@)
            } else {
                Seq::<FactRecord>::empty()
            });
        } else if done.contains(m) {
            let key = after[j].0@;
            assert forall|i: int| 0 <= i < facts_list(facts, m).len() implies file_of(
                #[trigger] facts_list(facts, m)[i],
            ) != key by {
                assert(index_keys(before).contains(file_of(facts_list(facts, m)[i])));
                let q = choose|q: int| 0 <= q < index_keys(before).len() && index_keys(before)[q] == file_of(
                    facts_list(facts, m)[i],
                );
                assert(after[q].0@ == before[q].0@);
                assert(after[q].0@ != after[j].0@);
            }
            lemma_bucket_absent(facts_list(facts, m), key);
        }
    }
    assert forall|m: ItemList, i: int|
        d2.contains(m) && 0 <= i < facts_list(facts, m).len() implies #[trigger] index_keys(after).contains(
        file_of(facts_list(facts, m)[i]),
    ) by {
        if m != l {
            assert(index_keys(before).contains(file_of(facts_list(facts, m)[i])));
            let q = choose|q: int| 0 <= q < index_keys(before).len() && index_keys(before)[q] == file_of(
                facts_list(facts, m)[i],
            );
            assert(index_keys(after)[q] == index_keys(before)[q]);
        }
    }
}

/// Buckets every fact list by the file each record came from: each file
/// that any record names is indexed once, and its list of each kind holds
/// exactly the records of that kind from that file, in order.
pub fn build_items_index(facts: ItemFacts) -> (r: Vec<(String, ItemFile)>)
    ensures
        keys_distinct(r@),
        forall|j: int, l: ItemList|
            0 <= j < r@.len() ==> #[trigger] file_list(r@[j].1, l) == bucket(facts_list(facts, l), r@[j].0@),
        forall|l: ItemList, i: int|
            0 <= i < facts_list(facts, l).len() ==> #[trigger] index_keys(r@).contains(file_of(facts_list(facts, l)[i])),
        forall|j: int| 0 <= j < r@.len() ==> #[trigger] file_in_facts(facts, r@[j].0@),
{
    let ghost f0 = facts;
    let ItemFacts {
        impls,
        traits,
        types,
        fns,
        uses,
        macros,
        derives,
        macro_defs,
        mods,
        type_usages,
        example_type_usages,
    } = facts;
    let mut out: Vec<(String, ItemFile)> = Vec::new();
    let ghost mut done: Set<ItemList> = Set::empty();
    assert(index_holds(out@, f0, done));
    let ghost b = out@;
    add_records(&mut out, impls, ItemList::Impls);
    proof { lemma_index_step(b, out@, f0, done, ItemList::Impls, impls@); done = done.insert(ItemList::Impls); }
    let ghost b = out@;
    add_records(&mut out, traits, ItemList::Traits);
    proof { lemma_index_step(b, out@, f0, done, ItemList::Traits, traits@); done = done.insert(ItemList::Traits); }
    let ghost b = out@;
    add_records(&mut out, types, ItemList::Types);
    proof { lemma_index_step(b, out@, f0, done, ItemList::Types, types@); done = done.insert(ItemList::Types); }
    let ghost b = out@;
    add_records(&mut out, fns, ItemList::Fns);
    proof { lemma_index_step(b, out@, f0, done, ItemList::Fns, fns@); done = done.insert(ItemList::Fns); }
    let ghost b = out@;
    add_records(&mut out, uses, ItemList::Uses);
    proof { lemma_index_step(b, out@, f0, done, ItemList::Uses, uses@); done = done.insert(ItemList::Uses); }
    let ghost b = out@;
    add_records(&mut out, macros, ItemList::Macros);
    proof { lemma_index_step(b, out@, f0, done, ItemList::Macros, macros@); done = done.insert(ItemList::Macros); }
    let ghost b = out@;
    add_records(&mut out, derives, ItemList::Derives);
    proof { lemma_index_step(b, out@, f0, done, ItemList::Derives, derives@); done = done.insert(ItemList::Derives); }
    let ghost b = out@;
    add_records(&mut out, macro_defs, ItemList::MacroDefs);
    proof { lemma_index_step(b, out@, f0, done, ItemList::MacroDefs, macro_defs@); done = done.insert(ItemList::MacroDefs); }
    let ghost b = out@;
    add_records(&mut out, mods, ItemList::Mods);
    proof { lemma_index_step(b, out@, f0, done, ItemList::Mods, mods@); done = done.insert(ItemList::Mods); }
    let ghost b = out@;
    add_records(&mut out, type_usages, ItemList::TypeUsages);
    proof { lemma_index_step(b, out@, f0, done, ItemList::TypeUsages, type_usages@); done = done.insert(ItemList::TypeUsages); }
    let ghost b = out@;
    add_records(&mut out, example_type_usages, ItemList::ExampleTypeUsages);
    proof {
        lemma_index_step(b, out@, f0, done, ItemList::ExampleTypeUsages, example_type_usages@);
        done = done.insert(ItemList::ExampleTypeUsages);
        assert forall|l: ItemList| #[trigger] done.contains(l) by {
            match l {
                _ => {},
            }
        }
        assert forall|j: int| 0 <= j < out@.len() implies #[trigger] file_in_facts(f0, out@[j].0@) by {
            assert(key_filed(out@[j].0@, f0, done));
            let (m, i) = choose|m: ItemList, i: int|
                done.contains(m) && 0 <= i < facts_list(f0, m).len() && #[trigger] file_of(facts_list(f0, m)[i])
                    == out@[j].0@;
            assert(file_from(facts_list(f0, m), out@[j].0@));
        }
    }
    out
}

} // verus!
