//! The pattern histogram: counts of trait impls, derives, attribute and
//! registration macros, type usages and free-function tables, ranked by
//! count.

use vstd::prelude::*;
use indexmap::IndexMap;
use crate::assoc::{key_pos, lemma_key_pos, lemma_key_pos_prefix};
use crate::crate_map::{count_entries, count_map_at, count_map_len};

use crate::text::{lemma_seq_lt_total_order, lex_compare, chars_of, push_str, seq_lt, str_eq};

verus! {

/// A trait impl fact: the implemented trait (none for inherent impls) and
/// whether it is `cfg`-gated.
#[derive(Debug, Clone)]
pub struct ImplFact {
    pub trait_name: Option<String>,
    pub cfg_gated: bool,
}

/// A derive fact: the derived trait.
#[derive(Debug, Clone)]
pub struct DeriveFact {
    pub trait_name: Option<String>,
}

/// A macro fact: its kind (`attr_macro`, `macro_invocation`, ...), its name
/// and how many identifiers its arguments carry.
#[derive(Debug, Clone)]
pub struct MacroFact {
    pub kind: String,
    pub name: Option<String>,
    pub arg_count: usize,
}

/// A type-usage fact: the used type's name.
#[derive(Debug, Clone)]
pub struct TypeUsageFact {
    pub name: Option<String>,
}

/// The facts the histogram reads.
#[derive(Debug, Clone)]
pub struct HistogramFacts {
    pub impls: Vec<ImplFact>,
    pub derives: Vec<DeriveFact>,
    pub macros: Vec<MacroFact>,
    pub type_usages: Vec<TypeUsageFact>,
}

/// One counting event: the pattern key and its kind, the amount, and
/// whether the pattern's count is set rather than increased.
pub ghost struct CountEvent {
    pub key: Seq<char>,
    pub kind: Seq<char>,
    pub n: nat,
    pub replace: bool,
}

/// The events of the trait impls: one per non-gated trait impl.
pub open spec fn impl_events(v: Seq<ImplFact>) -> Seq<CountEvent>
    decreases v.len(),
{
    if v.len() == 0 {
        Seq::empty()
    } else {
        let prev = impl_events(v.drop_last());
        match v.last().trait_name {
            Some(t) => if !v.last().cfg_gated {
                prev.push(CountEvent { key: "trait_impl:"@ + t@, kind: "trait_impl"@, n: 1, replace: false })
            } else {
                prev
            },
            None => prev,
        }
    }
}

/// The events of the derives: one per derived trait.
pub open spec fn derive_events(v: Seq<DeriveFact>) -> Seq<CountEvent>
    decreases v.len(),
{
    if v.len() == 0 {
        Seq::empty()
    } else {
        let prev = derive_events(v.drop_last());
        match v.last().trait_name {
            Some(t) => prev.push(CountEvent { key: "derive:"@ + t@, kind: "derive"@, n: 1, replace: false }),
            None => prev,
        }
    }
}

/// The events of the macros: an attribute macro counts once; a registration
/// macro invocation counts its argument identifiers (at least one).
pub open spec fn macro_events(v: Seq<MacroFact>) -> Seq<CountEvent>
    decreases v.len(),
{
    if v.len() == 0 {
        Seq::empty()
    } else {
        let prev = macro_events(v.drop_last());
        let m = v.last();
        match m.name {
            Some(name) => if m.kind@ == "attr_macro"@ {
                prev.push(CountEvent { key: "attr_macro:"@ + name@, kind: "attr_macro"@, n: 1, replace: false })
            } else if m.kind@ == "macro_invocation"@ {
                let n: nat = if m.arg_count == 0 {
                    1
                } else {
                    m.arg_count as nat
                };
                prev.push(CountEvent { key: "reg_macro:"@ + name@, kind: "reg_macro"@, n, replace: false })
            } else {
                prev
            },
            None => prev,
        }
    }
}

/// The registration macros invoked, one entry per invocation.
pub open spec fn reg_call_events(v: Seq<MacroFact>) -> Seq<Seq<char>>
    decreases v.len(),
{
    if v.len() == 0 {
        Seq::empty()
    } else {
        let prev = reg_call_events(v.drop_last());
        match v.last().name {
            Some(name) => if v.last().kind@ != "attr_macro"@ && v.last().kind@ == "macro_invocation"@ {
                prev.push(name@)
            } else {
                prev
            },
            None => prev,
        }
    }
}

/// The events of the type usages: one per named usage.
pub open spec fn usage_events(v: Seq<TypeUsageFact>) -> Seq<CountEvent>
    decreases v.len(),
{
    if v.len() == 0 {
        Seq::empty()
    } else {
        let prev = usage_events(v.drop_last());
        match v.last().name {
            Some(n) => prev.push(CountEvent { key: "type_usage:"@ + n@, kind: "type_usage"@, n: 1, replace: false }),
            None => prev,
        }
    }
}

/// The events of the free-function tables: a crate with at least 20 free
/// functions sets its table count.
pub open spec fn fn_table_events(v: Seq<(Seq<char>, usize)>) -> Seq<CountEvent>
    decreases v.len(),
{
    if v.len() == 0 {
        Seq::empty()
    } else {
        let prev = fn_table_events(v.drop_last());
        if v.last().1 >= 20 {
            prev.push(CountEvent { key: "fn_table:"@ + v.last().0, kind: "fn_table"@, n: v.last().1 as nat, replace: true })
        } else {
            prev
        }
    }
}

/// All counting events, in the order the histogram reads them.
pub open spec fn histogram_events(f: HistogramFacts, fns: Seq<(Seq<char>, usize)>) -> Seq<CountEvent> {
    impl_events(f.impls@) + derive_events(f.derives@) + macro_events(f.macros@) + usage_events(f.type_usages@)
        + fn_table_events(fns)
}

/// A counter list after one more event on key `k`.
pub open spec fn count_apply(cs: Seq<(Seq<char>, nat)>, k: Seq<char>, n: nat, replace: bool) -> Seq<(Seq<char>, nat)> {
    match key_pos(cs, k) {
        Some(i) => cs.update(i, (k, if replace {
            n
        } else {
            cs[i].1 + n
        })),
        None => cs.push((k, n)),
    }
}

/// The pattern counters after the events, in first-seen order.
pub open spec fn pattern_counts(evs: Seq<CountEvent>) -> Seq<(Seq<char>, nat)>
    decreases evs.len(),
{
    if evs.len() == 0 {
        Seq::empty()
    } else {
        count_apply(pattern_counts(evs.drop_last()), evs.last().key, evs.last().n, evs.last().replace)
    }
}

/// The per-kind counters after the events, in first-seen order.
pub open spec fn kind_counts(evs: Seq<CountEvent>) -> Seq<(Seq<char>, nat)>
    decreases evs.len(),
{
    if evs.len() == 0 {
        Seq::empty()
    } else {
        count_apply(kind_counts(evs.drop_last()), evs.last().kind, evs.last().n, false)
    }
}

/// The per-name invocation counters, in first-seen order.
pub open spec fn name_counts(names: Seq<Seq<char>>) -> Seq<(Seq<char>, nat)>
    decreases names.len(),
{
    if names.len() == 0 {
        Seq::empty()
    } else {
        count_apply(name_counts(names.drop_last()), names.last(), 1, false)
    }
}

/// The total amount of the events.
pub open spec fn events_weight(evs: Seq<CountEvent>) -> nat
    decreases evs.len(),
{
    if evs.len() == 0 {
        0
    } else {
        events_weight(evs.drop_last()) + evs.last().n
    }
}

/// `a` ranks before `b`: a higher count, or an equal count and a key that
/// comes first.
pub open spec fn ranks_before(a: (Seq<char>, nat), b: (Seq<char>, nat)) -> bool {
    a.1 > b.1 || (a.1 == b.1 && seq_lt(a.0, b.0))
}

/// `s` is in rank order.
pub open spec fn rank_sorted(s: Seq<(Seq<char>, nat)>) -> bool {
    forall|i: int, j: int| 0 <= i < j < s.len() ==> !ranks_before(#[trigger] s[j], #[trigger] s[i])
}

/// The views of a counter list.
pub open spec fn counters_view(v: Seq<(String, usize)>) -> Seq<(Seq<char>, nat)> {
    v.map_values(|e: (String, usize)| (e.0@, e.1 as nat))
}

proof fn lemma_ranks_order(a: (Seq<char>, nat), b: (Seq<char>, nat), c: (Seq<char>, nat))
    ensures
        !ranks_before(a, a),
        ranks_before(a, b) ==> !ranks_before(b, a),
        a != b ==> ranks_before(a, b) || ranks_before(b, a) || a.0 == b.0,
        ranks_before(a, b) && ranks_before(b, c) ==> ranks_before(a, c),
{
    lemma_seq_lt_total_order(a.0, b.0, c.0);
    lemma_seq_lt_total_order(b.0, c.0, a.0);
    lemma_seq_lt_total_order(a.0, a.0, a.0);
}

fn key_index(cs: &Vec<(String, usize)>, k: &String) -> (r: Option<usize>)
    ensures
        (match r {
            Some(i) => Some(i as int),
            None => None,
        }) == key_pos(counters_view(cs@), k@),
{
    let ghost s = counters_view(cs@);
    proof {
        lemma_key_pos(s, k@);
    }
    let mut i: usize = 0;
    while i < cs.len()
        invariant
            i <= cs@.len(),
            s == counters_view(cs@),
            key_pos(s.take(i as int), k@) is None,
        decreases cs@.len() - i,
    {
        assert(s.take(i + 1).drop_last() =~= s.take(i as int));
        if str_eq(cs[i].0.as_str(), k.as_str()) {
            proof {
                lemma_key_pos_prefix(s, i + 1, k@);
            }
            return Some(i);
        }
        i = i + 1;
    }
    assert(s.take(i as int) =~= s);
    None
}
/// Every counter is bounded by `w`.
pub open spec fn counters_bounded(cs: Seq<(Seq<char>, nat)>, w: nat) -> bool {
    forall|i: int| 0 <= i < cs.len() ==> (#[trigger] cs[i]).1 <= w
}

fn apply_event(cs: &mut Vec<(String, usize)>, k: &String, n: usize, replace: bool, Ghost(w): Ghost<nat>)
    requires
        counters_bounded(counters_view(old(cs)@), w),
        w + n <= usize::MAX,
    ensures
        counters_view(final(cs)@) == count_apply(counters_view(old(cs)@), k@, n as nat, replace),
        counters_bounded(counters_view(final(cs)@), (w + n) as nat),
{
    let ghost s = counters_view(cs@);
    proof {
        lemma_key_pos(s, k@);
    }
    match key_index(cs, k) {
        Some(i) => {
            let v = cs[i].1;
            assert(s[i as int].1 <= w);
            let nv = if replace {
                n
            } else {
                v + n
            };
            let kk = cs[i].0.clone();
            cs.set(i, (kk, nv));
            assert(counters_view(cs@) =~= s.update(i as int, (k@, nv as nat)));
        },
        None => {
            cs.push((k.clone(), n));
            assert(counters_view(cs@) =~= s.push((k@, n as nat)));
        },
    }
}

/// One counting event as the histogram builds it.
struct ExecEvent {
    key: String,
    kind: String,
    n: usize,
    replace: bool,
}

spec fn events_view(v: Seq<ExecEvent>) -> Seq<CountEvent> {
    v.map_values(|e: ExecEvent| CountEvent { key: e.key@, kind: e.kind@, n: e.n as nat, replace: e.replace })
}

fn prefixed(prefix: &str, name: &str) -> (r: String)
    ensures
        r@ == prefix@ + name@,
{
    let mut r = String::new();
    push_str(&mut r, prefix);
    push_str(&mut r, name);
    r
}

fn push_event(out: &mut Vec<ExecEvent>, key: String, kind: &str, n: usize, replace: bool)
    ensures
        events_view(final(out)@) == events_view(old(out)@).push(CountEvent { key: key@, kind: kind@, n: n as nat, replace }),
{
    let ghost before = events_view(out@);
    let ghost kv = key@;
    out.push(ExecEvent { key, kind: kind.to_owned(), n, replace });
    assert(events_view(out@) =~= before.push(CountEvent { key: kv, kind: kind@, n: n as nat, replace }));
}

fn push_impl_events(out: &mut Vec<ExecEvent>, v: &Vec<ImplFact>)
    ensures
        events_view(final(out)@) == events_view(old(out)@) + impl_events(v@),
{
    let ghost start = events_view(out@);
    let mut j: usize = 0;
    assert(start + impl_events(v@.take(0)) =~= start);
    while j < v.len()
        invariant
            j <= v@.len(),
            events_view(out@) == start + impl_events(v@.take(j as int)),
        decreases v@.len() - j,
    {
        assert(v@.take(j + 1).drop_last() =~= v@.take(j as int));
        assert(v@.take(j + 1).last() == v@[j as int]);
        match &v[j].trait_name {
            Some(t) => {
                if !v[j].cfg_gated {
                    push_event(out, prefixed("trait_impl:", t.as_str()), "trait_impl", 1, false);
                }
            },
            None => {},
        }
        assert(events_view(out@) =~= start + impl_events(v@.take(j + 1)));
        j = j + 1;
    }
    assert(v@.take(j as int) =~= v@);
}

fn push_derive_events(out: &mut Vec<ExecEvent>, v: &Vec<DeriveFact>)
    ensures
        events_view(final(out)@) == events_view(old(out)@) + derive_events(v@),
{
    let ghost start = events_view(out@);
    let mut j: usize = 0;
    assert(start + derive_events(v@.take(0)) =~= start);
    while j < v.len()
        invariant
            j <= v@.len(),
            events_view(out@) == start + derive_events(v@.take(j as int)),
        decreases v@.len() - j,
    {
        assert(v@.take(j + 1).drop_last() =~= v@.take(j as int));
        assert(v@.take(j + 1).last() == v@[j as int]);
        match &v[j].trait_name {
            Some(t) => {
                push_event(out, prefixed("derive:", t.as_str()), "derive", 1, false);
            },
            None => {},
        }
        assert(events_view(out@) =~= start + derive_events(v@.take(j + 1)));
        j = j + 1;
    }
    assert(v@.take(j as int) =~= v@);
}

fn push_macro_events(out: &mut Vec<ExecEvent>, calls: &mut Vec<String>, v: &Vec<MacroFact>)
    ensures
        events_view(final(out)@) == events_view(old(out)@) + macro_events(v@),
        crate::resolution::strings_view(final(calls)@) == crate::resolution::strings_view(old(calls)@)
            + reg_call_events(v@),
{
    let ghost start = events_view(out@);
    let ghost cstart = crate::resolution::strings_view(calls@);
    let mut j: usize = 0;
    assert(start + macro_events(v@.take(0)) =~= start);
    assert(cstart + reg_call_events(v@.take(0)) =~= cstart);
    while j < v.len()
        invariant
            j <= v@.len(),
            events_view(out@) == start + macro_events(v@.take(j as int)),
            crate::resolution::strings_view(calls@) == cstart + reg_call_events(v@.take(j as int)),
        decreases v@.len() - j,
    {
        assert(v@.take(j + 1).drop_last() =~= v@.take(j as int));
        assert(v@.take(j + 1).last() == v@[j as int]);
        let m = &v[j];
        match &m.name {
            Some(name) => {
                if str_eq(m.kind.as_str(), "attr_macro") {
                    push_event(out, prefixed("attr_macro:", name.as_str()), "attr_macro", 1, false);
                } else if str_eq(m.kind.as_str(), "macro_invocation") {
                    let n = if m.arg_count == 0 {
                        1
                    } else {
                        m.arg_count
                    };
                    push_event(out, prefixed("reg_macro:", name.as_str()), "reg_macro", n, false);
                    let ghost c0 = crate::resolution::strings_view(calls@);
                    calls.push(name.clone());
                    assert(crate::resolution::strings_view(calls@) =~= c0.push(name@));
                }
            },
            None => {},
        }
        assert(events_view(out@) =~= start + macro_events(v@.take(j + 1)));
        assert(crate::resolution::strings_view(calls@) =~= cstart + reg_call_events(v@.take(j + 1)));
        j = j + 1;
    }
    assert(v@.take(j as int) =~= v@);
}

fn push_usage_events(out: &mut Vec<ExecEvent>, v: &Vec<TypeUsageFact>)
    ensures
        events_view(final(out)@) == events_view(old(out)@) + usage_events(v@),
{
    let ghost start = events_view(out@);
    let mut j: usize = 0;
    assert(start + usage_events(v@.take(0)) =~= start);
    while j < v.len()
        invariant
            j <= v@.len(),
            events_view(out@) == start + usage_events(v@.take(j as int)),
        decreases v@.len() - j,
    {
        assert(v@.take(j + 1).drop_last() =~= v@.take(j as int));
        assert(v@.take(j + 1).last() == v@[j as int]);
        match &v[j].name {
            Some(n) => {
                push_event(out, prefixed("type_usage:", n.as_str()), "type_usage", 1, false);
            },
            None => {},
        }
        assert(events_view(out@) =~= start + usage_events(v@.take(j + 1)));
        j = j + 1;
    }
    assert(v@.take(j as int) =~= v@);
}

fn push_fn_table_events(out: &mut Vec<ExecEvent>, fns: &IndexMap<String, usize>)
    ensures
        events_view(final(out)@) == events_view(old(out)@) + fn_table_events(count_entries(*fns)),
{
    let ghost start = events_view(out@);
    let ghost es = count_entries(*fns);
    let n = count_map_len(fns);
    let mut j: usize = 0;
    assert(start + fn_table_events(es.take(0)) =~= start);
    while j < n
        invariant
            j <= n == es.len(),
            es == count_entries(*fns),
            events_view(out@) == start + fn_table_events(es.take(j as int)),
        decreases n - j,
    {
        assert(es.take(j + 1).drop_last() =~= es.take(j as int));
        assert(es.take(j + 1).last() == es[j as int]);
        let (name, count) = count_map_at(fns, j).unwrap();
        if *count >= 20 {
            push_event(out, prefixed("fn_table:", name.as_str()), "fn_table", *count, true);
        }
        assert(events_view(out@) =~= start + fn_table_events(es.take(j + 1)));
        j = j + 1;
    }
    assert(es.take(j as int) =~= es);
}

proof fn lemma_weight_prefix(evs: Seq<CountEvent>, i: int)
    requires
        0 <= i <= evs.len(),
    ensures
        events_weight(evs.take(i)) <= events_weight(evs),
    decreases evs.len() - i,
{
    if i < evs.len() {
        assert(evs.take(i + 1).drop_last() =~= evs.take(i));
        lemma_weight_prefix(evs, i + 1);
    } else {
        assert(evs.take(i) =~= evs);
    }
}

fn count_all(evs: &Vec<ExecEvent>) -> (r: (Vec<(String, usize)>, Vec<(String, usize)>))
    requires
        events_weight(events_view(evs@)) <= usize::MAX,
    ensures
        counters_view(r.0@) == pattern_counts(events_view(evs@)),
        counters_view(r.1@) == kind_counts(events_view(evs@)),
{
    let ghost ev = events_view(evs@);
    let mut patterns: Vec<(String, usize)> = Vec::new();
    let mut kinds: Vec<(String, usize)> = Vec::new();
    let mut i: usize = 0;
    assert(counters_view(patterns@) =~= pattern_counts(ev.take(0)));
    assert(counters_view(kinds@) =~= kind_counts(ev.take(0)));
    while i < evs.len()
        invariant
            i <= evs@.len(),
            ev == events_view(evs@),
            events_weight(ev) <= usize::MAX,
            counters_view(patterns@) == pattern_counts(ev.take(i as int)),
            counters_view(kinds@) == kind_counts(ev.take(i as int)),
            counters_bounded(counters_view(patterns@), events_weight(ev.take(i as int))),
            counters_bounded(counters_view(kinds@), events_weight(ev.take(i as int))),
        decreases evs@.len() - i,
    {
        assert(ev.take(i + 1).drop_last() =~= ev.take(i as int));
        assert(ev.take(i + 1).last() == ev[i as int]);
        proof {
            lemma_weight_prefix(ev, i + 1);
        }
        let e = &evs[i];
        let kind = e.kind.clone();
        apply_event(&mut patterns, &e.key, e.n, e.replace, Ghost(events_weight(ev.take(i as int))));
        apply_event(&mut kinds, &kind, e.n, false, Ghost(events_weight(ev.take(i as int))));
        i = i + 1;
    }
    assert(ev.take(i as int) =~= ev);
    (patterns, kinds)
}

pub(crate) fn count_names(names: &Vec<String>) -> (r: Vec<(String, usize)>)
    ensures
        counters_view(r@) == name_counts(crate::resolution::strings_view(names@)),
{
    let ghost ns = crate::resolution::strings_view(names@);
    let mut cs: Vec<(String, usize)> = Vec::new();
    let mut i: usize = 0;
    assert(counters_view(cs@) =~= name_counts(ns.take(0)));
    while i < names.len()
        invariant
            i <= names@.len(),
            ns == crate::resolution::strings_view(names@),
            counters_view(cs@) == name_counts(ns.take(i as int)),
            counters_bounded(counters_view(cs@), i as nat),
        decreases names@.len() - i,
    {
        assert(ns.take(i + 1).drop_last() =~= ns.take(i as int));
        assert(ns.take(i + 1).last() == names@[i as int]@);
        apply_event(&mut cs, &names[i], 1, false, Ghost(i as nat));
        i = i + 1;
    }
    assert(ns.take(i as int) =~= ns);
    cs
}

fn ranks_before_exec(a: &(String, usize), b: &(String, usize)) -> (r: bool)
    ensures
        r == ranks_before((a.0@, a.1 as nat), (b.0@, b.1 as nat)),
{
    if a.1 != b.1 {
        a.1 > b.1
    } else {
        let x = chars_of(a.0.as_str());
        let y = chars_of(b.0.as_str());
        lex_compare(&x, &y) == -1
    }
}

/// The counters in rank order: count descending, then key ascending.
pub fn rank_counts(v: Vec<(String, usize)>) -> (r: Vec<(String, usize)>)
    ensures
        rank_sorted(counters_view(r@)),
        counters_view(r@).to_multiset() == counters_view(v@).to_multiset(),
{
    broadcast use vstd::seq_lib::group_to_multiset_ensures;

    let ghost vs = counters_view(v@);
    let mut r: Vec<(String, usize)> = Vec::new();
    assert(vs.take(0) =~= Seq::<(Seq<char>, nat)>::empty());
    assert(counters_view(r@) =~= Seq::<(Seq<char>, nat)>::empty());
    let mut i: usize = 0;
    while i < v.len()
        invariant
            i <= v@.len(),
            vs == counters_view(v@),
            rank_sorted(counters_view(r@)),
            counters_view(r@).to_multiset() == vs.take(i as int).to_multiset(),
        decreases v@.len() - i,
    {
        let x = (v[i].0.clone(), v[i].1);
        let ghost xv = (x.0@, x.1 as nat);
        assert(xv == vs[i as int]);
        let ghost s = counters_view(r@);
        let mut p: usize = 0;
        while p < r.len() && !ranks_before_exec(&x, &r[p])
            invariant
                p <= r@.len(),
                s == counters_view(r@),
                xv == (x.0@, x.1 as nat),
                forall|k: int| 0 <= k < p ==> !ranks_before(xv, #[trigger] s[k]),
            decreases r@.len() - p,
        {
            p = p + 1;
        }
        proof {
            assert forall|k: int| p <= k < s.len() implies ranks_before(xv, #[trigger] s[k]) by {
                assert(ranks_before(xv, s[p as int]));
                if k > p {
                    assert(!ranks_before(s[k], s[p as int]));
                    lemma_ranks_order(xv, s[p as int], s[k]);
                    lemma_ranks_order(s[p as int], s[k], s[k]);
                    lemma_ranks_order(s[k], s[p as int], xv);
                    lemma_seq_lt_total_order(s[p as int].0, s[k].0, s[k].0);
                }
            }
        }
        r.insert(p, x);
        let ghost t = counters_view(r@);
        assert(t =~= s.insert(p as int, xv));
        proof {
            assert forall|a: int, b: int| 0 <= a < b < t.len() implies !ranks_before(#[trigger] t[b], #[trigger] t[a]) by {
                if b < p {
                    assert(t[a] == s[a] && t[b] == s[b]);
                } else if b == p {
                    assert(t[b] == xv && t[a] == s[a]);
                    assert(!ranks_before(xv, s[a]));
                } else if a < p {
                    assert(t[a] == s[a] && t[b] == s[b - 1]);
                    assert(!ranks_before(xv, s[a]));
                    assert(ranks_before(xv, s[b - 1]));
                    lemma_ranks_order(s[b - 1], s[a], xv);
                    lemma_ranks_order(xv, s[b - 1], s[a]);
                    lemma_ranks_order(s[a], xv, s[b - 1]);
                    lemma_seq_lt_total_order(s[a].0, xv.0, s[b - 1].0);
                    lemma_seq_lt_total_order(xv.0, s[a].0, s[b - 1].0);
                    lemma_seq_lt_total_order(s[b - 1].0, s[a].0, xv.0);
                } else if a == p {
                    assert(t[a] == xv && t[b] == s[b - 1]);
                    assert(ranks_before(xv, s[b - 1]));
                    lemma_ranks_order(xv, s[b - 1], xv);
                } else {
                    assert(t[a] == s[a - 1] && t[b] == s[b - 1]);
                }
            }
            vstd::seq_lib::to_multiset_insert(s, p as int, xv);
            assert(vs.take(i + 1) =~= vs.take(i as int).push(vs[i as int]));
            vstd::seq_lib::to_multiset_build(vs.take(i as int), vs[i as int]);
        }
        i = i + 1;
    }
    assert(vs.take(i as int) =~= vs);
    r
}

/// What a pattern histogram holds: the pattern counters ranked (count
/// descending, then key ascending) and holding the counts of the events, the
/// per-kind totals and the per-name registration macro invocation counts,
/// both in first-seen order.
pub open spec fn histogram_of(
    r: (Vec<(String, usize)>, Vec<(String, usize)>, Vec<(String, usize)>),
    facts: HistogramFacts,
    free_fns: Seq<(Seq<char>, usize)>,
) -> bool {
    let evs = histogram_events(facts, free_fns);
    &&& rank_sorted(counters_view(r.0@))
    &&& counters_view(r.0@).to_multiset() == pattern_counts(evs).to_multiset()
    &&& counters_view(r.1@) == kind_counts(evs)
    &&& counters_view(r.2@) == name_counts(reg_call_events(facts.macros@))
}

/// The pattern histogram: pattern keys ranked by count (descending, then
/// key ascending), the per-kind totals and the per-name registration macro
/// invocation counts, both in first-seen order.
pub fn pattern_histogram(facts: &HistogramFacts, free_fns_by_crate: &IndexMap<String, usize>) -> (r: (
    Vec<(String, usize)>,
    Vec<(String, usize)>,
    Vec<(String, usize)>,
))
    requires
        events_weight(histogram_events(*facts, count_entries(*free_fns_by_crate))) <= usize::MAX,
    ensures
        histogram_of(r, *facts, count_entries(*free_fns_by_crate)),
{
    proof {
        reveal_strlit("attr_macro");
        reveal_strlit("macro_invocation");
    }
    let mut evs: Vec<ExecEvent> = Vec::new();
    let mut calls: Vec<String> = Vec::new();
    assert(events_view(evs@) =~= Seq::<CountEvent>::empty());
    assert(crate::resolution::strings_view(calls@) =~= Seq::<Seq<char>>::empty());
    push_impl_events(&mut evs, &facts.impls);
    push_derive_events(&mut evs, &facts.derives);
    push_macro_events(&mut evs, &mut calls, &facts.macros);
    push_usage_events(&mut evs, &facts.type_usages);
    push_fn_table_events(&mut evs, free_fns_by_crate);
    assert(events_view(evs@) =~= histogram_events(*facts, count_entries(*free_fns_by_crate)));
    assert(crate::resolution::strings_view(calls@) =~= reg_call_events(facts.macros@));
    let (patterns, kinds) = count_all(&evs);
    let reg = count_names(&calls);
    let ranked = rank_counts(patterns);
    (ranked, kinds, reg)
}

proof fn lemma_events_weight_prefix(evs: Seq<CountEvent>, n: int)
    requires
        0 <= n <= evs.len(),
    ensures
        events_weight(evs.take(n)) <= events_weight(evs),
    decreases evs.len(),
{
    if n < evs.len() {
        assert(evs.drop_last().take(n) =~= evs.take(n));
        lemma_events_weight_prefix(evs.drop_last(), n);
    } else {
        assert(evs.take(n) =~= evs);
    }
}

fn events_total(evs: &Vec<ExecEvent>) -> (r: Option<usize>)
    ensures
        r matches Some(w) ==> w as nat == events_weight(events_view(evs@)),
        r is None <==> events_weight(events_view(evs@)) > usize::MAX,
{
    let ghost v = events_view(evs@);
    let mut total: usize = 0;
    let mut i: usize = 0;
    assert(v.take(0) =~= Seq::<CountEvent>::empty());
    while i < evs.len()
        invariant
            i <= evs@.len(),
            v == events_view(evs@),
            total as nat == events_weight(v.take(i as int)),
        decreases evs@.len() - i,
    {
        assert(v.take(i + 1).drop_last() =~= v.take(i as int));
        assert(v.take(i + 1).last() == v[i as int]);
        match total.checked_add(evs[i].n) {
            Some(t2) => {
                total = t2;
            },
            None => {
                proof {
                    lemma_events_weight_prefix(v, i + 1);
                }
                return None;
            },
        }
        i = i + 1;
    }
    assert(v.take(i as int) =~= v);
    Some(total)
}

/// `pattern_histogram` for any facts: `None` exactly when the events' total
/// weight does not fit a `usize`.
pub fn pattern_histogram_checked(facts: &HistogramFacts, free_fns_by_crate: &IndexMap<String, usize>) -> (r: Option<
    (Vec<(String, usize)>, Vec<(String, usize)>, Vec<(String, usize)>),
>)
    ensures
        r is None <==> events_weight(histogram_events(*facts, count_entries(*free_fns_by_crate))) > usize::MAX,
        r matches Some(h) ==> histogram_of(h, *facts, count_entries(*free_fns_by_crate)),
{
    proof {
        reveal_strlit("attr_macro");
        reveal_strlit("macro_invocation");
    }
    let mut evs: Vec<ExecEvent> = Vec::new();
    let mut calls: Vec<String> = Vec::new();
    assert(events_view(evs@) =~= Seq::<CountEvent>::empty());
    assert(crate::resolution::strings_view(calls@) =~= Seq::<Seq<char>>::empty());
    push_impl_events(&mut evs, &facts.impls);
    push_derive_events(&mut evs, &facts.derives);
    push_macro_events(&mut evs, &mut calls, &facts.macros);
    push_usage_events(&mut evs, &facts.type_usages);
    push_fn_table_events(&mut evs, free_fns_by_crate);
    assert(events_view(evs@) =~= histogram_events(*facts, count_entries(*free_fns_by_crate)));
    match events_total(&evs) {
        Some(_) => Some(pattern_histogram(facts, free_fns_by_crate)),
        None => None,
    }
}

} // verus!
