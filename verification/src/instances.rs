//! Seed instances of picks: the fact records a pattern's instance and span
//! list are read from, the `file:line` span anchors, and the choice of a
//! pattern's seed record per group.

use vstd::prelude::*;
use crate::metrics::text_or_empty;
use crate::numfmt::{decimal_view, push_decimal_wide, push_signed, signed_view};
use crate::pattern::{Pattern, PatternView};
use crate::picks::PickGroup;
use crate::resolution::{opt_view, strings_view};
use crate::stable_order::{KeyView, SortKey, keys_view, lemma_stable_order_range, positions_view, stable_order, stable_order_exec};
use crate::text::{push_str, split_once, starts_with, str_eq, str_starts_with};

verus! {

/// One fact record as the fact lists carry it: name, crate, file, line and
/// end line, whether `cfg`-gated, kind, trait and implementing type (impls),
/// brace depth (functions), macro argument identifiers, re-export flag and
/// path (uses), the outer / inner parts of `Outer::inner` references, and
/// the declaration's doc comment.
#[derive(Debug, Clone)]
pub struct FactRecord {
    pub name: Option<String>,
    pub crate_name: Option<String>,
    pub file: Option<String>,
    pub line: Option<i64>,
    pub end_line: Option<i64>,
    pub cfg_gated: bool,
    pub kind: Option<String>,
    pub trait_name: Option<String>,
    pub target_type: Option<String>,
    pub brace_depth: Option<i64>,
    pub arg_idents: Vec<String>,
    pub reexport: bool,
    pub path: Option<String>,
    pub outer: Option<String>,
    pub inner: Option<String>,
    pub doc: Option<String>,
}

/// The fact lists a seed instance is read from.
#[derive(Debug, Clone)]
pub struct InstanceFacts {
    pub impls: Vec<FactRecord>,
    pub traits: Vec<FactRecord>,
    pub derives: Vec<FactRecord>,
    pub macros: Vec<FactRecord>,
    pub types: Vec<FactRecord>,
    pub type_usages: Vec<FactRecord>,
    pub example_type_usages: Vec<FactRecord>,
    pub ast_method_refs: Vec<FactRecord>,
}

/// A record's line, `-1` when absent.
pub open spec fn rec_line(r: FactRecord) -> int {
    match r.line {
        Some(l) => l as int,
        None => -1,
    }
}

/// A line number as a span shows it: `?` when negative.
pub open spec fn line_text(line: int) -> Seq<char> {
    if line < 0 {
        "?"@
    } else {
        decimal_view(line as nat)
    }
}

/// A record's file as a span shows it: `?` when absent.
pub open spec fn file_text(r: FactRecord) -> Seq<char> {
    match r.file {
        Some(f) => f@,
        None => "?"@,
    }
}

/// The `file:line` anchor of a record.
pub open spec fn span_basic_view(r: FactRecord) -> Seq<char> {
    file_text(r) + ":"@ + line_text(rec_line(r))
}

/// The anchor of a record with its line range: `file:line-end` when the
/// record carries an end line other than its line, else `file:line`.
pub open spec fn span_view(r: FactRecord) -> Seq<char> {
    match r.end_line {
        Some(e) => if e as int != rec_line(r) {
            span_basic_view(r) + "-"@ + signed_view(e as int)
        } else {
            span_basic_view(r)
        },
        None => span_basic_view(r),
    }
}

/// The `file:line` anchor of a record (`?` for a missing file or line).
pub fn span_basic(rec: &FactRecord) -> (r: String)
    ensures
        r@ == span_basic_view(*rec),
{
    proof {
        reveal_strlit("?");
        reveal_strlit(":");
    }
    let mut out = match &rec.file {
        Some(f) => f.clone(),
        None => "?".to_string(),
    };
    push_str(&mut out, ":");
    let line: i64 = match rec.line {
        Some(l) => l,
        None => -1,
    };
    if line < 0 {
        push_str(&mut out, "?");
    } else {
        push_decimal_wide(&mut out, line as u128);
    }
    out
}

/// The anchor of a record: `file:line`, or `file:line-end` when it carries
/// an end line other than its line.
pub fn span(rec: &FactRecord) -> (r: String)
    ensures
        r@ == span_view(*rec),
{
    proof {
        reveal_strlit("-");
    }
    let mut out = span_basic(rec);
    let line: i64 = match rec.line {
        Some(l) => l,
        None => -1,
    };
    match rec.end_line {
        Some(e) => {
            if e != line {
                push_str(&mut out, "-");
                push_signed(&mut out, e);
            }
        },
        None => {},
    }
    out
}

/// Which records a seed lookup selects.
pub ghost enum WantView {
    TraitOpen(Seq<char>),
    Trait(Seq<char>),
    Name(Seq<char>),
    NameKind(Seq<char>, Seq<char>),
    Outer(Seq<char>),
    Inner(Seq<char>),
    OuterInner(Seq<char>, Seq<char>),
}

/// Whether a record is selected: a non-gated impl of the trait; a record of
/// the trait; of the name; of the name and kind; a usage whose name's part
/// before the first `::` is the name; a reference with that inner part; a
/// reference with that outer and inner part.
pub open spec fn wants(w: WantView, r: FactRecord) -> bool {
    match w {
        WantView::TraitOpen(n) => opt_view(r.trait_name) == Some(n) && !r.cfg_gated,
        WantView::Trait(n) => opt_view(r.trait_name) == Some(n),
        WantView::Name(n) => opt_view(r.name) == Some(n),
        WantView::NameKind(n, k) => opt_view(r.name) == Some(n) && opt_view(r.kind) == Some(k),
        WantView::Outer(n) => match split_once(text_or_empty(r.name), "::"@) {
            Some((o, _)) => o == n,
            None => false,
        },
        WantView::Inner(n) => opt_view(r.inner) == Some(n),
        WantView::OuterInner(o, i) => opt_view(r.outer) == Some(o) && opt_view(r.inner) == Some(i),
    }
}

/// The positions of the selected records, in order.
pub open spec fn select(rs: Seq<FactRecord>, w: WantView) -> Seq<int>
    decreases rs.len(),
{
    if rs.len() == 0 {
        Seq::empty()
    } else if wants(w, rs.last()) {
        select(rs.drop_last(), w).push(rs.len() - 1)
    } else {
        select(rs.drop_last(), w)
    }
}

/// The seed of a selection: its first record and the anchors of its first
/// 200 records (with line ranges when `full`).
pub open spec fn pick(rs: Seq<FactRecord>, idx: Seq<int>, full: bool) -> (Option<FactRecord>, Seq<Seq<char>>) {
    (
        if idx.len() > 0 {
            Some(rs[idx[0]])
        } else {
            None
        },
        idx.take(if idx.len() < 200 {
            idx.len() as int
        } else {
            200
        }).map_values(
            |i: int|
                if full {
                    span_view(rs[i])
                } else {
                    span_basic_view(rs[i])
                },
        ),
    )
}

/// The sort key of an impl by its type (`None` when untyped).
pub open spec fn type_key(r: FactRecord) -> KeyView {
    KeyView {
        num: 0,
        first: match r.target_type {
            Some(t) => t@,
            None => "None"@,
        },
        second: Seq::empty(),
        tail: 0,
    }
}

/// The impls of a trait in stable order of their types.
pub open spec fn impls_by_type(rs: Seq<FactRecord>, sel: Seq<int>) -> Seq<int> {
    let ord = stable_order(sel.map_values(|i: int| type_key(rs[i])));
    ord.map_values(|k: int| sel[k])
}

/// The usages of a name, or of the examples when the workspace has none.
pub open spec fn usages_or_examples(f: InstanceFacts, w: WantView) -> (Option<FactRecord>, Seq<Seq<char>>) {
    let tu = select(f.type_usages@, w);
    if tu.len() > 0 {
        pick(f.type_usages@, tu, false)
    } else {
        pick(f.example_type_usages@, select(f.example_type_usages@, w), false)
    }
}

/// The seed instance of a pattern and the anchors of its matching records:
/// traits by their non-gated impls (ordered by type), else the trait
/// declaration; derives by derive sites, else attribute-macro sites;
/// utilities by macro sites; structures by the type declaration, else usages
/// through the type; implementation functions `_::m` by method references,
/// `O::m` by exact usages; trait functions `_::m` by method references;
/// globals `O::C` by the references to them.
pub open spec fn instance_view(p: PatternView, f: InstanceFacts) -> (Option<FactRecord>, Seq<Seq<char>>) {
    let name = p.name();
    match p.kind() {
        PickGroup::Traits => {
            let sel = select(f.impls@, WantView::TraitOpen(name));
            if sel.len() > 0 {
                pick(f.impls@, impls_by_type(f.impls@, sel), true)
            } else {
                pick(f.traits@, select(f.traits@, WantView::Name(name)), false)
            }
        },
        PickGroup::Derives => {
            let sel = select(f.derives@, WantView::Trait(name));
            if sel.len() > 0 {
                pick(f.derives@, sel, false)
            } else {
                pick(f.macros@, select(f.macros@, WantView::NameKind(name, "attr_macro"@)), false)
            }
        },
        PickGroup::Utilities => pick(f.macros@, select(f.macros@, WantView::Name(name)), true),
        PickGroup::Structure => {
            let sel = select(f.types@, WantView::Name(name));
            if sel.len() > 0 {
                pick(f.types@, sel, false)
            } else {
                usages_or_examples(f, WantView::Outer(name))
            }
        },
        PickGroup::ImplementationFunctions => if starts_with(name, "_::"@) {
            pick(f.ast_method_refs@, select(f.ast_method_refs@, WantView::Inner(name.skip(3))), false)
        } else {
            usages_or_examples(f, WantView::Name(name))
        },
        PickGroup::TraitFunctions => if starts_with(name, "_::"@) {
            pick(f.ast_method_refs@, select(f.ast_method_refs@, WantView::Inner(name.skip(3))), false)
        } else {
            (None, Seq::empty())
        },
        PickGroup::Globals => match split_once(name, "::"@) {
            Some((o, c)) => pick(f.ast_method_refs@, select(f.ast_method_refs@, WantView::OuterInner(o, c)), false),
            None => (None, Seq::empty()),
        },
    }
}

/// Which records a seed lookup selects.
pub enum Want {
    TraitOpen(String),
    Trait(String),
    Name(String),
    NameKind(String, String),
    Outer(String),
    Inner(String),
    OuterInner(String, String),
}

impl View for Want {
    type V = WantView;

    open spec fn view(&self) -> WantView {
        match self {
            Want::TraitOpen(n) => WantView::TraitOpen(n@),
            Want::Trait(n) => WantView::Trait(n@),
            Want::Name(n) => WantView::Name(n@),
            Want::NameKind(n, k) => WantView::NameKind(n@, k@),
            Want::Outer(n) => WantView::Outer(n@),
            Want::Inner(n) => WantView::Inner(n@),
            Want::OuterInner(o, i) => WantView::OuterInner(o@, i@),
        }
    }
}

fn opt_eq(o: &Option<String>, x: &str) -> (r: bool)
    ensures
        r == (opt_view(*o) == Some(x@)),
{
    match o {
        Some(s) => str_eq(s.as_str(), x),
        None => false,
    }
}

fn wants_exec(w: &Want, r: &FactRecord) -> (b: bool)
    ensures
        b == wants(w@, *r),
{
    match w {
        Want::TraitOpen(n) => opt_eq(&r.trait_name, n.as_str()) && !r.cfg_gated,
        Want::Trait(n) => opt_eq(&r.trait_name, n.as_str()),
        Want::Name(n) => opt_eq(&r.name, n.as_str()),
        Want::NameKind(n, k) => opt_eq(&r.name, n.as_str()) && opt_eq(&r.kind, k.as_str()),
        Want::Outer(n) => {
            let nm = crate::metrics::owned_or_empty(&r.name);
            match crate::grouping::split_once_str(nm.as_str(), "::") {
                Some((o, _)) => str_eq(o.as_str(), n.as_str()),
                None => false,
            }
        },
        Want::Inner(n) => opt_eq(&r.inner, n.as_str()),
        Want::OuterInner(o, i) => opt_eq(&r.outer, o.as_str()) && opt_eq(&r.inner, i.as_str()),
    }
}

fn select_exec(rs: &Vec<FactRecord>, w: &Want) -> (r: Vec<usize>)
    ensures
        positions_view(r@) == select(rs@, w@),
        forall|k: int| 0 <= k < r@.len() ==> r@[k] < rs@.len(),
{
    let mut r: Vec<usize> = Vec::new();
    let mut i: usize = 0;
    while i < rs.len()
        invariant
            i <= rs@.len(),
            positions_view(r@) == select(rs@.take(i as int), w@),
            forall|k: int| 0 <= k < r@.len() ==> r@[k] < i,
        decreases rs@.len() - i,
    {
        proof {
            assert(rs@.take(i + 1).drop_last() =~= rs@.take(i as int));
            assert(rs@.take(i + 1).last() == rs@[i as int]);
            lemma_select_prefix_positions(rs@, i as int + 1, w@);
        }
        if wants_exec(w, &rs[i]) {
            let ghost before = positions_view(r@);
            r.push(i);
            assert(positions_view(r@) =~= before.push(i as int));
        }
        i = i + 1;
    }
    assert(rs@.take(i as int) =~= rs@);
    r
}

proof fn lemma_select_prefix_positions(rs: Seq<FactRecord>, n: int, w: WantView)
    requires
        0 < n <= rs.len(),
    ensures
        select(rs.take(n), w) == if wants(w, rs[n - 1]) {
            select(rs.take(n - 1), w).push(n - 1)
        } else {
            select(rs.take(n - 1), w)
        },
{
    assert(rs.take(n).drop_last() =~= rs.take(n - 1));
    assert(rs.take(n).last() == rs[n - 1]);
}

fn pick_exec<'a>(rs: &'a Vec<FactRecord>, idx: &Vec<usize>, full: bool) -> (r: (Option<&'a FactRecord>, Vec<String>))
    requires
        forall|k: int| 0 <= k < idx@.len() ==> idx@[k] < rs@.len(),
    ensures
        (
            match r.0 {
                Some(x) => Some(*x),
                None => None,
            },
            strings_view(r.1@),
        ) == pick(rs@, positions_view(idx@), full),
{
    let ghost iv = positions_view(idx@);
    let n: usize = if idx.len() < 200 {
        idx.len()
    } else {
        200
    };
    let ghost want = pick(rs@, iv, full).1;
    let mut spans: Vec<String> = Vec::new();
    let mut k: usize = 0;
    while k < n
        invariant
            k <= n <= idx@.len(),
            n == (if idx@.len() < 200 {
                idx@.len()
            } else {
                200
            }),
            iv == positions_view(idx@),
            want == pick(rs@, iv, full).1,
            forall|j: int| 0 <= j < idx@.len() ==> idx@[j] < rs@.len(),
            strings_view(spans@) == want.take(k as int),
        decreases n - k,
    {
        let rec = &rs[idx[k]];
        let sp = if full {
            span(rec)
        } else {
            span_basic(rec)
        };
        let ghost before = strings_view(spans@);
        spans.push(sp);
        proof {
            assert(want[k as int] == (if full {
                span_view(rs@[iv[k as int]])
            } else {
                span_basic_view(rs@[iv[k as int]])
            }));
            assert(strings_view(spans@) =~= before.push(want[k as int]));
            assert(want.take(k + 1) =~= want.take(k as int).push(want[k as int]));
        }
        k = k + 1;
    }
    assert(want.take(k as int) =~= want);
    let first = if idx.len() > 0 {
        Some(&rs[idx[0]])
    } else {
        None
    };
    (first, spans)
}

fn impls_by_type_exec(rs: &Vec<FactRecord>, sel: &Vec<usize>) -> (r: Vec<usize>)
    requires
        forall|k: int| 0 <= k < sel@.len() ==> sel@[k] < rs@.len(),
    ensures
        positions_view(r@) == impls_by_type(rs@, positions_view(sel@)),
        forall|k: int| 0 <= k < r@.len() ==> r@[k] < rs@.len(),
{
    proof {
        reveal_strlit("None");
    }
    let ghost sv = positions_view(sel@);
    let mut keys: Vec<SortKey> = Vec::new();
    let mut i: usize = 0;
    while i < sel.len()
        invariant
            i <= sel@.len(),
            sv == positions_view(sel@),
            forall|k: int| 0 <= k < sel@.len() ==> sel@[k] < rs@.len(),
            keys_view(keys@) == sv.take(i as int).map_values(|j: int| type_key(rs@[j])),
        decreases sel@.len() - i,
    {
        let rec = &rs[sel[i]];
        let first = match &rec.target_type {
            Some(t) => t.clone(),
            None => "None".to_string(),
        };
        let ghost before = keys_view(keys@);
        let key = SortKey { num: 0, first, second: String::new(), tail: 0 };
        keys.push(key);
        proof {
            assert(key@ == type_key(rs@[sv[i as int]]));
            assert(keys_view(keys@) =~= before.push(key@));
            assert(sv.take(i + 1) =~= sv.take(i as int).push(sv[i as int]));
            assert(sv.take(i + 1).map_values(|j: int| type_key(rs@[j])) =~= sv.take(i as int).map_values(
                |j: int| type_key(rs@[j]),
            ).push(type_key(rs@[sv[i as int]])));
        }
        i = i + 1;
    }
    assert(sv.take(i as int) =~= sv);
    let ord = stable_order_exec(&keys);
    let ghost ov = positions_view(ord@);
    let mut r: Vec<usize> = Vec::new();
    let mut j: usize = 0;
    while j < ord.len()
        invariant
            j <= ord@.len(),
            ord@.len() == sel@.len(),
            ov == positions_view(ord@),
            forall|k: int| 0 <= k < ord@.len() ==> ord@[k] < sel@.len(),
            forall|k: int| 0 <= k < sel@.len() ==> sel@[k] < rs@.len(),
            sv == positions_view(sel@),
            positions_view(r@) == ov.take(j as int).map_values(|k: int| sv[k]),
            forall|k: int| 0 <= k < r@.len() ==> r@[k] < rs@.len(),
        decreases ord@.len() - j,
    {
        let ghost before = positions_view(r@);
        r.push(sel[ord[j]]);
        proof {
            assert(positions_view(r@) =~= before.push(sv[ov[j as int]]));
            assert(ov.take(j + 1) =~= ov.take(j as int).push(ov[j as int]));
            assert(ov.take(j + 1).map_values(|k: int| sv[k]) =~= ov.take(j as int).map_values(|k: int| sv[k]).push(
                sv[ov[j as int]],
            ));
        }
        j = j + 1;
    }
    assert(ov.take(j as int) =~= ov);
    r
}

fn usages_or_examples_exec<'a>(f: &'a InstanceFacts, w: &Want) -> (r: (Option<&'a FactRecord>, Vec<String>))
    ensures
        (
            match r.0 {
                Some(x) => Some(*x),
                None => None,
            },
            strings_view(r.1@),
        ) == usages_or_examples(*f, w@),
{
    let tu = select_exec(&f.type_usages, w);
    if tu.len() > 0 {
        pick_exec(&f.type_usages, &tu, false)
    } else {
        let ex = select_exec(&f.example_type_usages, w);
        pick_exec(&f.example_type_usages, &ex, false)
    }
}

fn tail_after(name: &str, n: usize) -> (r: String)
    requires
        n <= name@.len(),
    ensures
        r@ == name@.skip(n as int),
{
    let cs = crate::text::chars_of(name);
    let len = cs.len();
    let r = crate::text::string_of_range(&cs, n, len);
    assert(cs@.subrange(n as int, len as int) =~= name@.skip(n as int));
    r
}

/// The seed instance of a pattern and the anchors (at most 200) of the
/// records it matches: traits by their non-gated impls in order of type
/// (anchors with line ranges), else by the trait's declaration; derives by
/// derive sites, else attribute-macro sites; utilities by macro sites
/// (anchors with line ranges); structures by the type declaration, else by
/// the usages (or example usages) through the type; `_::m` function
/// families by method references; `O::m` functions by exact usages (or
/// example usages); globals `O::C` by the references to them. `None` with
/// no anchors when nothing matches.
pub fn instance_for_kind<'a>(pattern: &Pattern, facts: &'a InstanceFacts) -> (r: (Option<&'a FactRecord>, Vec<String>))
    ensures
        (
            match r.0 {
                Some(x) => Some(*x),
                None => None,
            },
            strings_view(r.1@),
        ) == instance_view(pattern@, *facts),
{
    proof {
        reveal_strlit("_::");
        reveal_strlit("::");
    }
    let name = pattern.name();
    match pattern.kind() {
        PickGroup::Traits => {
            let sel = select_exec(&facts.impls, &Want::TraitOpen(name.clone()));
            if sel.len() > 0 {
                let ordered = impls_by_type_exec(&facts.impls, &sel);
                pick_exec(&facts.impls, &ordered, true)
            } else {
                let t = select_exec(&facts.traits, &Want::Name(name));
                pick_exec(&facts.traits, &t, false)
            }
        },
        PickGroup::Derives => {
            let sel = select_exec(&facts.derives, &Want::Trait(name.clone()));
            if sel.len() > 0 {
                pick_exec(&facts.derives, &sel, false)
            } else {
                let m = select_exec(&facts.macros, &Want::NameKind(name, "attr_macro".to_string()));
                pick_exec(&facts.macros, &m, false)
            }
        },
        PickGroup::Utilities => {
            let m = select_exec(&facts.macros, &Want::Name(name));
            pick_exec(&facts.macros, &m, true)
        },
        PickGroup::Structure => {
            let sel = select_exec(&facts.types, &Want::Name(name.clone()));
            if sel.len() > 0 {
                pick_exec(&facts.types, &sel, false)
            } else {
                usages_or_examples_exec(facts, &Want::Outer(name))
            }
        },
        PickGroup::ImplementationFunctions => {
            if str_starts_with(name.as_str(), "_::") {
                let inner = tail_after(name.as_str(), 3);
                let m = select_exec(&facts.ast_method_refs, &Want::Inner(inner));
                pick_exec(&facts.ast_method_refs, &m, false)
            } else {
                usages_or_examples_exec(facts, &Want::Name(name))
            }
        },
        PickGroup::TraitFunctions => {
            if str_starts_with(name.as_str(), "_::") {
                let inner = tail_after(name.as_str(), 3);
                let m = select_exec(&facts.ast_method_refs, &Want::Inner(inner));
                pick_exec(&facts.ast_method_refs, &m, false)
            } else {
                (None, Vec::new())
            }
        },
        PickGroup::Globals => match crate::grouping::split_once_str(name.as_str(), "::") {
            Some((o, c)) => {
                let m = select_exec(&facts.ast_method_refs, &Want::OuterInner(o, c));
                pick_exec(&facts.ast_method_refs, &m, false)
            },
            None => (None, Vec::new()),
        },
    }
}

/// Every position a selection lists is a position of the records.
proof fn lemma_select_range(rs: Seq<FactRecord>, w: WantView)
    ensures
        forall|k: int| 0 <= k < select(rs, w).len() ==> 0 <= #[trigger] select(rs, w)[k] < rs.len(),
    decreases rs.len(),
{
    if rs.len() > 0 {
        lemma_select_range(rs.drop_last(), w);
        let prev = select(rs.drop_last(), w);
        if wants(w, rs.last()) {
            assert forall|k: int| 0 <= k < prev.push(rs.len() - 1).len() implies 0 <= #[trigger] prev.push(
                rs.len() - 1,
            )[k] < rs.len() by {
                if k < prev.len() {
                    assert(prev.push(rs.len() - 1)[k] == prev[k]);
                }
            }
        }
    }
}

/// The impls ordered by type are positions of the selection.
proof fn lemma_impls_by_type_range(rs: Seq<FactRecord>, sel: Seq<int>)
    requires
        forall|k: int| 0 <= k < sel.len() ==> 0 <= #[trigger] sel[k] < rs.len(),
    ensures
        impls_by_type(rs, sel).len() == sel.len(),
        forall|k: int| 0 <= k < impls_by_type(rs, sel).len() ==> 0 <= #[trigger] impls_by_type(rs, sel)[k] < rs.len(),
{
    let keys = sel.map_values(|i: int| type_key(rs[i]));
    lemma_stable_order_range(keys, keys.len() as int);
    let ord = stable_order(keys);
    assert forall|k: int| 0 <= k < impls_by_type(rs, sel).len() implies 0 <= #[trigger] impls_by_type(rs, sel)[k]
        < rs.len() by {
        assert(0 <= ord[k] < sel.len());
    }
}

/// A seed and its anchors as `pick` gives them: at most 200 anchors, none
/// exactly when there is no seed, and a seed that is one of the records
/// whose anchor comes first.
pub open spec fn seed_ok(s: (Option<FactRecord>, Seq<Seq<char>>), rs: Seq<FactRecord>) -> bool {
    &&& s.1.len() <= 200
    &&& (s.0 is None <==> s.1.len() == 0)
    &&& (s.0 matches Some(x) ==> rs.contains(x) && (s.1[0] == span_view(x) || s.1[0] == span_basic_view(x)))
}

proof fn lemma_pick_ok(rs: Seq<FactRecord>, idx: Seq<int>, full: bool)
    requires
        forall|k: int| 0 <= k < idx.len() ==> 0 <= #[trigger] idx[k] < rs.len(),
    ensures
        seed_ok(pick(rs, idx, full), rs),
{
    if idx.len() > 0 {
        assert(0 <= idx[0] < rs.len());
        assert(rs[idx[0]] == rs[idx[0]]);
    }
}

/// The seed facts of an instance lookup: at most 200 anchors, none exactly
/// when there is no seed, and a seed that is one of the given facts (impls,
/// traits, derives, macros, types, type usages, example usages or method
/// references) whose anchor comes first.
pub proof fn lemma_instance_seed(p: PatternView, f: InstanceFacts)
    ensures
        instance_view(p, f).1.len() <= 200,
        instance_view(p, f).0 is None <==> instance_view(p, f).1.len() == 0,
        instance_view(p, f).0 matches Some(x) ==> (f.impls@.contains(x) || f.traits@.contains(x) || f.derives@.contains(x)
            || f.macros@.contains(x) || f.types@.contains(x) || f.type_usages@.contains(x)
            || f.example_type_usages@.contains(x) || f.ast_method_refs@.contains(x)),
        instance_view(p, f).0 matches Some(x) ==> (instance_view(p, f).1[0] == span_view(x) || instance_view(p, f).1[0]
            == span_basic_view(x)),
{
    let name = p.name();
    match p.kind() {
        PickGroup::Traits => {
            let sel = select(f.impls@, WantView::TraitOpen(name));
            lemma_select_range(f.impls@, WantView::TraitOpen(name));
            if sel.len() > 0 {
                lemma_impls_by_type_range(f.impls@, sel);
                lemma_pick_ok(f.impls@, impls_by_type(f.impls@, sel), true);
            } else {
                lemma_select_range(f.traits@, WantView::Name(name));
                lemma_pick_ok(f.traits@, select(f.traits@, WantView::Name(name)), false);
            }
        },
        PickGroup::Derives => {
            let sel = select(f.derives@, WantView::Trait(name));
            lemma_select_range(f.derives@, WantView::Trait(name));
            if sel.len() > 0 {
                lemma_pick_ok(f.derives@, sel, false);
            } else {
                lemma_select_range(f.macros@, WantView::NameKind(name, "attr_macro"@));
                lemma_pick_ok(f.macros@, select(f.macros@, WantView::NameKind(name, "attr_macro"@)), false);
            }
        },
        PickGroup::Utilities => {
            lemma_select_range(f.macros@, WantView::Name(name));
            lemma_pick_ok(f.macros@, select(f.macros@, WantView::Name(name)), true);
        },
        PickGroup::Structure => {
            let sel = select(f.types@, WantView::Name(name));
            lemma_select_range(f.types@, WantView::Name(name));
            if sel.len() > 0 {
                lemma_pick_ok(f.types@, sel, false);
            } else {
                lemma_usages_ok(f, WantView::Outer(name));
            }
        },
        PickGroup::ImplementationFunctions => if starts_with(name, "_::"@) {
            lemma_select_range(f.ast_method_refs@, WantView::Inner(name.skip(3)));
            lemma_pick_ok(f.ast_method_refs@, select(f.ast_method_refs@, WantView::Inner(name.skip(3))), false);
        } else {
            lemma_usages_ok(f, WantView::Name(name));
        },
        PickGroup::TraitFunctions => if starts_with(name, "_::"@) {
            lemma_select_range(f.ast_method_refs@, WantView::Inner(name.skip(3)));
            lemma_pick_ok(f.ast_method_refs@, select(f.ast_method_refs@, WantView::Inner(name.skip(3))), false);
        },
        PickGroup::Globals => match split_once(name, "::"@) {
            Some((o, c)) => {
                lemma_select_range(f.ast_method_refs@, WantView::OuterInner(o, c));
                lemma_pick_ok(f.ast_method_refs@, select(f.ast_method_refs@, WantView::OuterInner(o, c)), false);
            },
            None => {},
        },
    }
}

proof fn lemma_usages_ok(f: InstanceFacts, w: WantView)
    ensures
        seed_ok(usages_or_examples(f, w), f.type_usages@) || seed_ok(usages_or_examples(f, w), f.example_type_usages@),
{
    lemma_select_range(f.type_usages@, w);
    lemma_select_range(f.example_type_usages@, w);
    if select(f.type_usages@, w).len() > 0 {
        lemma_pick_ok(f.type_usages@, select(f.type_usages@, w), false);
    } else {
        lemma_pick_ok(f.example_type_usages@, select(f.example_type_usages@, w), false);
    }
}

} // verus!
