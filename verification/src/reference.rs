//! The exhaustive reference index: every workspace item, grouped by crate
//! and kind, each with its `file:line` anchor.

use vstd::prelude::*;
use crate::instances::{FactRecord, line_text, rec_line, span, span_basic_view, span_view};
use crate::numfmt::{decimal_view, signed_view};
use crate::modules::join_view;
use crate::metrics::{owned_or_empty, text_or_empty};
use crate::resolution::strings_view;
use crate::routing::push_line;
use crate::sorting::{sort_strings, sorted_view};
use crate::stable_order::{KeyView, SortKey, keys_view, positions_view, stable_order, stable_order_exec};
use crate::text::{ends_with, push_str, str_eq};
use crate::vocabulary::{distinct, distinct_exec};

verus! {

/// The fact lists the reference index is read from.
#[derive(Debug, Clone)]
pub struct ReferenceFacts {
    pub types: Vec<FactRecord>,
    pub traits: Vec<FactRecord>,
    pub impls: Vec<FactRecord>,
    pub fns: Vec<FactRecord>,
    pub macros: Vec<FactRecord>,
    pub uses: Vec<FactRecord>,
}

/// `parts` joined with `sep` between consecutive parts (`[..].join(sep)`).
pub fn join_strings(parts: &Vec<String>, sep: &str) -> (r: String)
    ensures
        r@ == join_view(strings_view(parts@), sep@),
{
    let ghost pv = strings_view(parts@);
    let mut out = String::new();
    let mut i: usize = 0;
    while i < parts.len()
        invariant
            i <= parts@.len(),
            pv == strings_view(parts@),
            out@ == join_view(pv.take(i as int), sep@),
        decreases parts@.len() - i,
    {
        proof {
            assert(pv.take(i + 1).drop_last() =~= pv.take(i as int));
            assert(pv.take(i + 1).last() == parts@[i as int]@);
        }
        if i > 0 {
            push_str(&mut out, sep);
        } else {
            assert(pv.take(1)[0] == parts@[0]@);
        }
        push_str(&mut out, parts[i].as_str());
        i = i + 1;
    }
    assert(pv.take(i as int) =~= pv);
    out
}

/// The crate a record is filed under: its crate, `?` when absent.
pub open spec fn crate_of(r: FactRecord) -> Seq<char> {
    match r.crate_name {
        Some(c) => c@,
        None => "?"@,
    }
}

/// Which records of a list the index shows: every record, the free
/// functions (brace depth zero), or the re-exports.
pub open spec fn shown(kind: int, r: FactRecord) -> bool {
    if kind == 1 {
        r.brace_depth == Some(0i64)
    } else if kind == 2 {
        r.reexport
    } else {
        true
    }
}

/// The positions of the shown records of crate `c`, in order.
pub open spec fn bucket(rs: Seq<FactRecord>, c: Seq<char>, kind: int) -> Seq<int>
    decreases rs.len(),
{
    if rs.len() == 0 {
        Seq::empty()
    } else if shown(kind, rs.last()) && crate_of(rs.last()) == c {
        bucket(rs.drop_last(), c, kind).push(rs.len() - 1)
    } else {
        bucket(rs.drop_last(), c, kind)
    }
}

/// The crates of the shown records, in order.
pub open spec fn shown_crates(rs: Seq<FactRecord>, kind: int) -> Seq<Seq<char>>
    decreases rs.len(),
{
    if rs.len() == 0 {
        Seq::empty()
    } else if shown(kind, rs.last()) {
        shown_crates(rs.drop_last(), kind).push(crate_of(rs.last()))
    } else {
        shown_crates(rs.drop_last(), kind)
    }
}

/// The crates of the index, in ascending order, each once.
pub open spec fn crate_order(f: ReferenceFacts) -> Seq<Seq<char>> {
    sorted_view(
        distinct(
            shown_crates(f.types@, 0) + shown_crates(f.traits@, 0) + shown_crates(f.impls@, 0) + shown_crates(f.fns@, 1)
                + shown_crates(f.macros@, 0) + shown_crates(f.uses@, 2),
        ),
    )
}

/// A record's text field, `None` when absent.
pub open spec fn text_or_none(o: Option<String>) -> Seq<char> {
    match o {
        Some(s) => s@,
        None => "None"@,
    }
}

/// The sort key of a section: by name (0), by trait then type (1), by line
/// (2).
pub open spec fn section_key(order: int, r: FactRecord) -> KeyView {
    if order == 1 {
        KeyView { num: 0, first: text_or_none(r.trait_name), second: text_or_none(r.target_type), tail: 0 }
    } else if order == 2 {
        KeyView {
            num: match r.line {
                Some(l) => l as int,
                None => 0,
            },
            first: Seq::empty(),
            second: Seq::empty(),
            tail: 0,
        }
    } else {
        KeyView { num: 0, first: text_or_empty(r.name), second: Seq::empty(), tail: 0 }
    }
}

/// The positions of a bucket in stable order of the section's key.
pub open spec fn ordered(rs: Seq<FactRecord>, sel: Seq<int>, order: int) -> Seq<int> {
    stable_order(sel.map_values(|i: int| section_key(order, rs[i]))).map_values(|k: int| sel[k])
}

/// The `  *(cfg-gated)*` marker of a gated record.
pub open spec fn cfg_mark(r: FactRecord) -> Seq<char> {
    if r.cfg_gated {
        "  *(cfg-gated)*"@
    } else {
        Seq::empty()
    }
}

/// The index line of a record of section `sec`: traits (0), types (1),
/// impls (2), free functions (3), macros (4), re-exports (5).
pub open spec fn item_line(sec: int, r: FactRecord) -> Seq<char> {
    if sec == 0 {
        "- `"@ + text_or_empty(r.name) + "` - "@ + span_view(r) + cfg_mark(r)
    } else if sec == 1 {
        "- `"@ + text_or_empty(r.kind) + " "@ + text_or_empty(r.name) + "` - "@ + span_view(r) + cfg_mark(r)
    } else if sec == 2 {
        "- impl "@ + match r.trait_name {
            Some(t) => "`"@ + t@ + "` for "@,
            None => "(inherent) "@,
        } + "`"@ + text_or_none(r.target_type) + "` - "@ + span_view(r) + cfg_mark(r)
    } else if sec == 3 {
        "- `fn "@ + text_or_empty(r.name) + "` - "@ + span_view(r)
    } else if sec == 4 {
        if text_or_empty(r.kind) == "macro_invocation"@ {
            "- `"@ + text_or_empty(r.name) + "!(...)` args=["@ + join_view(
                strings_view(r.arg_idents@).take(if r.arg_idents@.len() < 12 {
                    r.arg_idents@.len() as int
                } else {
                    12
                }),
                ", "@,
            ) + "] - "@ + span_view(r)
        } else {
            "- `#["@ + text_or_empty(r.name) + "]` - "@ + span_view(r)
        }
    } else {
        "- `"@ + text_or_empty(r.path) + "` - "@ + span_view(r)
    }
}

/// The heading of section `sec`.
pub open spec fn section_heading(sec: int) -> Seq<char> {
    if sec == 0 {
        "### traits"@
    } else if sec == 1 {
        "### types"@
    } else if sec == 2 {
        "### impls"@
    } else if sec == 3 {
        "### free functions"@
    } else if sec == 4 {
        "### macro applications *(expansion unverified without rustdoc overlay)*"@
    } else {
        "### re-exports *(rustdoc resolves the target; span may be null)*"@
    }
}

/// The lines of a section: nothing for an empty bucket, else its heading
/// and one line per record in the section's order (re-exports in fact
/// order).
pub open spec fn section_lines(rs: Seq<FactRecord>, sel: Seq<int>, sec: int, order: int) -> Seq<Seq<char>> {
    if sel.len() == 0 {
        Seq::empty()
    } else {
        let idx = if order < 0 {
            sel
        } else {
            ordered(rs, sel, order)
        };
        seq![section_heading(sec)] + idx.map_values(|i: int| item_line(sec, rs[i]))
    }
}

/// The lines of one crate's entry.
pub open spec fn crate_lines(f: ReferenceFacts, c: Seq<char>) -> Seq<Seq<char>> {
    seq!["## crate: "@ + c] + section_lines(f.traits@, bucket(f.traits@, c, 0), 0, 0) + section_lines(
        f.types@,
        bucket(f.types@, c, 0),
        1,
        0,
    ) + section_lines(f.impls@, bucket(f.impls@, c, 0), 2, 1) + section_lines(f.fns@, bucket(f.fns@, c, 1), 3, 0)
        + section_lines(f.macros@, bucket(f.macros@, c, 0), 4, 2) + section_lines(f.uses@, bucket(f.uses@, c, 2), 5, -1)
        + seq![Seq::<char>::empty()]
}

/// The lines of the entries of crates `cs`, in order.
pub open spec fn crates_lines(f: ReferenceFacts, cs: Seq<Seq<char>>) -> Seq<Seq<char>>
    decreases cs.len(),
{
    if cs.len() == 0 {
        Seq::empty()
    } else {
        crates_lines(f, cs.drop_last()) + crate_lines(f, cs.last())
    }
}

/// The header of the index, around the provenance banner.
pub open spec fn header_lines(provenance: Seq<char>) -> Seq<Seq<char>> {
    seq![
        "# Reference Index"@,
        Seq::empty(),
        "Exhaustive, span-anchored. Grep this; do not read it top to bottom. Every entry is"@,
        "a `file:line` you open in source to verify or extend. Spans the rustdoc overlay"@,
        "marks null (re-exports, blanket/synthesized/macro-generated impls) are flagged, not"@,
        "dropped."@,
        Seq::empty(),
        "```"@,
        provenance,
        "```"@,
        Seq::empty(),
    ]
}

/// The reference index text.
pub open spec fn reference_view(provenance: Seq<char>, f: ReferenceFacts) -> Seq<char> {
    join_view(header_lines(provenance) + crates_lines(f, crate_order(f)), "\n"@)
}

fn crate_text(r: &FactRecord) -> (s: String)
    ensures
        s@ == crate_of(*r),
{
    match &r.crate_name {
        Some(c) => c.clone(),
        None => "?".to_string(),
    }
}

fn shown_exec(kind: u8, r: &FactRecord) -> (b: bool)
    ensures
        b == shown(kind as int, *r),
{
    if kind == 1 {
        match r.brace_depth {
            Some(d) => d == 0,
            None => false,
        }
    } else if kind == 2 {
        r.reexport
    } else {
        true
    }
}

fn add_shown_crates(out: &mut Vec<String>, rs: &Vec<FactRecord>, kind: u8)
    ensures
        strings_view(final(out)@) == strings_view(old(out)@) + shown_crates(rs@, kind as int),
{
    let ghost start = strings_view(out@);
    let mut i: usize = 0;
    while i < rs.len()
        invariant
            i <= rs@.len(),
            strings_view(out@) == start + shown_crates(rs@.take(i as int), kind as int),
        decreases rs@.len() - i,
    {
        proof {
            assert(rs@.take(i + 1).drop_last() =~= rs@.take(i as int));
            assert(rs@.take(i + 1).last() == rs@[i as int]);
        }
        if shown_exec(kind, &rs[i]) {
            let ghost before = strings_view(out@);
            out.push(crate_text(&rs[i]));
            assert(strings_view(out@) =~= before.push(crate_of(rs@[i as int])));
            assert(start + shown_crates(rs@.take(i + 1), kind as int) =~= start + shown_crates(
                rs@.take(i as int),
                kind as int,
            ).push(crate_of(rs@[i as int])));
        }
        i = i + 1;
    }
    assert(rs@.take(i as int) =~= rs@);
}

fn bucket_exec(rs: &Vec<FactRecord>, c: &str, kind: u8) -> (r: Vec<usize>)
    ensures
        positions_view(r@) == bucket(rs@, c@, kind as int),
        forall|k: int| 0 <= k < r@.len() ==> r@[k] < rs@.len(),
{
    let mut r: Vec<usize> = Vec::new();
    let mut i: usize = 0;
    while i < rs.len()
        invariant
            i <= rs@.len(),
            positions_view(r@) == bucket(rs@.take(i as int), c@, kind as int),
            forall|k: int| 0 <= k < r@.len() ==> r@[k] < i,
        decreases rs@.len() - i,
    {
        proof {
            assert(rs@.take(i + 1).drop_last() =~= rs@.take(i as int));
            assert(rs@.take(i + 1).last() == rs@[i as int]);
        }
        if shown_exec(kind, &rs[i]) && str_eq(crate_text(&rs[i]).as_str(), c) {
            let ghost before = positions_view(r@);
            r.push(i);
            assert(positions_view(r@) =~= before.push(i as int));
        }
        i = i + 1;
    }
    assert(rs@.take(i as int) =~= rs@);
    r
}

fn none_or(o: &Option<String>) -> (s: String)
    ensures
        s@ == text_or_none(*o),
{
    match o {
        Some(x) => x.clone(),
        None => "None".to_string(),
    }
}

fn section_key_exec(order: u8, r: &FactRecord) -> (k: SortKey)
    ensures
        k@ == section_key(order as int, *r),
{
    if order == 1 {
        SortKey { num: 0, first: none_or(&r.trait_name), second: none_or(&r.target_type), tail: 0 }
    } else if order == 2 {
        let n: i128 = match r.line {
            Some(l) => l as i128,
            None => 0,
        };
        SortKey { num: n, first: String::new(), second: String::new(), tail: 0 }
    } else {
        SortKey { num: 0, first: owned_or_empty(&r.name), second: String::new(), tail: 0 }
    }
}

fn ordered_exec(rs: &Vec<FactRecord>, sel: &Vec<usize>, order: u8) -> (r: Vec<usize>)
    requires
        forall|k: int| 0 <= k < sel@.len() ==> sel@[k] < rs@.len(),
    ensures
        positions_view(r@) == ordered(rs@, positions_view(sel@), order as int),
        forall|k: int| 0 <= k < r@.len() ==> r@[k] < rs@.len(),
{
    let ghost sv = positions_view(sel@);
    let mut keys: Vec<SortKey> = Vec::new();
    let mut i: usize = 0;
    while i < sel.len()
        invariant
            i <= sel@.len(),
            sv == positions_view(sel@),
            forall|k: int| 0 <= k < sel@.len() ==> sel@[k] < rs@.len(),
            keys_view(keys@) == sv.take(i as int).map_values(|j: int| section_key(order as int, rs@[j])),
        decreases sel@.len() - i,
    {
        let key = section_key_exec(order, &rs[sel[i]]);
        let ghost before = keys_view(keys@);
        let ghost kv = key@;
        keys.push(key);
        proof {
            assert(keys_view(keys@) =~= before.push(kv));
            assert(sv.take(i + 1) =~= sv.take(i as int).push(sv[i as int]));
            assert(sv.take(i + 1).map_values(|j: int| section_key(order as int, rs@[j])) =~= sv.take(
                i as int,
            ).map_values(|j: int| section_key(order as int, rs@[j])).push(kv));
        }
        i = i + 1;
    }
    assert(sv.take(i as int) =~= sv);
    let ord = stable_order_exec(&keys);
    let ghost ov = positions_view(ord@);
    let mut r: Vec<usize> = Vec::new();
    let mut j: usize = 0;
    while j < ord.len()
        invariant
            j <= ord@.len(),
            ord@.len() == sel@.len(),
            ov == positions_view(ord@),
            forall|k: int| 0 <= k < ord@.len() ==> ord@[k] < sel@.len(),
            forall|k: int| 0 <= k < sel@.len() ==> sel@[k] < rs@.len(),
            sv == positions_view(sel@),
            positions_view(r@) == ov.take(j as int).map_values(|k: int| sv[k]),
            forall|k: int| 0 <= k < r@.len() ==> r@[k] < rs@.len(),
        decreases ord@.len() - j,
    {
        let ghost before = positions_view(r@);
        r.push(sel[ord[j]]);
        proof {
            assert(positions_view(r@) =~= before.push(sv[ov[j as int]]));
            assert(ov.take(j + 1) =~= ov.take(j as int).push(ov[j as int]));
            assert(ov.take(j + 1).map_values(|k: int| sv[k]) =~= ov.take(j as int).map_values(|k: int| sv[k]).push(
                sv[ov[j as int]],
            ));
        }
        j = j + 1;
    }
    assert(ov.take(j as int) =~= ov);
    r
}

fn heading_exec(sec: u8) -> (s: String)
    ensures
        s@ == section_heading(sec as int),
{
    if sec == 0 {
        "### traits".to_string()
    } else if sec == 1 {
        "### types".to_string()
    } else if sec == 2 {
        "### impls".to_string()
    } else if sec == 3 {
        "### free functions".to_string()
    } else if sec == 4 {
        "### macro applications *(expansion unverified without rustdoc overlay)*".to_string()
    } else {
        "### re-exports *(rustdoc resolves the target; span may be null)*".to_string()
    }
}

fn push_cfg(out: &mut String, r: &FactRecord)
    ensures
        final(out)@ == old(out)@ + cfg_mark(*r),
{
    if r.cfg_gated {
        push_str(out, "  *(cfg-gated)*");
    } else {
        assert(old(out)@ + Seq::<char>::empty() =~= old(out)@);
    }
}

fn item_line_exec(sec: u8, r: &FactRecord) -> (s: String)
    ensures
        s@ == item_line(sec as int, *r),
{
    let mut out = String::new();
    if sec == 0 {
        push_str(&mut out, "- `");
        push_str(&mut out, owned_or_empty(&r.name).as_str());
        push_str(&mut out, "` - ");
        push_str(&mut out, span(r).as_str());
        push_cfg(&mut out, r);
    } else if sec == 1 {
        push_str(&mut out, "- `");
        push_str(&mut out, owned_or_empty(&r.kind).as_str());
        push_str(&mut out, " ");
        push_str(&mut out, owned_or_empty(&r.name).as_str());
        push_str(&mut out, "` - ");
        push_str(&mut out, span(r).as_str());
        push_cfg(&mut out, r);
    } else if sec == 2 {
        push_str(&mut out, "- impl ");
        match &r.trait_name {
            Some(t) => {
                push_str(&mut out, "`");
                push_str(&mut out, t.as_str());
                push_str(&mut out, "` for ");
            },
            None => {
                push_str(&mut out, "(inherent) ");
            },
        }
        push_str(&mut out, "`");
        push_str(&mut out, none_or(&r.target_type).as_str());
        push_str(&mut out, "` - ");
        push_str(&mut out, span(r).as_str());
        push_cfg(&mut out, r);
    } else if sec == 3 {
        push_str(&mut out, "- `fn ");
        push_str(&mut out, owned_or_empty(&r.name).as_str());
        push_str(&mut out, "` - ");
        push_str(&mut out, span(r).as_str());
    } else if sec == 4 {
        let kind = owned_or_empty(&r.kind);
        if str_eq(kind.as_str(), "macro_invocation") {
            let n = if r.arg_idents.len() < 12 {
                r.arg_idents.len()
            } else {
                12
            };
            let mut first: Vec<String> = Vec::new();
            let mut k: usize = 0;
            while k < n
                invariant
                    k <= n <= r.arg_idents@.len(),
                    strings_view(first@) == strings_view(r.arg_idents@).take(k as int),
                decreases n - k,
            {
                push_line(&mut first, r.arg_idents[k].clone());
                assert(strings_view(r.arg_idents@).take(k + 1) =~= strings_view(r.arg_idents@).take(k as int).push(
                    r.arg_idents@[k as int]@,
                ));
                k = k + 1;
            }
            push_str(&mut out, "- `");
            push_str(&mut out, owned_or_empty(&r.name).as_str());
            push_str(&mut out, "!(...)` args=[");
            push_str(&mut out, join_strings(&first, ", ").as_str());
            push_str(&mut out, "] - ");
            push_str(&mut out, span(r).as_str());
        } else {
            push_str(&mut out, "- `#[");
            push_str(&mut out, owned_or_empty(&r.name).as_str());
            push_str(&mut out, "]` - ");
            push_str(&mut out, span(r).as_str());
        }
    } else {
        push_str(&mut out, "- `");
        push_str(&mut out, owned_or_empty(&r.path).as_str());
        push_str(&mut out, "` - ");
        push_str(&mut out, span(r).as_str());
    }
    out
}

fn add_section(lines: &mut Vec<String>, rs: &Vec<FactRecord>, c: &str, kind: u8, sec: u8, order: Option<u8>)
    ensures
        strings_view(final(lines)@) == strings_view(old(lines)@) + section_lines(
            rs@,
            bucket(rs@, c@, kind as int),
            sec as int,
            match order {
                Some(o) => o as int,
                None => -1,
            },
        ),
{
    let sel = bucket_exec(rs, c, kind);
    let ghost start = strings_view(lines@);
    let ghost ord = match order {
        Some(o) => o as int,
        None => -1,
    };
    if sel.len() == 0 {
        assert(start + section_lines(rs@, bucket(rs@, c@, kind as int), sec as int, ord) =~= start);
        return;
    }
    let idx = match order {
        Some(o) => ordered_exec(rs, &sel, o),
        None => sel,
    };
    let ghost iv = positions_view(idx@);
    let ghost body = iv.map_values(|i: int| item_line(sec as int, rs@[i]));
    push_line(lines, heading_exec(sec));
    let ghost after_heading = strings_view(lines@);
    let mut k: usize = 0;
    while k < idx.len()
        invariant
            k <= idx@.len(),
            iv == positions_view(idx@),
            forall|j: int| 0 <= j < idx@.len() ==> idx@[j] < rs@.len(),
            body == iv.map_values(|i: int| item_line(sec as int, rs@[i])),
            strings_view(lines@) == after_heading + body.take(k as int),
        decreases idx@.len() - k,
    {
        let l = item_line_exec(sec, &rs[idx[k]]);
        push_line(lines, l);
        assert(body.take(k + 1) =~= body.take(k as int).push(body[k as int]));
        assert(strings_view(lines@) =~= after_heading + body.take(k + 1));
        k = k + 1;
    }
    assert(body.take(k as int) =~= body);
    assert(strings_view(lines@) =~= start + section_lines(rs@, bucket(rs@, c@, kind as int), sec as int, ord));
}

/// Renders the reference index: a header around the provenance banner,
/// then per crate (ascending; records without a crate under `?`) its
/// traits and types by name, impls by trait then type, free functions by
/// name, macro applications by line and re-exports in fact order, each
/// line carrying its `file:line` anchor and gated records marked.
#[verifier::rlimit(40)]
pub fn render_reference(provenance: &str, facts: &ReferenceFacts) -> (r: String)
    ensures
        r@ == reference_view(provenance@, *facts),
{
    let mut lines: Vec<String> = Vec::new();
    push_line(&mut lines, "# Reference Index".to_string());
    push_line(&mut lines, String::new());
    push_line(&mut lines, "Exhaustive, span-anchored. Grep this; do not read it top to bottom. Every entry is".to_string());
    push_line(&mut lines, "a `file:line` you open in source to verify or extend. Spans the rustdoc overlay".to_string());
    push_line(&mut lines, "marks null (re-exports, blanket/synthesized/macro-generated impls) are flagged, not".to_string());
    push_line(&mut lines, "dropped.".to_string());
    push_line(&mut lines, String::new());
    push_line(&mut lines, "```".to_string());
    push_line(&mut lines, provenance.to_string());
    push_line(&mut lines, "```".to_string());
    push_line(&mut lines, String::new());
    assert(strings_view(lines@) =~= header_lines(provenance@));
    let mut names: Vec<String> = Vec::new();
    add_shown_crates(&mut names, &facts.types, 0);
    add_shown_crates(&mut names, &facts.traits, 0);
    add_shown_crates(&mut names, &facts.impls, 0);
    add_shown_crates(&mut names, &facts.fns, 1);
    add_shown_crates(&mut names, &facts.macros, 0);
    add_shown_crates(&mut names, &facts.uses, 2);
    assert(strings_view(names@) =~= shown_crates(facts.types@, 0) + shown_crates(facts.traits@, 0) + shown_crates(
        facts.impls@,
        0,
    ) + shown_crates(facts.fns@, 1) + shown_crates(facts.macros@, 0) + shown_crates(facts.uses@, 2));
    let uniq = distinct_exec(&names);
    let crates = sort_strings(&uniq);
    let ghost cv = strings_view(crates@);
    assert(cv == crate_order(*facts));
    let ghost head = strings_view(lines@);
    let mut i: usize = 0;
    while i < crates.len()
        invariant
            i <= crates@.len(),
            cv == strings_view(crates@),
            head == header_lines(provenance@),
            strings_view(lines@) == head + crates_lines(*facts, cv.take(i as int)),
        decreases crates@.len() - i,
    {
        proof {
            assert(cv.take(i + 1).drop_last() =~= cv.take(i as int));
            assert(cv.take(i + 1).last() == crates@[i as int]@);
        }
        let c = crates[i].as_str();
        let ghost before = strings_view(lines@);
        let mut title = "## crate: ".to_string();
        push_str(&mut title, c);
        push_line(&mut lines, title);
        add_section(&mut lines, &facts.traits, c, 0, 0, Some(0));
        add_section(&mut lines, &facts.types, c, 0, 1, Some(0));
        add_section(&mut lines, &facts.impls, c, 0, 2, Some(1));
        add_section(&mut lines, &facts.fns, c, 1, 3, Some(0));
        add_section(&mut lines, &facts.macros, c, 0, 4, Some(2));
        add_section(&mut lines, &facts.uses, c, 2, 5, None);
        push_line(&mut lines, String::new());
        assert(strings_view(lines@) =~= before + crate_lines(*facts, c@));
        assert(head + crates_lines(*facts, cv.take(i + 1)) =~= head + crates_lines(*facts, cv.take(i as int))
            + crate_lines(*facts, c@));
        i = i + 1;
    }
    assert(cv.take(i as int) =~= cv);
    join_strings(&lines, "\n")
}

proof fn lemma_decimal_ends_in_digit(n: nat)
    ensures
        decimal_view(n).len() > 0,
        decimal_view(n).last() != '*',
    decreases n,
{
    if n >= 10 {
        lemma_decimal_ends_in_digit(n / 10);
    }
}

/// A span ends in a digit or `?`, never in `*`.
proof fn lemma_span_ends_plain(r: FactRecord)
    ensures
        span_view(r).len() > 0,
        span_view(r).last() != '*',
{
    reveal_strlit("?");
    let lt = line_text(rec_line(r));
    if rec_line(r) >= 0 {
        lemma_decimal_ends_in_digit(rec_line(r) as nat);
    }
    assert(lt.len() > 0 && lt.last() != '*');
    let b = span_basic_view(r);
    assert(b.last() == lt.last()) by {
        assert(b[b.len() - 1] == lt[lt.len() - 1]);
    }
    match r.end_line {
        Some(e) => {
            if e as int != rec_line(r) {
                let sv = signed_view(e as int);
                if e < 0 {
                    lemma_decimal_ends_in_digit((-e) as nat);
                } else {
                    lemma_decimal_ends_in_digit(e as nat);
                }
                assert(sv.len() > 0 && sv.last() != '*') by {
                    if e < 0 {
                        let dv = decimal_view((-e) as nat);
                        assert(sv[sv.len() - 1] == dv[dv.len() - 1]);
                    }
                }
                let full = b + "-"@ + sv;
                assert(full[full.len() - 1] == sv[sv.len() - 1]);
            }
        },
        None => {},
    }
}

/// The gated flag of the trait, type and impl lines: such a line ends with
/// `  *(cfg-gated)*` exactly when its record is cfg-gated.
pub proof fn lemma_cfg_flag_marks_gated_records(sec: int, r: FactRecord)
    requires
        0 <= sec <= 2,
    ensures
        ends_with(item_line(sec, r), "  *(cfg-gated)*"@) <==> r.cfg_gated,
{
    reveal_strlit("  *(cfg-gated)*");
    let flag = "  *(cfg-gated)*"@;
    let line = item_line(sec, r);
    let sp = span_view(r);
    lemma_span_ends_plain(r);
    let head = if sec == 0 {
        "- `"@ + text_or_empty(r.name) + "` - "@
    } else if sec == 1 {
        "- `"@ + text_or_empty(r.kind) + " "@ + text_or_empty(r.name) + "` - "@
    } else {
        "- impl "@ + match r.trait_name {
            Some(t) => "`"@ + t@ + "` for "@,
            None => "(inherent) "@,
        } + "`"@ + text_or_none(r.target_type) + "` - "@
    };
    assert(line == head + sp + cfg_mark(r));
    if r.cfg_gated {
        assert(line.subrange(line.len() - flag.len(), line.len() as int) =~= flag);
    } else {
        assert(line =~= head + sp);
        if ends_with(line, flag) {
            let t = line.subrange(line.len() - flag.len(), line.len() as int);
            assert(t[t.len() - 1] == line[line.len() - 1]);
            assert(line[line.len() - 1] == sp[sp.len() - 1]);
            assert(flag[flag.len() - 1] == '*');
        }
    }
}

proof fn lemma_ends_with_suffix(a: Seq<char>, b: Seq<char>)
    ensures
        ends_with(a + b, b),
{
    assert((a + b).subrange(a.len() as int, (a + b).len() as int) =~= b);
}

/// Every index line ends with its record's `file:line` anchor: the lines of
/// free functions, macro applications and re-exports end there and are never
/// flagged; the trait, type and impl lines end with the anchor and, for a
/// cfg-gated record, the flag after it.
pub proof fn lemma_index_lines_end_with_anchor(sec: int, r: FactRecord)
    requires
        0 <= sec <= 5,
    ensures
        sec >= 3 ==> ends_with(item_line(sec, r), span_view(r)) && !ends_with(
            item_line(sec, r),
            "  *(cfg-gated)*"@,
        ),
        sec <= 2 ==> ends_with(
            item_line(sec, r),
            span_view(r) + if r.cfg_gated {
                "  *(cfg-gated)*"@
            } else {
                Seq::empty()
            },
        ),
{
    reveal_strlit("  *(cfg-gated)*");
    let flag = "  *(cfg-gated)*"@;
    let line = item_line(sec, r);
    let sp = span_view(r);
    lemma_span_ends_plain(r);
    if sec >= 3 {
        let head = line.subrange(0, line.len() - sp.len());
        assert(line =~= head + sp) by {
            if sec == 3 {
                assert(line == "- `fn "@ + text_or_empty(r.name) + "` - "@ + sp);
            } else if sec == 4 {
                if text_or_empty(r.kind) == "macro_invocation"@ {
                    let h = "- `"@ + text_or_empty(r.name) + "!(...)` args=["@ + join_view(
                        strings_view(r.arg_idents@).take(if r.arg_idents@.len() < 12 {
                            r.arg_idents@.len() as int
                        } else {
                            12
                        }),
                        ", "@,
                    ) + "] - "@;
                    assert(line == h + sp);
                } else {
                    assert(line == "- `#["@ + text_or_empty(r.name) + "]` - "@ + sp);
                }
            } else {
                assert(line == "- `"@ + text_or_empty(r.path) + "` - "@ + sp);
            }
        }
        lemma_ends_with_suffix(head, sp);
        if ends_with(line, flag) {
            let t = line.subrange(line.len() - flag.len(), line.len() as int);
            assert(t[t.len() - 1] == line[line.len() - 1]);
            assert(line[line.len() - 1] == sp[sp.len() - 1]);
            assert(flag[flag.len() - 1] == '*');
        }
    } else {
        let tail = sp + if r.cfg_gated { flag } else { Seq::empty() };
        let head = if sec == 0 {
            "- `"@ + text_or_empty(r.name) + "` - "@
        } else if sec == 1 {
            "- `"@ + text_or_empty(r.kind) + " "@ + text_or_empty(r.name) + "` - "@
        } else {
            "- impl "@ + match r.trait_name {
                Some(t) => "`"@ + t@ + "` for "@,
                None => "(inherent) "@,
            } + "`"@ + text_or_none(r.target_type) + "` - "@
        };
        assert(line =~= head + tail);
        lemma_ends_with_suffix(head, tail);
    }
}

} // verus!
