//! Where static tracing of the workspace stops: the seam seeds of the
//! orientation (process boundaries, macro-mediated registration, foreign
//! calls), and the index of inline macro definitions the guardrails cite.

use vstd::prelude::*;
use crate::emit_text::{is_src_file, src_file_view};
use crate::instances::{FactRecord, file_text, rec_line};
use crate::metrics::{owned_or_empty, text_or_empty};
use crate::numfmt::{decimal_view, push_decimal};
use crate::modules::join_view;
use crate::reference::join_strings;
use crate::resolution::{clone_opt, opt_view, strings_view};
use crate::stable_order::{KeyView, SortKey, keys_view, positions_view, stable_order, stable_order_exec};
use crate::text::{contains_seq, push_str, str_contains, str_eq};
use crate::vocabulary::{distinct, distinct_exec};

verus! {

/// A macro definition's site `(name, file, line)`, when it is named; a
/// missing file reads `?` and a missing line `-1`.
pub open spec fn def_triple(r: FactRecord) -> Option<(Seq<char>, Seq<char>, int)> {
    match r.name {
        Some(n) => if n@.len() > 0 {
            Some((n@, file_text(r), rec_line(r)))
        } else {
            None
        },
        None => None,
    }
}

/// The distinct definition sites of the macro definitions, in first-seen
/// order.
pub open spec fn def_sites(ds: Seq<FactRecord>) -> Seq<(Seq<char>, Seq<char>, int)>
    decreases ds.len(),
{
    if ds.len() == 0 {
        Seq::empty()
    } else {
        let prev = def_sites(ds.drop_last());
        match def_triple(ds.last()) {
            Some(t) => if prev.contains(t) {
                prev
            } else {
                prev.push(t)
            },
            None => prev,
        }
    }
}

/// The `(file, line)` sites of macro `n` among the definition sites, in
/// order.
pub open spec fn sites_of(t: Seq<(Seq<char>, Seq<char>, int)>, n: Seq<char>) -> Seq<(Seq<char>, int)>
    decreases t.len(),
{
    if t.len() == 0 {
        Seq::empty()
    } else if t.last().0 == n {
        sites_of(t.drop_last(), n).push((t.last().1, t.last().2))
    } else {
        sites_of(t.drop_last(), n)
    }
}

/// The sort key of a site: by file, then by line.
pub open spec fn site_key(p: (Seq<char>, int)) -> KeyView {
    KeyView { num: 0, first: p.0, second: Seq::empty(), tail: p.1 }
}

/// The sites in ascending order of file, then line.
pub open spec fn sorted_sites(s: Seq<(Seq<char>, int)>) -> Seq<(Seq<char>, int)> {
    stable_order(s.map_values(|p: (Seq<char>, int)| site_key(p))).map_values(|i: int| s[i])
}

/// The macro definition index: each defined macro name, in first-seen
/// order, with its distinct definition sites sorted by file and line.
pub open spec fn macro_index_view(ds: Seq<FactRecord>) -> Seq<(Seq<char>, Seq<(Seq<char>, int)>)> {
    let t = def_sites(ds);
    distinct(t.map_values(|x: (Seq<char>, Seq<char>, int)| x.0)).map_values(
        |n: Seq<char>| (n, sorted_sites(sites_of(t, n))),
    )
}

/// The value of a list of sites.
pub open spec fn sites_view(v: Seq<(String, i64)>) -> Seq<(Seq<char>, int)> {
    v.map_values(|p: (String, i64)| (p.0@, p.1 as int))
}

/// The value of a macro definition index.
pub open spec fn index_view(v: Seq<(String, Vec<(String, i64)>)>) -> Seq<(Seq<char>, Seq<(Seq<char>, int)>)> {
    v.map_values(|e: (String, Vec<(String, i64)>)| (e.0@, sites_view(e.1@)))
}

/// The value of a list of definition sites.
pub open spec fn triples_view(v: Seq<(String, String, i64)>) -> Seq<(Seq<char>, Seq<char>, int)> {
    v.map_values(|t: (String, String, i64)| (t.0@, t.1@, t.2 as int))
}

fn has_triple(v: &Vec<(String, String, i64)>, n: &str, f: &str, l: i64) -> (r: bool)
    ensures
        r == triples_view(v@).contains((n@, f@, l as int)),
{
    let ghost tv = triples_view(v@);
    let mut i: usize = 0;
    while i < v.len()
        invariant
            i <= v@.len(),
            tv == triples_view(v@),
            forall|k: int| 0 <= k < i ==> tv[k] != (n@, f@, l as int),
        decreases v@.len() - i,
    {
        if str_eq(v[i].0.as_str(), n) && str_eq(v[i].1.as_str(), f) && v[i].2 == l {
            assert(tv[i as int] == (n@, f@, l as int));
            return true;
        }
        i = i + 1;
    }
    false
}

fn def_sites_exec(defs: &Vec<FactRecord>) -> (r: Vec<(String, String, i64)>)
    ensures
        triples_view(r@) == def_sites(defs@),
{
    let mut r: Vec<(String, String, i64)> = Vec::new();
    let mut i: usize = 0;
    while i < defs.len()
        invariant
            i <= defs@.len(),
            triples_view(r@) == def_sites(defs@.take(i as int)),
        decreases defs@.len() - i,
    {
        proof {
            assert(defs@.take(i + 1).drop_last() =~= defs@.take(i as int));
            assert(defs@.take(i + 1).last() == defs@[i as int]);
        }
        let d = &defs[i];
        match &d.name {
            Some(n) => {
                if !n.as_str().is_empty() {
                    let file = match &d.file {
                        Some(f) => f.clone(),
                        None => "?".to_string(),
                    };
                    proof {
                        reveal_strlit("?");
                    }
                    let line: i64 = match d.line {
                        Some(l) => l,
                        None => -1,
                    };
                    assert(def_triple(*d) == Some((n@, file@, line as int)));
                    if !has_triple(&r, n.as_str(), file.as_str(), line) {
                        let ghost before = triples_view(r@);
                        let ghost t = (n@, file@, line as int);
                        r.push((n.clone(), file, line));
                        assert(triples_view(r@) =~= before.push(t));
                    }
                }
            },
            None => {},
        }
        i = i + 1;
    }
    assert(defs@.take(i as int) =~= defs@);
    r
}

fn sites_of_exec(t: &Vec<(String, String, i64)>, n: &str) -> (r: Vec<(String, i64)>)
    ensures
        sites_view(r@) == sites_of(triples_view(t@), n@),
{
    let ghost tv = triples_view(t@);
    let mut r: Vec<(String, i64)> = Vec::new();
    let mut i: usize = 0;
    while i < t.len()
        invariant
            i <= t@.len(),
            tv == triples_view(t@),
            sites_view(r@) == sites_of(tv.take(i as int), n@),
        decreases t@.len() - i,
    {
        proof {
            assert(tv.take(i + 1).drop_last() =~= tv.take(i as int));
            assert(tv.take(i + 1).last() == tv[i as int]);
        }
        if str_eq(t[i].0.as_str(), n) {
            let ghost before = sites_view(r@);
            r.push((t[i].1.clone(), t[i].2));
            assert(sites_view(r@) =~= before.push((tv[i as int].1, tv[i as int].2)));
        }
        i = i + 1;
    }
    assert(tv.take(i as int) =~= tv);
    r
}

fn sort_sites(s: &Vec<(String, i64)>) -> (r: Vec<(String, i64)>)
    ensures
        sites_view(r@) == sorted_sites(sites_view(s@)),
{
    let ghost sv = sites_view(s@);
    let ghost kf = |p: (Seq<char>, int)| site_key(p);
    let mut keys: Vec<SortKey> = Vec::new();
    let mut i: usize = 0;
    while i < s.len()
        invariant
            i <= s@.len(),
            sv == sites_view(s@),
            kf == (|p: (Seq<char>, int)| site_key(p)),
            keys_view(keys@) == sv.take(i as int).map_values(kf),
        decreases s@.len() - i,
    {
        let ghost before = keys_view(keys@);
        let k = SortKey { num: 0, first: s[i].0.clone(), second: String::new(), tail: s[i].1 as i128 };
        let ghost kv = k@;
        keys.push(k);
        proof {
            assert(kv == kf(sv[i as int]));
            assert(keys_view(keys@) =~= before.push(kv));
            assert(sv.take(i + 1).map_values(kf) =~= sv.take(i as int).map_values(kf).push(kf(sv[i as int])));
        }
        i = i + 1;
    }
    assert(sv.take(i as int) =~= sv);
    let ord = stable_order_exec(&keys);
    let ghost pv = positions_view(ord@);
    let ghost want = sorted_sites(sv);
    assert(pv == stable_order(sv.map_values(kf)));
    let mut r: Vec<(String, i64)> = Vec::new();
    let mut j: usize = 0;
    while j < ord.len()
        invariant
            j <= ord@.len(),
            ord@.len() == s@.len(),
            pv == positions_view(ord@),
            forall|k: int| 0 <= k < ord@.len() ==> ord@[k] < s@.len(),
            sv == sites_view(s@),
            want == sorted_sites(sv),
            want == pv.map_values(|x: int| sv[x]),
            sites_view(r@) == want.take(j as int),
        decreases ord@.len() - j,
    {
        let p = &s[ord[j]];
        let ghost before = sites_view(r@);
        r.push((p.0.clone(), p.1));
        proof {
            assert(pv[j as int] == ord@[j as int] as int);
            assert(want[j as int] == sv[ord@[j as int] as int]);
            assert(sites_view(r@) =~= before.push(want[j as int]));
            assert(want.take(j + 1) =~= want.take(j as int).push(want[j as int]));
        }
        j = j + 1;
    }
    assert(want.take(j as int) =~= want);
    r
}

/// Indexes the macro definitions by name: each named macro, in first-seen
/// order, with its distinct `(file, line)` definition sites sorted by file
/// and then line (a missing file reads `?`, a missing line `-1`).
pub fn macro_defs_index(defs: &Vec<FactRecord>) -> (r: Vec<(String, Vec<(String, i64)>)>)
    ensures
        index_view(r@) == macro_index_view(defs@),
{
    let t = def_sites_exec(defs);
    let ghost tv = triples_view(t@);
    let mut names: Vec<String> = Vec::new();
    let mut i: usize = 0;
    while i < t.len()
        invariant
            i <= t@.len(),
            tv == triples_view(t@),
            strings_view(names@) == tv.take(i as int).map_values(|x: (Seq<char>, Seq<char>, int)| x.0),
        decreases t@.len() - i,
    {
        let ghost before = strings_view(names@);
        names.push(t[i].0.clone());
        proof {
            assert(strings_view(names@) =~= before.push(tv[i as int].0));
            assert(tv.take(i + 1).map_values(|x: (Seq<char>, Seq<char>, int)| x.0) =~= tv.take(i as int).map_values(
                |x: (Seq<char>, Seq<char>, int)| x.0,
            ).push(tv[i as int].0));
        }
        i = i + 1;
    }
    assert(tv.take(i as int) =~= tv);
    let uniq = distinct_exec(&names);
    let ghost uv = strings_view(uniq@);
    let ghost want = macro_index_view(defs@);
    let mut r: Vec<(String, Vec<(String, i64)>)> = Vec::new();
    let mut j: usize = 0;
    while j < uniq.len()
        invariant
            j <= uniq@.len(),
            uv == strings_view(uniq@),
            tv == triples_view(t@),
            tv == def_sites(defs@),
            uv == distinct(tv.map_values(|x: (Seq<char>, Seq<char>, int)| x.0)),
            want == macro_index_view(defs@),
            index_view(r@) == want.take(j as int),
        decreases uniq@.len() - j,
    {
        let sites = sites_of_exec(&t, uniq[j].as_str());
        let sorted = sort_sites(&sites);
        let ghost before = index_view(r@);
        let ghost e = (uv[j as int], sites_view(sorted@));
        r.push((uniq[j].clone(), sorted));
        proof {
            assert(index_view(r@) =~= before.push(e));
            assert(want[j as int] == e);
            assert(want.take(j + 1) =~= want.take(j as int).push(e));
        }
        j = j + 1;
    }
    assert(want.take(j as int) =~= want);
    r
}

/// The seam inventory counts that decide the seeds: process spawns,
/// standard-stream protocols, foreign-function blocks and libc syscalls.
#[derive(Debug, Clone, Copy)]
pub struct SeamInventory {
    pub process_spawn: u64,
    pub std_io_stream: u64,
    pub ffi: u64,
    pub syscall_libc: u64,
}

/// A seed site of a seam: the use path, file and line it was found at.
#[derive(Debug, Clone)]
pub struct SeamSite {
    pub path: Option<String>,
    pub file: Option<String>,
    pub line: Option<i64>,
}

/// A detected seam: its title, the prose of what static tracing cannot
/// see there, and up to five seed sites.
#[derive(Debug, Clone)]
pub struct DetectedSeam {
    pub title: String,
    pub description: String,
    pub sites: Vec<SeamSite>,
}

/// The value of a seam site.
pub open spec fn site_view(s: SeamSite) -> (Option<Seq<char>>, Option<Seq<char>>, Option<i64>) {
    (opt_view(s.path), opt_view(s.file), s.line)
}

/// The seam site a use record gives.
pub open spec fn site_of(u: FactRecord) -> (Option<Seq<char>>, Option<Seq<char>>, Option<i64>) {
    (opt_view(u.path), opt_view(u.file), u.line)
}

/// The value of a seam: title, description and sites.
pub open spec fn seam_view(s: DetectedSeam) -> (Seq<char>, Seq<char>, Seq<(Option<Seq<char>>, Option<Seq<char>>, Option<i64>)>) {
    (s.title@, s.description@, s.sites@.map_values(|x: SeamSite| site_view(x)))
}

/// The values of a list of seams.
pub open spec fn seams_view(v: Seq<DetectedSeam>) -> Seq<(Seq<char>, Seq<char>, Seq<(Option<Seq<char>>, Option<Seq<char>>, Option<i64>)>)> {
    v.map_values(|s: DetectedSeam| seam_view(s))
}

/// A use of a `process` path in a source file.
pub open spec fn is_spawn_site(u: FactRecord) -> bool {
    contains_seq(text_or_empty(u.path), "process"@) && src_file_view(text_or_empty(u.file))
}

/// The sites of the uses of `process` paths in source files, in order.
pub open spec fn spawn_sites(us: Seq<FactRecord>) -> Seq<(Option<Seq<char>>, Option<Seq<char>>, Option<i64>)>
    decreases us.len(),
{
    if us.len() == 0 {
        Seq::empty()
    } else if is_spawn_site(us.last()) {
        spawn_sites(us.drop_last()).push(site_of(us.last()))
    } else {
        spawn_sites(us.drop_last())
    }
}

/// At most the first five of a list.
pub open spec fn first_five<A>(s: Seq<A>) -> Seq<A> {
    s.take(if s.len() < 5 {
        s.len() as int
    } else {
        5
    })
}

/// Whether the workspace holds a named inline definition of macro `m`.
pub open spec fn has_inline_def(ds: Seq<FactRecord>, m: Seq<char>) -> bool {
    m.len() > 0 && exists|i: int| 0 <= i < ds.len() && text_or_empty(#[trigger] ds[i].name) == m
}

/// How many of the macros have an inline definition.
pub open spec fn inline_count(macs: Seq<Seq<char>>, ds: Seq<FactRecord>) -> nat
    decreases macs.len(),
{
    if macs.len() == 0 {
        0
    } else {
        inline_count(macs.drop_last(), ds) + if has_inline_def(ds, macs.last()) {
            1nat
        } else {
            0nat
        }
    }
}

/// The description of the macro-registration seam, given how many of the
/// macros have inline definitions and how many there are.
pub open spec fn registration_text(inline: nat, total: nat) -> Seq<char> {
    "Items are registered by a macro; the call-site argument list is captured but the EXPANSION is not visible to the floor scanner. Counts are unverified without the rustdoc overlay."@
        + if inline > 0 {
        " "@ + decimal_view(inline) + " of "@ + decimal_view(total)
            + " macros have inline `macro_rules!` definitions in the workspace - see S6 for per-macro detail with definition spans (expansion is statically followable for those)."@
    } else {
        " Confirm the generated items in source or via overlay before relying on the registry."@
    }
}

/// The seams the inventory, uses and registration macros reveal: the
/// process / IPC boundary (when a process spawn or a standard-stream
/// protocol was counted) with the first five source-file uses of `process`
/// paths as sites; the macro-mediated registration (when any registration
/// macro is listed); and the FFI / syscall boundary (when a foreign block
/// or libc syscall was counted), described by `ffi_note`.
pub open spec fn detected_view(
    inv: SeamInventory,
    uses: Seq<FactRecord>,
    macs: Seq<Seq<char>>,
    defs: Seq<FactRecord>,
    ffi_note: Seq<char>,
) -> Seq<(Seq<char>, Seq<char>, Seq<(Option<Seq<char>>, Option<Seq<char>>, Option<i64>)>)> {
    (if inv.process_spawn > 0 || inv.std_io_stream > 0 {
        seq![
            (
                "process / IPC boundary"@,
                "A child process or stdin/stdout protocol crosses an address-space boundary; static tracing stops here. Verify the wire format in source before authoring across it."@,
                first_five(spawn_sites(uses)),
            ),
        ]
    } else {
        Seq::empty()
    }) + (if macs.len() > 0 {
        seq![
            (
                "macro-mediated registration ("@ + join_view(macs, ", "@) + ")"@,
                registration_text(inline_count(macs, defs), macs.len()),
                Seq::empty(),
            ),
        ]
    } else {
        Seq::empty()
    }) + (if inv.ffi > 0 || inv.syscall_libc > 0 {
        seq![("FFI / syscall boundary"@, ffi_note, Seq::empty())]
    } else {
        Seq::empty()
    })
}

fn has_inline_def_exec(defs: &Vec<FactRecord>, m: &str) -> (r: bool)
    ensures
        r == has_inline_def(defs@, m@),
{
    if m.is_empty() {
        return false;
    }
    let mut i: usize = 0;
    while i < defs.len()
        invariant
            i <= defs@.len(),
            m@.len() > 0,
            forall|k: int| 0 <= k < i ==> text_or_empty(#[trigger] defs@[k].name) != m@,
        decreases defs@.len() - i,
    {
        let n = owned_or_empty(&defs[i].name);
        if str_eq(n.as_str(), m) {
            assert(text_or_empty(defs@[i as int].name) == m@);
            return true;
        }
        i = i + 1;
    }
    false
}

fn inline_count_exec(macs: &Vec<String>, defs: &Vec<FactRecord>) -> (r: usize)
    ensures
        r == inline_count(strings_view(macs@), defs@),
{
    let ghost mv = strings_view(macs@);
    let mut c: usize = 0;
    let mut i: usize = 0;
    while i < macs.len()
        invariant
            i <= macs@.len(),
            mv == strings_view(macs@),
            c == inline_count(mv.take(i as int), defs@),
            c <= i,
        decreases macs@.len() - i,
    {
        proof {
            assert(mv.take(i + 1).drop_last() =~= mv.take(i as int));
            assert(mv.take(i + 1).last() == mv[i as int]);
        }
        if has_inline_def_exec(defs, macs[i].as_str()) {
            c = c + 1;
        }
        i = i + 1;
    }
    assert(mv.take(i as int) =~= mv);
    c
}

fn spawn_sites_exec(uses: &Vec<FactRecord>) -> (r: Vec<SeamSite>)
    ensures
        r@.map_values(|x: SeamSite| site_view(x)) == first_five(spawn_sites(uses@)),
{
    let ghost all = spawn_sites(uses@);
    let mut r: Vec<SeamSite> = Vec::new();
    let mut i: usize = 0;
    while i < uses.len() && r.len() < 5
        invariant
            i <= uses@.len(),
            all == spawn_sites(uses@),
            r@.len() <= 5,
            r@.map_values(|x: SeamSite| site_view(x)) == spawn_sites(uses@.take(i as int)),
        decreases uses@.len() - i,
    {
        proof {
            assert(uses@.take(i + 1).drop_last() =~= uses@.take(i as int));
            assert(uses@.take(i + 1).last() == uses@[i as int]);
        }
        let u = &uses[i];
        let path = owned_or_empty(&u.path);
        let file = owned_or_empty(&u.file);
        if str_contains(path.as_str(), "process") && is_src_file(file.as_str()) {
            let ghost before = r@.map_values(|x: SeamSite| site_view(x));
            let site = SeamSite { path: clone_opt(&u.path), file: clone_opt(&u.file), line: u.line };
            let ghost sv = site_view(site);
            r.push(site);
            assert(r@.map_values(|x: SeamSite| site_view(x)) =~= before.push(sv));
        }
        i = i + 1;
    }
    proof {
        lemma_spawn_prefix(uses@, i as int);
        if i < uses@.len() {
            assert(r@.len() == 5);
        } else {
            assert(uses@.take(i as int) =~= uses@);
        }
    }
    r
}

proof fn lemma_spawn_prefix(us: Seq<FactRecord>, i: int)
    requires
        0 <= i <= us.len(),
    ensures
        spawn_sites(us.take(i)) == spawn_sites(us).take(spawn_sites(us.take(i)).len() as int),
        spawn_sites(us.take(i)).len() <= spawn_sites(us).len(),
    decreases us.len() - i,
{
    if i < us.len() {
        lemma_spawn_prefix(us, i + 1);
        assert(us.take(i + 1).drop_last() =~= us.take(i));
        assert(us.take(i + 1).last() == us[i]);
    } else {
        assert(us.take(i) =~= us);
    }
}

/// Detects the seams where static tracing stops: the process / IPC
/// boundary (process spawns or standard-stream protocols counted), seeded
/// with the first five source-file uses of `process` paths; the
/// macro-mediated registration of the listed macros, with how many have
/// inline definitions; and the FFI / syscall boundary (foreign blocks or
/// libc syscalls counted), whose description is `ffi_note`.
pub fn detected_seams(
    inv: &SeamInventory,
    uses: &Vec<FactRecord>,
    registration_macros: &Vec<String>,
    macro_defs: &Vec<FactRecord>,
    ffi_note: &str,
) -> (r: Vec<DetectedSeam>)
    ensures
        seams_view(r@) == detected_view(*inv, uses@, strings_view(registration_macros@), macro_defs@, ffi_note@),
{
    let ghost want = detected_view(*inv, uses@, strings_view(registration_macros@), macro_defs@, ffi_note@);
    let mut r: Vec<DetectedSeam> = Vec::new();
    let ghost p1 = if inv.process_spawn > 0 || inv.std_io_stream > 0 {
        seq![
            (
                "process / IPC boundary"@,
                "A child process or stdin/stdout protocol crosses an address-space boundary; static tracing stops here. Verify the wire format in source before authoring across it."@,
                first_five(spawn_sites(uses@)),
            ),
        ]
    } else {
        Seq::empty()
    };
    if inv.process_spawn > 0 || inv.std_io_stream > 0 {
        let sites = spawn_sites_exec(uses);
        let s = DetectedSeam {
            title: "process / IPC boundary".to_string(),
            description: "A child process or stdin/stdout protocol crosses an address-space boundary; static tracing stops here. Verify the wire format in source before authoring across it.".to_string(),
            sites,
        };
        r.push(s);
    }
    assert(seams_view(r@) =~= p1);
    let ghost mv = strings_view(registration_macros@);
    let ghost p2 = if mv.len() > 0 {
        seq![
            (
                "macro-mediated registration ("@ + join_view(mv, ", "@) + ")"@,
                registration_text(inline_count(mv, macro_defs@), mv.len()),
                Seq::<(Option<Seq<char>>, Option<Seq<char>>, Option<i64>)>::empty(),
            ),
        ]
    } else {
        Seq::empty()
    };
    if registration_macros.len() > 0 {
        let mut title = "macro-mediated registration (".to_string();
        push_str(&mut title, join_strings(registration_macros, ", ").as_str());
        push_str(&mut title, ")");
        let inline = inline_count_exec(registration_macros, macro_defs);
        let mut desc = "Items are registered by a macro; the call-site argument list is captured but the EXPANSION is not visible to the floor scanner. Counts are unverified without the rustdoc overlay.".to_string();
        if inline > 0 {
            push_str(&mut desc, " ");
            push_decimal(&mut desc, inline);
            push_str(&mut desc, " of ");
            push_decimal(&mut desc, registration_macros.len());
            push_str(&mut desc, " macros have inline `macro_rules!` definitions in the workspace - see S6 for per-macro detail with definition spans (expansion is statically followable for those).");
        } else {
            push_str(&mut desc, " Confirm the generated items in source or via overlay before relying on the registry.");
        }
        assert(title@ == "macro-mediated registration ("@ + join_view(mv, ", "@) + ")"@);
        assert(desc@ == registration_text(inline_count(mv, macro_defs@), mv.len()));
        let ghost before = seams_view(r@);
        let s = DetectedSeam { title, description: desc, sites: Vec::new() };
        let ghost sv = seam_view(s);
        r.push(s);
        proof {
            assert(s.sites@.map_values(|x: SeamSite| site_view(x)) =~= Seq::<(Option<Seq<char>>, Option<Seq<char>>, Option<i64>)>::empty());
            assert(seams_view(r@) =~= before.push(sv));
        }
    }
    assert(seams_view(r@) =~= p1 + p2);
    let ghost p3 = if inv.ffi > 0 || inv.syscall_libc > 0 {
        seq![("FFI / syscall boundary"@, ffi_note@, Seq::<(Option<Seq<char>>, Option<Seq<char>>, Option<i64>)>::empty())]
    } else {
        Seq::empty()
    };
    if inv.ffi > 0 || inv.syscall_libc > 0 {
        let ghost before = seams_view(r@);
        let s = DetectedSeam { title: "FFI / syscall boundary".to_string(), description: ffi_note.to_string(), sites: Vec::new() };
        let ghost sv = seam_view(s);
        r.push(s);
        proof {
            assert(s.sites@.map_values(|x: SeamSite| site_view(x)) =~= Seq::<(Option<Seq<char>>, Option<Seq<char>>, Option<i64>)>::empty());
            assert(seams_view(r@) =~= before.push(sv));
        }
    }
    assert(seams_view(r@) =~= p1 + p2 + p3);
    r
}

/// The detected seams come in a fixed order and each only when its signal
/// is there: the process / IPC boundary first (when a process spawn or a
/// standard-stream protocol was counted), then the macro-mediated
/// registration (when a registration macro is listed), then the FFI /
/// syscall boundary (when a foreign block or libc syscall was counted);
/// no seam carries more than five seed sites.
pub proof fn lemma_detected_seams_shape(
    inv: SeamInventory,
    uses: Seq<FactRecord>,
    macs: Seq<Seq<char>>,
    defs: Seq<FactRecord>,
    ffi_note: Seq<char>,
)
    ensures
        ({
            let d = detected_view(inv, uses, macs, defs, ffi_note);
            let p = inv.process_spawn > 0 || inv.std_io_stream > 0;
            let r = macs.len() > 0;
            let f = inv.ffi > 0 || inv.syscall_libc > 0;
            let np: int = if p { 1 } else { 0 };
            let nr: int = if r { 1 } else { 0 };
            let nf: int = if f { 1 } else { 0 };
            &&& d.len() == np + nr + nf
            &&& forall|k: int| 0 <= k < d.len() ==> (#[trigger] d[k]).2.len() <= 5
            &&& p ==> d[0].0 == "process / IPC boundary"@
            &&& r ==> d[np].0 == "macro-mediated registration ("@ + join_view(macs, ", "@) + ")"@
            &&& f ==> d[np + nr].0 == "FFI / syscall boundary"@ && d[np + nr].1 == ffi_note
        }),
{
    let d = detected_view(inv, uses, macs, defs, ffi_note);
    let s = spawn_sites(uses);
    assert(first_five(s).len() <= 5);
    assert forall|k: int| 0 <= k < d.len() implies (#[trigger] d[k]).2.len() <= 5 by {}
}

/// Whether a use is one of a `process` path in a source file.
pub open spec fn process_use_in_source(u: FactRecord) -> bool {
    contains_seq(text_or_empty(u.path), "process"@) && src_file_view(text_or_empty(u.file))
}

proof fn lemma_spawn_sites_filter(us: Seq<FactRecord>)
    ensures
        spawn_sites(us) == us.filter(|u: FactRecord| process_use_in_source(u)).map_values(
            |u: FactRecord| site_of(u),
        ),
    decreases us.len(),
{
    reveal(Seq::filter);
    if us.len() > 0 {
        lemma_spawn_sites_filter(us.drop_last());
        let f = us.drop_last().filter(|u: FactRecord| process_use_in_source(u));
        if process_use_in_source(us.last()) {
            assert(f.push(us.last()).map_values(|u: FactRecord| site_of(u)) =~= f.map_values(
                |u: FactRecord| site_of(u),
            ).push(site_of(us.last())));
        }
    }
}

proof fn lemma_spawn_sites_sound(us: Seq<FactRecord>)
    ensures
        forall|k: int|
            0 <= k < spawn_sites(us).len() ==> exists|i: int|
                0 <= i < us.len() && #[trigger] spawn_sites(us)[k] == site_of(us[i]) && process_use_in_source(
                    us[i],
                ),
    decreases us.len(),
{
    if us.len() > 0 {
        let d = us.drop_last();
        lemma_spawn_sites_sound(d);
        let last = us.len() - 1;
        assert forall|k: int| 0 <= k < spawn_sites(us).len() implies exists|i: int|
            0 <= i < us.len() && #[trigger] spawn_sites(us)[k] == site_of(us[i]) && process_use_in_source(us[i]) by {
            if k < spawn_sites(d).len() {
                let i = choose|i: int|
                    0 <= i < d.len() && #[trigger] spawn_sites(d)[k] == site_of(d[i]) && process_use_in_source(d[i]);
                assert(us[i] == d[i]);
                assert(spawn_sites(us)[k] == spawn_sites(d)[k]);
            } else {
                assert(spawn_sites(us)[k] == site_of(us[last]));
            }
        }
    }
}

/// Whether `site` is the path, file and line of a use of a `process` path in
/// a source file.
pub open spec fn site_of_process_use(
    uses: Seq<FactRecord>,
    site: (Option<Seq<char>>, Option<Seq<char>>, Option<i64>),
) -> bool {
    exists|i: int|
        0 <= i < uses.len() && site == site_of(#[trigger] uses[i]) && contains_seq(text_or_empty(uses[i].path), "process"@)
            && src_file_view(text_or_empty(uses[i].file))
}

/// The seed sites of the process / IPC seam are the first five uses of a
/// `process` path in a source file, in order, each site that use's path,
/// file and line: no site comes from any other use.
pub proof fn lemma_process_seam_sites(
    inv: SeamInventory,
    uses: Seq<FactRecord>,
    macs: Seq<Seq<char>>,
    defs: Seq<FactRecord>,
    ffi_note: Seq<char>,
)
    requires
        inv.process_spawn > 0 || inv.std_io_stream > 0,
    ensures
        ({
            let sites = detected_view(inv, uses, macs, defs, ffi_note)[0].2;
            let all = uses.filter(|u: FactRecord| process_use_in_source(u)).map_values(|u: FactRecord| site_of(u));
            &&& sites == all.take(if all.len() < 5 { all.len() as int } else { 5 })
            &&& forall|k: int| 0 <= k < sites.len() ==> site_of_process_use(uses, #[trigger] sites[k])
        }),
{
    lemma_spawn_sites_filter(uses);
    lemma_spawn_sites_sound(uses);
    let d = detected_view(inv, uses, macs, defs, ffi_note);
    let sp = spawn_sites(uses);
    assert(d[0].2 == first_five(sp));
    let sites = d[0].2;
    let all = uses.filter(|u: FactRecord| process_use_in_source(u)).map_values(|u: FactRecord| site_of(u));
    assert(sp == all);
    assert(sites == all.take(if all.len() < 5 { all.len() as int } else { 5 }));
    assert forall|k: int| 0 <= k < sites.len() implies site_of_process_use(uses, #[trigger] sites[k]) by {
        assert(sites[k] == sp[k]);
        let i = choose|i: int| 0 <= i < uses.len() && #[trigger] sp[k] == site_of(uses[i]) && process_use_in_source(uses[i]);
        assert(0 <= i < uses.len() && sites[k] == site_of(uses[i]) && contains_seq(text_or_empty(uses[i].path), "process"@)
            && src_file_view(text_or_empty(uses[i].file)));
    }
}

} // verus!
