//! The consumer-demand side: normalizing written roots, deciding whether a
//! demanded name resolves into the measured target crates, reading the
//! consumer roster, and the demand report records.

use vstd::prelude::*;
use crate::assoc::{first_value, lemma_first_value_prefix, lemma_first_value_step};
use crate::lexical::{
    after_last, after_last_exec, split_exec, split_seq, strip_suffix_all, strip_suffix_all_exec, trim,
    trim_exec, underscored, underscored_exec, words, words_exec,
};
use crate::resolution::{
    ImportBinding, ImportMaps, lang_root, opt_view, pairs_view, strings_contain, strings_view,
};
use crate::text::{chars_of, starts_with, str_eq, str_starts_with, string_of, occurs_at_exec};

verus! {

/// Hyphens normalized to underscores, as crate names are compared.
pub fn demand_norm(s: &str) -> (r: String)
    ensures
        r@ == underscored(s@),
{
    underscored_exec(s)
}

fn rename_lookup(renames: &Vec<(String, String)>, key: &str) -> (r: Option<usize>)
    ensures
        r matches Some(i) ==> i < renames@.len() && first_value(pairs_view(renames@), key@) == Some(
            renames@[i as int].1@,
        ),
        r is None ==> first_value(pairs_view(renames@), key@) is None,
{
    let ghost s = pairs_view(renames@);
    let mut i: usize = 0;
    while i < renames.len()
        invariant
            i <= renames@.len(),
            s == pairs_view(renames@),
            first_value(s.take(i as int), key@) is None,
        decreases renames@.len() - i,
    {
        proof {
            lemma_first_value_step(s, i as int, key@);
        }
        if str_eq(renames[i].0.as_str(), key) {
            proof {
                lemma_first_value_prefix(s, i + 1, key@);
            }
            return Some(i);
        }
        i = i + 1;
    }
    assert(s.take(i as int) =~= s);
    None
}

/// A root (hyphens normalized) names a target crate directly, or through
/// the consumer's dependency rename of it.
pub open spec fn root_in_targets_view(
    root: Seq<char>,
    renames: Seq<(Seq<char>, Seq<char>)>,
    targets: Seq<Seq<char>>,
) -> bool {
    let n = underscored(root);
    targets.contains(n) || match first_value(renames, n) {
        Some(pkg) => targets.contains(underscored(pkg)),
        None => false,
    }
}

/// Whether a written root names one of the target crates, directly or via
/// the consumer's dependency renames.
pub fn root_in_targets(root: &str, consumer_renames: &Vec<(String, String)>, target_crates: &Vec<String>) -> (r: bool)
    ensures
        r == root_in_targets_view(root@, pairs_view(consumer_renames@), strings_view(target_crates@)),
{
    let n = demand_norm(root);
    if strings_contain(target_crates, n.as_str()) {
        return true;
    }
    match rename_lookup(consumer_renames, n.as_str()) {
        Some(i) => {
            let p = demand_norm(consumer_renames[i].1.as_str());
            strings_contain(target_crates, p.as_str())
        },
        None => false,
    }
}

/// The crate names a root may stand for: the normalized root, then the
/// package it is a rename of when that differs.
pub open spec fn root_candidates_view(root: Seq<char>, renames: Seq<(Seq<char>, Seq<char>)>) -> Seq<Seq<char>> {
    let n = underscored(root);
    match first_value(renames, n) {
        Some(pkg) => if underscored(pkg) != n {
            seq![n, underscored(pkg)]
        } else {
            seq![n]
        },
        None => seq![n],
    }
}

/// The crate names a written root may stand for.
pub fn root_candidates(root: &str, consumer_renames: &Vec<(String, String)>) -> (r: Vec<String>)
    ensures
        strings_view(r@) == root_candidates_view(root@, pairs_view(consumer_renames@)),
{
    let n = demand_norm(root);
    let mut out: Vec<String> = Vec::new();
    out.push(n.clone());
    assert(strings_view(out@) =~= seq![underscored(root@)]);
    match rename_lookup(consumer_renames, n.as_str()) {
        Some(i) => {
            let p = demand_norm(consumer_renames[i].1.as_str());
            let ghost before = strings_view(out@);
            assert(before[0] == underscored(root@));
            if !strings_contain(&out, p.as_str()) {
                assert(p@ != underscored(root@));
                out.push(p);
                assert(strings_view(out@) =~= before.push(p@));
            } else {
                assert(before[0] == p@);
            }
        },
        None => {},
    }
    assert(strings_view(out@) =~= root_candidates_view(root@, pairs_view(consumer_renames@)));
    out
}

/// The views of a name -> binding list.
pub open spec fn aliases_view(v: Seq<(String, ImportBinding)>) -> Seq<(Seq<char>, (Seq<char>, Option<Seq<char>>))> {
    v.map_values(|e: (String, ImportBinding)| (e.0@, e.1.view_pair()))
}

fn alias_lookup(aliases: &Vec<(String, ImportBinding)>, key: &str) -> (r: Option<usize>)
    ensures
        r matches Some(i) ==> i < aliases@.len() && first_value(aliases_view(aliases@), key@) == Some(
            aliases@[i as int].1.view_pair(),
        ),
        r is None ==> first_value(aliases_view(aliases@), key@) is None,
{
    let ghost s = aliases_view(aliases@);
    let mut i: usize = 0;
    while i < aliases.len()
        invariant
            i <= aliases@.len(),
            s == aliases_view(aliases@),
            first_value(s.take(i as int), key@) is None,
        decreases aliases@.len() - i,
    {
        proof {
            lemma_first_value_step(s, i as int, key@);
        }
        if str_eq(aliases[i].0.as_str(), key) {
            proof {
                lemma_first_value_prefix(s, i + 1, key@);
            }
            return Some(i);
        }
        i = i + 1;
    }
    assert(s.take(i as int) =~= s);
    None
}

fn pair_listed(v: &Vec<(String, String)>, a: &str, b: &str) -> (r: bool)
    ensures
        r == pairs_view(v@).contains((a@, b@)),
{
    let mut i: usize = 0;
    while i < v.len()
        invariant
            i <= v@.len(),
            forall|k: int| 0 <= k < i ==> pairs_view(v@)[k] != (a@, b@),
        decreases v@.len() - i,
    {
        if str_eq(v[i].0.as_str(), a) && str_eq(v[i].1.as_str(), b) {
            assert(pairs_view(v@)[i as int] == (a@, b@));
            return true;
        }
        i = i + 1;
    }
    false
}

/// The target item a consumer's demand for `name` (written in `file`, with
/// an optional qualifier) resolves to, as (source name, root): a qualifier
/// is read through the file's imports and the local-module gate, then as a
/// written root; otherwise the file's import of `name`, then the crate-wide
/// alias map; only roots naming a target crate count.
pub open spec fn demand_resolved_view(
    file: Seq<char>,
    name: Seq<char>,
    qualifier: Option<Seq<char>>,
    imap: Seq<((Seq<char>, Seq<char>), (Seq<char>, Option<Seq<char>>))>,
    aliases: Seq<(Seq<char>, (Seq<char>, Option<Seq<char>>))>,
    renames: Seq<(Seq<char>, Seq<char>)>,
    targets: Seq<Seq<char>>,
    local_mods: Seq<(Seq<char>, Seq<char>)>,
) -> Option<(Seq<char>, Seq<char>)> {
    let q_effective: Option<Seq<char>> = match qualifier {
        None => None,
        Some(q) => match first_value(imap, (file, q)) {
            Some(b) => if lang_root(b.0) || local_mods.contains((file, b.0)) {
                None
            } else {
                Some(b.0)
            },
            None => if local_mods.contains((file, q)) {
                None
            } else {
                Some(q)
            },
        },
    };
    let alias_hit = match first_value(aliases, name) {
        Some(b) => if root_in_targets_view(b.0, renames, targets) {
            Some(b)
        } else {
            None
        },
        None => None,
    };
    if q_effective is Some && root_in_targets_view(q_effective->Some_0, renames, targets) {
        match alias_hit {
            Some(b) => match b.1 {
                Some(s) => Some((s, b.0)),
                None => None,
            },
            None => Some((name, q_effective->Some_0)),
        }
    } else {
        match first_value(imap, (file, name)) {
            Some(b) if !local_mods.contains((file, b.0)) && root_in_targets_view(b.0, renames, targets) => Some(
                (
                    match b.1 {
                        Some(s) => if s.len() > 0 {
                            s
                        } else {
                            name
                        },
                        None => name,
                    },
                    b.0,
                ),
            ),
            _ => match alias_hit {
                Some(b) => match b.1 {
                    Some(s) => Some((s, b.0)),
                    None => None,
                },
                None => None,
            },
        }
    }
}

/// Resolves one demanded name to the target item it means, or `None` when
/// it does not resolve into the target crates.
pub fn demand_resolved(
    file: &str,
    name: &str,
    qualifier: Option<&str>,
    imap: &ImportMaps,
    alias_global: &Vec<(String, ImportBinding)>,
    consumer_renames: &Vec<(String, String)>,
    target_crates: &Vec<String>,
    local_mod_files: &Vec<(String, String)>,
) -> (r: Option<(String, String)>)
    ensures
        (match r {
            Some(p) => Some((p.0@, p.1@)),
            None => None,
        }) == demand_resolved_view(
            file@,
            name@,
            match qualifier {
                Some(q) => Some(q@),
                None => None,
            },
            imap@,
            aliases_view(alias_global@),
            pairs_view(consumer_renames@),
            strings_view(target_crates@),
            pairs_view(local_mod_files@),
        ),
{
    if let Some(q) = qualifier {
        let q_effective: Option<String> = match imap.get(file, q) {
            Some(b) => {
                if str_eq(b.root.as_str(), "crate") || str_eq(b.root.as_str(), "self") || str_eq(
                    b.root.as_str(),
                    "super",
                ) {
                    None
                } else if pair_listed(local_mod_files, file, b.root.as_str()) {
                    None
                } else {
                    Some(b.root.clone())
                }
            },
            None => {
                if pair_listed(local_mod_files, file, q) {
                    None
                } else {
                    Some(q.to_owned())
                }
            },
        };
        if let Some(qr) = q_effective {
            if root_in_targets(qr.as_str(), consumer_renames, target_crates) {
                if let Some(i) = alias_lookup(alias_global, name) {
                    let b = &alias_global[i].1;
                    if root_in_targets(b.root.as_str(), consumer_renames, target_crates) {
                        return match &b.source {
                            Some(s) => Some((s.clone(), b.root.clone())),
                            None => None,
                        };
                    }
                }
                return Some((name.to_owned(), qr));
            }
        }
    }
    if let Some(b) = imap.get(file, name) {
        if !pair_listed(local_mod_files, file, b.root.as_str()) && root_in_targets(
            b.root.as_str(),
            consumer_renames,
            target_crates,
        ) {
            let src = match &b.source {
                Some(s) => if !s.as_str().is_empty() {
                    s.clone()
                } else {
                    name.to_owned()
                },
                None => name.to_owned(),
            };
            return Some((src, b.root.clone()));
        }
    }
    if let Some(i) = alias_lookup(alias_global, name) {
        let b = &alias_global[i].1;
        if root_in_targets(b.root.as_str(), consumer_renames, target_crates) {
            return match &b.source {
                Some(s) => Some((s.clone(), b.root.clone())),
                None => None,
            };
        }
    }
    None
}

/// The role of a consumer row: its demand weights the target's picks, or
/// it audits them.
#[derive(Debug, Clone, Copy, PartialEq, Eq, Structural)]
pub enum ConsumerRole {
    Weight,
    Audit,
}

impl ConsumerRole {
    pub open spec fn wire_view(self) -> Seq<char> {
        match self {
            ConsumerRole::Weight => "weight"@,
            ConsumerRole::Audit => "audit"@,
        }
    }

    /// snake_case wire form (`weight` / `audit`).
    pub fn wire(self) -> (r: &'static str)
        ensures
            r@ == self.wire_view(),
    {
        match self {
            ConsumerRole::Weight => "weight",
            ConsumerRole::Audit => "audit",
        }
    }
}

/// One consumer-roster row: the target it measures, the consumer's snake
/// name, its role, its URL (`local:<path>` for a local checkout), and a
/// root override set by a following `# root:` comment.
#[derive(Debug, Clone)]
pub struct ConsumerRow {
    pub target: String,
    pub snake: String,
    pub role: ConsumerRole,
    pub url: String,
    pub root_override: Option<String>,
}

/// The value of a consumer row.
pub ghost struct RowView {
    pub target: Seq<char>,
    pub snake: Seq<char>,
    pub role: ConsumerRole,
    pub url: Seq<char>,
    pub root_override: Option<Seq<char>>,
}

impl ConsumerRow {
    pub open spec fn view_of(self) -> RowView {
        RowView {
            target: self.target@,
            snake: self.snake@,
            role: self.role,
            url: self.url@,
            root_override: opt_view(self.root_override),
        }
    }
}

/// The role a roster column names.
pub open spec fn role_of(col: Seq<char>) -> Option<ConsumerRole> {
    if col == "weight"@ {
        Some(ConsumerRole::Weight)
    } else if col == "audit"@ {
        Some(ConsumerRole::Audit)
    } else {
        None
    }
}

/// The rows after reading one roster line: blank lines are skipped; a
/// `# root: <path>` comment sets the previous row's root override (other
/// comments are skipped); a line of exactly five whitespace-separated
/// columns `target snake role url _` with role `weight` or `audit` adds a
/// row; any other line is skipped.
pub open spec fn roster_step(rows: Seq<RowView>, line: Seq<char>) -> Seq<RowView> {
    let t = trim(line);
    if t.len() == 0 {
        rows
    } else if t[0] == '#' {
        let rest = trim(t.drop_first());
        if starts_with(rest, "root:"@) && rows.len() > 0 {
            rows.update(
                rows.len() - 1,
                RowView { root_override: Some(trim(rest.skip(5))), ..rows.last() },
            )
        } else {
            rows
        }
    } else {
        let cols = words(t);
        if cols.len() != 5 || role_of(cols[2]) is None {
            rows
        } else {
            rows.push(
                RowView {
                    target: cols[0],
                    snake: cols[1],
                    role: role_of(cols[2])->Some_0,
                    url: cols[3],
                    root_override: None,
                },
            )
        }
    }
}

/// The rows of a roster's lines, in order.
pub open spec fn roster_rows(lines: Seq<Seq<char>>) -> Seq<RowView>
    decreases lines.len(),
{
    if lines.len() == 0 {
        Seq::empty()
    } else {
        roster_step(roster_rows(lines.drop_last()), lines.last())
    }
}

/// The views of a list of rows.
pub open spec fn rows_view(v: Seq<ConsumerRow>) -> Seq<RowView> {
    v.map_values(|r: ConsumerRow| r.view_of())
}

/// Reads the consumer roster text: one row per line as `roster_step`
/// describes.
pub fn parse_consumer_rows(text: &str) -> (r: Vec<ConsumerRow>)
    ensures
        rows_view(r@) == roster_rows(split_seq(text@, seq!['\n'])),
{
    let cs = chars_of(text);
    let nl = vec!['\n'];
    assert(nl@ =~= seq!['\n']);
    let lines = split_exec(&cs, &nl);
    let ghost ls = lines@.map_values(|v: Vec<char>| v@);
    let mut rows: Vec<ConsumerRow> = Vec::new();
    let mut i: usize = 0;
    let root_kw = vec!['r', 'o', 'o', 't', ':'];
    proof {
        reveal_strlit("root:");
    }
    assert(root_kw@ =~= "root:"@);
    assert(ls.take(0) =~= Seq::<Seq<char>>::empty());
    assert(rows_view(rows@) =~= Seq::<RowView>::empty());
    while i < lines.len()
        invariant
            i <= lines@.len(),
            ls == lines@.map_values(|v: Vec<char>| v@),
            root_kw@ == "root:"@,
            rows_view(rows@) == roster_rows(ls.take(i as int)),
        decreases lines@.len() - i,
    {
        assert(ls.take(i + 1).drop_last() =~= ls.take(i as int));
        assert(ls.take(i + 1).last() == lines@[i as int]@);
        let ghost before = rows_view(rows@);
        proof {
            reveal_strlit("weight");
            reveal_strlit("audit");
            reveal_strlit("root:");
        }
        let t = trim_exec(&lines[i]);
        if t.len() == 0 {
        } else if t[0] == '#' {
            let tail = crate::lexical::slice_vec(&t, 1, t.len());
            assert(tail@ =~= t@.drop_first());
            let rest = trim_exec(&tail);
            assert(root_kw@.len() == 5);
            if occurs_at_exec(&rest, &root_kw, 0) && rows.len() > 0 {
                let after = crate::lexical::slice_vec(&rest, 5, rest.len());
                assert(after@ =~= rest@.skip(5));
                let root = trim_exec(&after);
                let last = rows.len() - 1;
                let mut row = rows.remove(last);
                let ghost r0 = row.view_of();
                row.root_override = Some(string_of(&root));
                rows.push(row);
                assert(rows_view(rows@) =~= before.update(
                    before.len() - 1,
                    RowView { root_override: Some(root@), ..before.last() },
                ));
            }
        } else {
            let cols = words_exec(&t);
            let ghost cv = cols@.map_values(|v: Vec<char>| v@);
            if cols.len() == 5 {
                let weight = vec!['w', 'e', 'i', 'g', 'h', 't'];
                let audit = vec!['a', 'u', 'd', 'i', 't'];
                assert(weight@ =~= "weight"@);
                assert(audit@ =~= "audit"@);
                let role = if crate::lexical::chars_eq(&cols[2], &weight) {
                    Some(ConsumerRole::Weight)
                } else if crate::lexical::chars_eq(&cols[2], &audit) {
                    Some(ConsumerRole::Audit)
                } else {
                    None
                };
                assert(cv[2] == cols@[2]@);
                match role {
                    Some(role) => {
                        rows.push(
                            ConsumerRow {
                                target: string_of(&cols[0]),
                                snake: string_of(&cols[1]),
                                role,
                                url: string_of(&cols[3]),
                                root_override: None,
                            },
                        );
                        assert(rows_view(rows@) =~= before.push(
                            RowView {
                                target: cv[0],
                                snake: cv[1],
                                role,
                                url: cv[3],
                                root_override: None,
                            },
                        ));
                    },
                    None => {},
                }
            }
        }
        i = i + 1;
    }
    assert(ls.take(i as int) =~= ls);
    rows
}

/// Where a consumer's checkout lives: a `local:` path, the row's root
/// override, or the URL's last segment (without `.git`) inside the pair's
/// directory.
#[derive(Debug, Clone, PartialEq, Eq)]
pub enum ConsumerRoot {
    Path(String),
    InPairDir(String),
}

/// Where the checkout of a row lives: `(true, path)` for a `local:` URL's
/// path or the row's root override, `(false, name)` for the URL's last
/// `/`-segment with trailing `.git` removed, to be found in the pair's
/// directory.
pub open spec fn consumer_root_view(url: Seq<char>, root_override: Option<Seq<char>>) -> (bool, Seq<char>) {
    if starts_with(url, "local:"@) {
        (true, url.skip(6))
    } else {
        match root_override {
            Some(o) => (true, o),
            None => (false, strip_suffix_all(after_last(url, seq!['/']), ".git"@)),
        }
    }
}

/// Decides where a consumer's checkout lives.
pub fn resolve_consumer_root(row: &ConsumerRow) -> (r: ConsumerRoot)
    ensures
        (match r {
            ConsumerRoot::Path(p) => (true, p@),
            ConsumerRoot::InPairDir(b) => (false, b@),
        }) == consumer_root_view(row.url@, opt_view(row.root_override)),
{
    proof {
        reveal_strlit("local:");
        reveal_strlit(".git");
    }
    let url = chars_of(row.url.as_str());
    if str_starts_with(row.url.as_str(), "local:") {
        let rest = crate::lexical::slice_vec(&url, 6, url.len());
        assert(rest@ =~= row.url@.skip(6));
        return ConsumerRoot::Path(string_of(&rest));
    }
    match &row.root_override {
        Some(o) => ConsumerRoot::Path(o.clone()),
        None => {
            let slash = vec!['/'];
            let git = vec!['.', 'g', 'i', 't'];
            assert(git@ =~= ".git"@);
            assert(slash@ =~= seq!['/']);
            let base = after_last_exec(&url, &slash);
            let stem = strip_suffix_all_exec(&base, &git);
            ConsumerRoot::InPairDir(string_of(&stem))
        },
    }
}

/// One demanded name: its name, the kinds and sources it was demanded as,
/// and how many sites demand it.
#[derive(Debug, Clone)]
pub struct DemandRecord {
    pub name: String,
    pub kinds: Vec<String>,
    pub srcs: Vec<String>,
    pub sites: usize,
}

/// The summary of one consumer's demand against a target: name counts
/// (with the missed and foreign-served records), the namespace-import
/// count, the pair counts by tier (with the missed and foreign-served
/// pairs), and the glob imports.
#[derive(Debug, Clone)]
pub struct DemandSummary {
    pub demanded_names: usize,
    pub hits: usize,
    pub miss_count: usize,
    pub misses: Vec<DemandRecord>,
    pub mod_namespace_count: usize,
    pub foreign_reexport_count: usize,
    pub foreign_reexports: Vec<DemandRecord>,
    pub pairs_total: usize,
    pub pair_exact: usize,
    pub pair_name_level: usize,
    pub pair_miss_count: usize,
    pub pair_misses: Vec<String>,
    pub pair_foreign: Vec<String>,
    pub globs: Vec<String>,
}

/// One consumer's demand report: the summary, the served names, the names
/// demanded only as module namespaces, the pairs served at name level, and
/// the demanded pairs with their site counts.
#[derive(Debug, Clone)]
pub struct DemandReport {
    pub summary: DemandSummary,
    pub hits: Vec<DemandRecord>,
    pub mod_namespace: Vec<DemandRecord>,
    pub pair_name_level: Vec<String>,
    pub pair_sites: Vec<(String, usize)>,
}

} // verus!
