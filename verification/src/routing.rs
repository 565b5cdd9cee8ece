//! The routing document of a container workspace, and the per-crate member
//! lines it shares with the orientation's crate map.

use vstd::prelude::*;
use crate::fingerprint::PatternHistogramEntry;
use crate::numfmt::{decimal_view, push_decimal};
use crate::modules::join_view;
use crate::reference::join_strings;
use crate::resolution::{strings_contain, strings_view};
use crate::stable_order::{KeyView, SortKey, keys_view, positions_view, stable_order, stable_order_exec};
use crate::text::push_str;

verus! {

/// One workspace crate as the crate map shows it: name, directory, SLOC,
/// impl and type counts, and its dependencies.
#[derive(Debug, Clone)]
pub struct MemberRow {
    pub name: String,
    pub dir: String,
    pub sloc: usize,
    pub n_impls: usize,
    pub n_types: usize,
    pub deps: Vec<String>,
}

/// The names of the member rows.
pub open spec fn member_names(rows: Seq<MemberRow>) -> Seq<Seq<char>> {
    rows.map_values(|r: MemberRow| r.name@)
}

/// The dependencies of a member that are workspace members, in order.
pub open spec fn member_deps(deps: Seq<Seq<char>>, names: Seq<Seq<char>>) -> Seq<Seq<char>>
    decreases deps.len(),
{
    if deps.len() == 0 {
        Seq::empty()
    } else if names.contains(deps.last()) {
        member_deps(deps.drop_last(), names).push(deps.last())
    } else {
        member_deps(deps.drop_last(), names)
    }
}

/// The crate-map line of a member:
/// `- **name** (dir/, N SLOC, N impls, N types)` with its workspace
/// dependencies appended after ` -> depends on: ` when it has any.
pub open spec fn member_line(r: MemberRow, names: Seq<Seq<char>>) -> Seq<char> {
    let deps = member_deps(strings_view(r.deps@), names);
    "- **"@ + r.name@ + "** ("@ + r.dir@ + "/, "@ + decimal_view(r.sloc as nat) + " SLOC, "@ + decimal_view(
        r.n_impls as nat,
    ) + " impls, "@ + decimal_view(r.n_types as nat) + " types)"@ + if deps.len() == 0 {
        Seq::empty()
    } else {
        " -> depends on: "@ + join_view(deps, ", "@)
    }
}

/// The members in ascending order of name.
pub open spec fn members_by_name(rows: Seq<MemberRow>) -> Seq<int> {
    stable_order(rows.map_values(|r: MemberRow| KeyView { num: 0, first: r.name@, second: Seq::empty(), tail: 0 }))
}

/// The crate-map lines of the members, in ascending order of name.
pub open spec fn member_lines_view(rows: Seq<MemberRow>) -> Seq<Seq<char>> {
    members_by_name(rows).map_values(|i: int| member_line(rows[i], member_names(rows)))
}

fn member_line_exec(r: &MemberRow, rows: &Vec<MemberRow>, names: &Vec<String>) -> (s: String)
    requires
        strings_view(names@) == member_names(rows@),
    ensures
        s@ == member_line(*r, member_names(rows@)),
{
    let ghost nv = strings_view(names@);
    let mut deps: Vec<String> = Vec::new();
    let mut i: usize = 0;
    let ghost dv = strings_view(r.deps@);
    while i < r.deps.len()
        invariant
            i <= r.deps@.len(),
            dv == strings_view(r.deps@),
            nv == strings_view(names@),
            strings_view(deps@) == member_deps(dv.take(i as int), nv),
        decreases r.deps@.len() - i,
    {
        proof {
            assert(dv.take(i + 1).drop_last() =~= dv.take(i as int));
            assert(dv.take(i + 1).last() == r.deps@[i as int]@);
        }
        if strings_contain(names, r.deps[i].as_str()) {
            let ghost before = strings_view(deps@);
            deps.push(r.deps[i].clone());
            assert(strings_view(deps@) =~= before.push(r.deps@[i as int]@));
        }
        i = i + 1;
    }
    assert(dv.take(i as int) =~= dv);
    let mut s = "- **".to_string();
    push_str(&mut s, r.name.as_str());
    push_str(&mut s, "** (");
    push_str(&mut s, r.dir.as_str());
    push_str(&mut s, "/, ");
    push_decimal(&mut s, r.sloc);
    push_str(&mut s, " SLOC, ");
    push_decimal(&mut s, r.n_impls);
    push_str(&mut s, " impls, ");
    push_decimal(&mut s, r.n_types);
    push_str(&mut s, " types)");
    if deps.len() > 0 {
        push_str(&mut s, " -> depends on: ");
        push_str(&mut s, join_strings(&deps, ", ").as_str());
    } else {
        assert(s@ + Seq::<char>::empty() =~= s@);
    }
    s
}

/// The crate-map lines of the members, in ascending order of name: each
/// member's directory, SLOC, impl and type counts and its dependencies on
/// other members.
pub fn member_lines(rows: &Vec<MemberRow>) -> (r: Vec<String>)
    ensures
        strings_view(r@) == member_lines_view(rows@),
{
    let mut names: Vec<String> = Vec::new();
    let mut keys: Vec<SortKey> = Vec::new();
    let mut i: usize = 0;
    while i < rows.len()
        invariant
            i <= rows@.len(),
            strings_view(names@) == member_names(rows@).take(i as int),
            keys_view(keys@) == rows@.take(i as int).map_values(
                |r: MemberRow| KeyView { num: 0, first: r.name@, second: Seq::empty(), tail: 0 },
            ),
        decreases rows@.len() - i,
    {
        let ghost nb = strings_view(names@);
        let ghost kb = keys_view(keys@);
        names.push(rows[i].name.clone());
        let key = SortKey { num: 0, first: rows[i].name.clone(), second: String::new(), tail: 0 };
        let ghost kv = key@;
        keys.push(key);
        proof {
            assert(strings_view(names@) =~= nb.push(rows@[i as int].name@));
            assert(member_names(rows@).take(i + 1) =~= member_names(rows@).take(i as int).push(rows@[i as int].name@));
            assert(keys_view(keys@) =~= kb.push(kv));
            assert(rows@.take(i + 1) =~= rows@.take(i as int).push(rows@[i as int]));
            assert(rows@.take(i + 1).map_values(|r: MemberRow| KeyView { num: 0, first: r.name@, second: Seq::empty(), tail: 0 })
                =~= rows@.take(i as int).map_values(
                |r: MemberRow| KeyView { num: 0, first: r.name@, second: Seq::empty(), tail: 0 },
            ).push(kv));
        }
        i = i + 1;
    }
    assert(member_names(rows@).take(i as int) =~= member_names(rows@));
    assert(rows@.take(i as int) =~= rows@);
    let ord = stable_order_exec(&keys);
    let ghost ov = positions_view(ord@);
    let ghost want = member_lines_view(rows@);
    let mut r: Vec<String> = Vec::new();
    let mut j: usize = 0;
    while j < ord.len()
        invariant
            j <= ord@.len(),
            ord@.len() == rows@.len(),
            ov == positions_view(ord@),
            ov == members_by_name(rows@),
            forall|k: int| 0 <= k < ord@.len() ==> ord@[k] < rows@.len(),
            strings_view(names@) == member_names(rows@),
            want == member_lines_view(rows@),
            strings_view(r@) == want.take(j as int),
        decreases ord@.len() - j,
    {
        let line = member_line_exec(&rows[ord[j]], rows, &names);
        let ghost before = strings_view(r@);
        let ghost lv = line@;
        r.push(line);
        proof {
            assert(strings_view(r@) =~= before.push(lv));
            assert(want.take(j + 1) =~= want.take(j as int).push(want[j as int]));
        }
        j = j + 1;
    }
    assert(want.take(j as int) =~= want);
    r
}

/// What the routing document says of the container shape: the reasoning,
/// the central crate and its dominant kind, and the four structural signal
/// values as rendered text.
#[derive(Debug, Clone)]
pub struct ContainerShape {
    pub reasoning: Option<String>,
    pub central_crate: Option<String>,
    pub central_kind: Option<String>,
    pub uniqueness_ratio: String,
    pub kind_dominance_dispersion: String,
    pub leaf_ratio: String,
    pub hub_centrality: String,
}

/// A text field, `?` when absent.
pub open spec fn or_unknown(o: Option<String>) -> Seq<char> {
    match o {
        Some(s) => s@,
        None => "?"@,
    }
}

/// The histogram appendix line of a row: ``- `pattern` - count``.
pub open spec fn histogram_line(e: PatternHistogramEntry) -> Seq<char> {
    "- `"@ + e.pattern@ + "` - "@ + decimal_view(e.count as nat)
}

/// The lines of the routing document before the member list.
pub open spec fn routing_head(provenance: Seq<char>, shape: ContainerShape) -> Seq<Seq<char>> {
    seq![
        "# Orientation: Container Workspace"@,
        Seq::empty(),
        "The structural signals indicate this workspace is a container - a sub-topic aggregator with no single architectural pattern. Each member is a separate topical library; running the picker across the workspace as a whole would produce confidently-wrong output. This artifact routes you to the per-member orientations instead."@,
        Seq::empty(),
        "```"@,
        provenance,
        "```"@,
        Seq::empty(),
        "## How this artifact was shaped"@,
        Seq::empty(),
        "- shape: **container** (picker bypassed)"@,
        "- reasoning: "@ + or_unknown(shape.reasoning),
        "- central_crate: `"@ + or_unknown(shape.central_crate) + "` (dominant kind: "@ + or_unknown(
            shape.central_kind,
        ) + ")"@,
        "- uniqueness_ratio: "@ + shape.uniqueness_ratio@ + " (higher -> patterns more crate-isolated)"@,
        "- kind_dominance_dispersion: "@ + shape.kind_dominance_dispersion@
            + " (higher -> crates have diverse dominant kinds)"@,
        "- leaf_ratio: "@ + shape.leaf_ratio@,
        "- hub_centrality: "@ + shape.hub_centrality@,
        Seq::empty(),
        "## Workspace members"@,
        Seq::empty(),
        "Each member is a separate topical library. To produce an architectural orientation for a specific topic, run know_rust against the sub-workspace of interest."@,
        Seq::empty(),
    ]
}

/// The lines between the member list and the histogram rows.
pub open spec fn routing_middle() -> Seq<Seq<char>> {
    seq![
        Seq::empty(),
        "**[AGENT]** Pick the member whose architectural pattern you want to trace, then run know_rust against that member's directory. Open the corresponding orientation.md for the per-topic worked slices and authoring guides. The container workspace itself has no unifying architectural pattern to trace; do not author across member boundaries without first reading each member's individual orientation."@,
        Seq::empty(),
        "## Appendix: full pattern histogram"@,
        Seq::empty(),
        "Reported for auditing the container annotation. If the histogram surfaces a single dominant architectural pattern that you believe IS the workspace's central pattern, consider removing the `container = true` annotation. Otherwise the flat distribution typical of containers should be visible here."@,
        Seq::empty(),
    ]
}

/// The routing document of a container workspace.
pub open spec fn routing_view(
    provenance: Seq<char>,
    shape: ContainerShape,
    members: Seq<MemberRow>,
    histogram: Seq<PatternHistogramEntry>,
) -> Seq<char> {
    let rows = histogram.take(if histogram.len() < 25 {
        histogram.len() as int
    } else {
        25
    });
    join_view(
        routing_head(provenance, shape) + member_lines_view(members) + routing_middle() + rows.map_values(
            |e: PatternHistogramEntry| histogram_line(e),
        ) + seq![Seq::<char>::empty()],
        "\n"@,
    )
}

pub(crate) fn or_unknown_exec(o: &Option<String>) -> (s: String)
    ensures
        s@ == or_unknown(*o),
{
    match o {
        Some(x) => x.clone(),
        None => "?".to_string(),
    }
}

pub(crate) fn push_line(lines: &mut Vec<String>, l: String)
    ensures
        strings_view(final(lines)@) == strings_view(old(lines)@).push(l@),
{
    let ghost before = strings_view(lines@);
    let ghost lv = l@;
    lines.push(l);
    assert(strings_view(lines@) =~= before.push(lv));
}

pub(crate) fn push_lines(lines: &mut Vec<String>, more: &Vec<String>)
    ensures
        strings_view(final(lines)@) == strings_view(old(lines)@) + strings_view(more@),
{
    let ghost start = strings_view(lines@);
    let ghost mv = strings_view(more@);
    let mut i: usize = 0;
    while i < more.len()
        invariant
            i <= more@.len(),
            mv == strings_view(more@),
            strings_view(lines@) == start + mv.take(i as int),
        decreases more@.len() - i,
    {
        push_line(lines, more[i].clone());
        assert(mv.take(i + 1) =~= mv.take(i as int).push(mv[i as int]));
        assert(strings_view(lines@) =~= start + mv.take(i + 1));
        i = i + 1;
    }
    assert(mv.take(i as int) =~= mv);
}

/// Renders the routing document of a container workspace: the container
/// notice around the provenance banner, the shape reasoning, central crate
/// and structural signals, the members in ascending order of name (with
/// their workspace dependencies), the agent prompt, and the first 25
/// histogram rows.
pub fn render_container_routing(
    provenance: &str,
    shape: &ContainerShape,
    members: &Vec<MemberRow>,
    histogram: &Vec<PatternHistogramEntry>,
) -> (r: String)
    ensures
        r@ == routing_view(provenance@, *shape, members@, histogram@),
{
    let mut lines: Vec<String> = Vec::new();
    push_line(&mut lines, "# Orientation: Container Workspace".to_string());
    push_line(&mut lines, String::new());
    push_line(&mut lines, "The structural signals indicate this workspace is a container - a sub-topic aggregator with no single architectural pattern. Each member is a separate topical library; running the picker across the workspace as a whole would produce confidently-wrong output. This artifact routes you to the per-member orientations instead.".to_string());
    push_line(&mut lines, String::new());
    push_line(&mut lines, "```".to_string());
    push_line(&mut lines, provenance.to_string());
    push_line(&mut lines, "```".to_string());
    push_line(&mut lines, String::new());
    push_line(&mut lines, "## How this artifact was shaped".to_string());
    push_line(&mut lines, String::new());
    push_line(&mut lines, "- shape: **container** (picker bypassed)".to_string());
    let mut l = "- reasoning: ".to_string();
    push_str(&mut l, or_unknown_exec(&shape.reasoning).as_str());
    push_line(&mut lines, l);
    let mut l = "- central_crate: `".to_string();
    push_str(&mut l, or_unknown_exec(&shape.central_crate).as_str());
    push_str(&mut l, "` (dominant kind: ");
    push_str(&mut l, or_unknown_exec(&shape.central_kind).as_str());
    push_str(&mut l, ")");
    push_line(&mut lines, l);
    let mut l = "- uniqueness_ratio: ".to_string();
    push_str(&mut l, shape.uniqueness_ratio.as_str());
    push_str(&mut l, " (higher -> patterns more crate-isolated)");
    push_line(&mut lines, l);
    let mut l = "- kind_dominance_dispersion: ".to_string();
    push_str(&mut l, shape.kind_dominance_dispersion.as_str());
    push_str(&mut l, " (higher -> crates have diverse dominant kinds)");
    push_line(&mut lines, l);
    let mut l = "- leaf_ratio: ".to_string();
    push_str(&mut l, shape.leaf_ratio.as_str());
    push_line(&mut lines, l);
    let mut l = "- hub_centrality: ".to_string();
    push_str(&mut l, shape.hub_centrality.as_str());
    push_line(&mut lines, l);
    push_line(&mut lines, String::new());
    push_line(&mut lines, "## Workspace members".to_string());
    push_line(&mut lines, String::new());
    push_line(&mut lines, "Each member is a separate topical library. To produce an architectural orientation for a specific topic, run know_rust against the sub-workspace of interest.".to_string());
    push_line(&mut lines, String::new());
    assert(strings_view(lines@) =~= routing_head(provenance@, *shape));
    let ghost head = strings_view(lines@);
    let ml = member_lines(members);
    let mut i: usize = 0;
    while i < ml.len()
        invariant
            i <= ml@.len(),
            strings_view(lines@) == head + strings_view(ml@).take(i as int),
        decreases ml@.len() - i,
    {
        push_line(&mut lines, ml[i].clone());
        assert(strings_view(ml@).take(i + 1) =~= strings_view(ml@).take(i as int).push(ml@[i as int]@));
        assert(strings_view(lines@) =~= head + strings_view(ml@).take(i + 1));
        i = i + 1;
    }
    assert(strings_view(ml@).take(i as int) =~= strings_view(ml@));
    let ghost with_members = strings_view(lines@);
    push_line(&mut lines, String::new());
    push_line(&mut lines, "**[AGENT]** Pick the member whose architectural pattern you want to trace, then run know_rust against that member's directory. Open the corresponding orientation.md for the per-topic worked slices and authoring guides. The container workspace itself has no unifying architectural pattern to trace; do not author across member boundaries without first reading each member's individual orientation.".to_string());
    push_line(&mut lines, String::new());
    push_line(&mut lines, "## Appendix: full pattern histogram".to_string());
    push_line(&mut lines, String::new());
    push_line(&mut lines, "Reported for auditing the container annotation. If the histogram surfaces a single dominant architectural pattern that you believe IS the workspace's central pattern, consider removing the `container = true` annotation. Otherwise the flat distribution typical of containers should be visible here.".to_string());
    push_line(&mut lines, String::new());
    assert(strings_view(lines@) =~= with_members + routing_middle());
    let ghost mid = strings_view(lines@);
    let n: usize = if histogram.len() < 25 {
        histogram.len()
    } else {
        25
    };
    let ghost rows = histogram@.take(n as int).map_values(|e: PatternHistogramEntry| histogram_line(e));
    let mut k: usize = 0;
    while k < n
        invariant
            k <= n <= histogram@.len(),
            n == (if histogram@.len() < 25 {
                histogram@.len()
            } else {
                25
            }),
            rows == histogram@.take(n as int).map_values(|e: PatternHistogramEntry| histogram_line(e)),
            strings_view(lines@) == mid + rows.take(k as int),
        decreases n - k,
    {
        let e = &histogram[k];
        let mut l = "- `".to_string();
        push_str(&mut l, e.pattern.as_str());
        push_str(&mut l, "` - ");
        push_decimal(&mut l, e.count);
        push_line(&mut lines, l);
        assert(rows[k as int] == histogram_line(histogram@[k as int]));
        assert(rows.take(k + 1) =~= rows.take(k as int).push(rows[k as int]));
        assert(strings_view(lines@) =~= mid + rows.take(k + 1));
        k = k + 1;
    }
    assert(rows.take(k as int) =~= rows);
    push_line(&mut lines, String::new());
    assert(strings_view(lines@) =~= routing_head(provenance@, *shape) + member_lines_view(members@) + routing_middle()
        + rows + seq![Seq::<char>::empty()]);
    join_strings(&lines, "\n")
}

} // verus!
