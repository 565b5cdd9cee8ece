//! Module chains of declarations: the module path a source file contributes,
//! the visibility index of declared modules, and the public declaration
//! candidates of the API channel.

use vstd::prelude::*;
use indexmap::IndexMap;
use crate::assoc::{first_value, lemma_first_value_prefix, lemma_first_value_push, lemma_first_value_step, lemma_first_value_update};
use crate::crate_map::{crate_entries, crate_get};
use crate::emit_text::{is_src_file, src_file_view};
use crate::fingerprint::CrateInfo;
use crate::lexical::{
    slice_vec, split_exec, split_seq, strip_suffix_all, strip_suffix_all_exec, chars_eq,
};
use crate::resolution::strings_view;
use crate::text::{chars_of, occurs_at_exec, starts_with, ends_with, str_eq, string_of, push_str};

verus! {

/// `s` with every `\` replaced by `/`.
pub open spec fn forward_slashes(s: Seq<char>) -> Seq<char> {
    s.map_values(|c: char| if c == '\\' { '/' } else { c })
}

/// The pieces of `s` between `::` separators; none for an empty `s`.
pub open spec fn split_chain_view(s: Seq<char>) -> Seq<Seq<char>> {
    if s.len() == 0 {
        Seq::empty()
    } else {
        split_seq(s, seq![':', ':'])
    }
}

/// Splits a `::`-separated module path into its segments (none for an empty
/// path).
pub fn split_chain(s: &str) -> (r: Vec<String>)
    ensures
        strings_view(r@) == split_chain_view(s@),
{
    if s.is_empty() {
        let r: Vec<String> = Vec::new();
        assert(strings_view(r@) =~= Seq::<Seq<char>>::empty());
        return r;
    }
    let cs = chars_of(s);
    let sep = vec![':', ':'];
    assert(sep@ =~= seq![':', ':']);
    let pieces = split_exec(&cs, &sep);
    let mut r: Vec<String> = Vec::new();
    let ghost ps = pieces@.map_values(|v: Vec<char>| v@);
    let mut i: usize = 0;
    while i < pieces.len()
        invariant
            i <= pieces@.len(),
            ps == pieces@.map_values(|v: Vec<char>| v@),
            strings_view(r@) == ps.take(i as int),
        decreases pieces@.len() - i,
    {
        let ghost r0 = strings_view(r@);
        r.push(string_of(&pieces[i]));
        assert(strings_view(r@) =~= r0.push(ps[i as int]));
        assert(strings_view(r@) =~= ps.take(i + 1));
        i = i + 1;
    }
    assert(ps.take(i as int) =~= ps);
    r
}

/// The module chain a source file of a crate at `dir` contributes: the path
/// below the crate's `src/`, without `.rs`, split at `/`; `lib.rs`,
/// `main.rs` and `bin/` files are the crate root (an empty chain), and a
/// trailing `mod` segment names its directory. `None` for files outside the
/// crate's `src/` or not ending in `.rs`.
pub open spec fn module_chain_view(dir: Seq<char>, file: Seq<char>) -> Option<Seq<Seq<char>>> {
    let norm = forward_slashes(file);
    let prefix = strip_suffix_all(dir, seq!['/']).push('/');
    let rel: Option<Seq<char>> = if dir == seq!['.'] || dir.len() == 0 {
        Some(norm)
    } else if starts_with(norm, prefix) {
        Some(norm.skip(prefix.len() as int))
    } else {
        None
    };
    match rel {
        None => None,
        Some(rel) => if !starts_with(rel, "src/"@) {
            None
        } else {
            let rest = rel.skip(4);
            if !ends_with(rest, ".rs"@) {
                None
            } else {
                let segs = split_seq(rest.take(rest.len() - 3), seq!['/']);
                if segs.len() == 1 && (segs[0] == "lib"@ || segs[0] == "main"@) {
                    Some(Seq::empty())
                } else if segs.len() > 0 && segs[0] == "bin"@ {
                    Some(Seq::empty())
                } else if segs.len() > 0 && segs.last() == "mod"@ {
                    Some(segs.drop_last())
                } else {
                    Some(segs)
                }
            }
        },
    }
}

pub(crate) fn forward_slashes_exec(s: &str) -> (r: Vec<char>)
    ensures
        r@ == forward_slashes(s@),
{
    let cs = chars_of(s);
    let mut r: Vec<char> = Vec::new();
    let mut i: usize = 0;
    while i < cs.len()
        invariant
            i <= cs@.len(),
            cs@ == s@,
            r@ == forward_slashes(s@).take(i as int),
        decreases cs@.len() - i,
    {
        if cs[i] == '\\' {
            r.push('/');
        } else {
            r.push(cs[i]);
        }
        assert(r@ =~= forward_slashes(s@).take(i + 1));
        i = i + 1;
    }
    assert(forward_slashes(s@).take(i as int) =~= forward_slashes(s@));
    r
}

/// The module chain a file of the crate at `crate_dir` contributes.
pub fn file_module_chain(crate_dir: &str, file: &str) -> (r: Option<Vec<String>>)
    ensures
        (match r {
            Some(v) => Some(strings_view(v@)),
            None => None,
        }) == module_chain_view(crate_dir@, file@),
{
    proof {
        reveal_strlit("src/");
        reveal_strlit(".rs");
        reveal_strlit("lib");
        reveal_strlit("main");
        reveal_strlit("bin");
        reveal_strlit("mod");
        reveal_strlit(".");
    }
    assert("."@ =~= seq!['.']);
    let norm = forward_slashes_exec(file);
    let dir = chars_of(crate_dir);
    let slash = vec!['/'];
    assert(slash@ =~= seq!['/']);
    let rel: Vec<char> = if str_eq(crate_dir, ".") || crate_dir.is_empty() {
        norm
    } else {
        let mut prefix = strip_suffix_all_exec(&dir, &slash);
        prefix.push('/');
        if !occurs_at_exec(&norm, &prefix, 0) {
            return None;
        }
        let r = slice_vec(&norm, prefix.len(), norm.len());
        assert(r@ =~= norm@.skip(prefix@.len() as int));
        r
    };
    let src = vec!['s', 'r', 'c', '/'];
    assert(src@ =~= "src/"@);
    if !occurs_at_exec(&rel, &src, 0) {
        return None;
    }
    let rest = slice_vec(&rel, 4, rel.len());
    assert(rest@ =~= rel@.skip(4));
    let dot_rs = vec!['.', 'r', 's'];
    assert(dot_rs@ =~= ".rs"@);
    if rest.len() < 3 || !occurs_at_exec(&rest, &dot_rs, rest.len() - 3) {
        return None;
    }
    let stem = slice_vec(&rest, 0, rest.len() - 3);
    assert(stem@ =~= rest@.take(rest@.len() - 3));
    let pieces = split_exec(&stem, &slash);
    let ghost ps = pieces@.map_values(|v: Vec<char>| v@);
    let lib = vec!['l', 'i', 'b'];
    let main_seg = vec!['m', 'a', 'i', 'n'];
    let bin = vec!['b', 'i', 'n'];
    let mod_seg = vec!['m', 'o', 'd'];
    assert(lib@ =~= "lib"@);
    assert(main_seg@ =~= "main"@);
    assert(bin@ =~= "bin"@);
    assert(mod_seg@ =~= "mod"@);
    assert(ps.len() == pieces@.len());
    assert(pieces@.len() > 0 ==> ps[0] == pieces@[0]@);
    assert(pieces@.len() > 0 ==> ps.last() == pieces@[pieces@.len() - 1]@);
    if pieces.len() == 1 && (chars_eq(&pieces[0], &lib) || chars_eq(&pieces[0], &main_seg)) {
        let e: Vec<String> = Vec::new();
        assert(strings_view(e@) =~= Seq::<Seq<char>>::empty());
        return Some(e);
    }
    if pieces.len() > 0 && chars_eq(&pieces[0], &bin) {
        let e: Vec<String> = Vec::new();
        assert(strings_view(e@) =~= Seq::<Seq<char>>::empty());
        return Some(e);
    }
    let mut n = pieces.len();
    if n > 0 && chars_eq(&pieces[n - 1], &mod_seg) {
        n = n - 1;
    }
    let mut out: Vec<String> = Vec::new();
    let mut i: usize = 0;
    while i < n
        invariant
            i <= n <= pieces@.len(),
            ps == pieces@.map_values(|v: Vec<char>| v@),
            strings_view(out@) == ps.take(i as int),
        decreases n - i,
    {
        let ghost o0 = strings_view(out@);
        out.push(string_of(&pieces[i]));
        assert(strings_view(out@) =~= o0.push(ps[i as int]));
        assert(strings_view(out@) =~= ps.take(i + 1));
        i = i + 1;
    }
    assert(ps.take(n as int) =~= (if n < pieces@.len() {
        ps.drop_last()
    } else {
        ps
    }));
    Some(out)
}

/// `parts` joined with `sep` between consecutive parts.
pub open spec fn join_view(parts: Seq<Seq<char>>, sep: Seq<char>) -> Seq<char>
    decreases parts.len(),
{
    if parts.len() == 0 {
        Seq::empty()
    } else if parts.len() == 1 {
        parts[0]
    } else {
        join_view(parts.drop_last(), sep) + sep + parts.last()
    }
}

/// `parts` joined with `::`.
pub open spec fn colon_join(parts: Seq<Seq<char>>) -> Seq<char> {
    join_view(parts, seq![':', ':'])
}

/// The first `n` parts joined with `::`.
pub fn join_chain(parts: &Vec<String>, n: usize) -> (r: String)
    requires
        n <= parts@.len(),
    ensures
        r@ == join_view(strings_view(parts@).take(n as int), seq![':', ':']),
{
    let ghost ps = strings_view(parts@);
    let mut r = String::new();
    let mut i: usize = 0;
    assert(r@ =~= join_view(ps.take(0), seq![':', ':']));
    while i < n
        invariant
            i <= n <= parts@.len(),
            ps == strings_view(parts@),
            r@ == join_view(ps.take(i as int), seq![':', ':']),
        decreases n - i,
    {
        if i > 0 {
            push_str(&mut r, "::");
            proof {
                reveal_strlit("::");
            }
        }
        let ghost before = r@;
        push_str(&mut r, parts[i].as_str());
        assert(ps.take(i + 1).drop_last() =~= ps.take(i as int));
        proof {
            if i == 0 {
                assert(r@ =~= ps.take(1)[0]);
            } else {
                assert(r@ =~= join_view(ps.take(i as int), seq![':', ':']) + seq![':', ':'] + ps[i as int]);
            }
        }
        i = i + 1;
    }
    r
}

/// One declaration fact as the item walker records it: its name, crate,
/// file, inline module path, visibility and whether it is `#[doc(hidden)]`
/// (absent fields stay `None`).
#[derive(Debug, Clone)]
pub struct DeclFact {
    pub name: Option<String>,
    pub krate: Option<String>,
    pub file: Option<String>,
    pub mod_path: Option<String>,
    pub visibility: Option<String>,
    pub doc_hidden: bool,
}

/// The visibility of declared modules, keyed by (crate, `::`-joined chain):
/// whether some declaration is `pub` and whether every declaration is
/// hidden.
#[derive(Debug, Clone)]
pub struct ModIndex {
    pub vis: Vec<((String, String), (bool, bool))>,
}

/// The views of a visibility list.
pub open spec fn vis_view(v: Seq<((String, String), (bool, bool))>) -> Seq<((Seq<char>, Seq<char>), (bool, bool))> {
    v.map_values(|e: ((String, String), (bool, bool))| ((e.0.0@, e.0.1@), e.1))
}

/// The module key a module declaration fact indexes, when its crate is
/// known and its file lies in that crate's `src/`.
pub open spec fn mod_key(fact: DeclFact, crates: Seq<(Seq<char>, CrateInfo)>) -> Option<(Seq<char>, Seq<char>)> {
    match (fact.name, fact.krate, fact.file) {
        (Some(name), Some(krate), Some(file)) => match first_value(crates, krate@) {
            Some(info) => match module_chain_view(info.dir@, file@) {
                Some(fchain) => {
                    let inline = match fact.mod_path {
                        Some(m) => m@,
                        None => Seq::empty(),
                    };
                    Some((krate@, join_view(fchain + split_chain_view(inline) + seq![name@], seq![':', ':'])))
                },
                None => None,
            },
            None => None,
        },
        _ => None,
    }
}

/// Whether a declaration's visibility is `pub`.
pub open spec fn fact_is_pub(fact: DeclFact) -> bool {
    match fact.visibility {
        Some(v) => v@ == "pub"@,
        None => false,
    }
}

/// Some module declaration fact indexes `key`.
pub open spec fn key_declared(facts: Seq<DeclFact>, crates: Seq<(Seq<char>, CrateInfo)>, key: (Seq<char>, Seq<char>)) -> bool {
    exists|i: int| 0 <= i < facts.len() && mod_key(#[trigger] facts[i], crates) == Some(key)
}

/// Some declaration of `key` is `pub`.
pub open spec fn key_pub(facts: Seq<DeclFact>, crates: Seq<(Seq<char>, CrateInfo)>, key: (Seq<char>, Seq<char>)) -> bool {
    exists|i: int| 0 <= i < facts.len() && mod_key(#[trigger] facts[i], crates) == Some(key) && fact_is_pub(facts[i])
}

/// Every declaration of `key` is hidden.
pub open spec fn key_hidden(facts: Seq<DeclFact>, crates: Seq<(Seq<char>, CrateInfo)>, key: (Seq<char>, Seq<char>)) -> bool {
    forall|i: int| 0 <= i < facts.len() && mod_key(#[trigger] facts[i], crates) == Some(key) ==> facts[i].doc_hidden
}

/// The visibility the index records for `key`: `pub` when any declaration
/// is, hidden when every declaration is; `None` when no module declaration
/// has that key.
pub open spec fn mod_vis_view(facts: Seq<DeclFact>, crates: Seq<(Seq<char>, CrateInfo)>, key: (Seq<char>, Seq<char>)) -> Option<(bool, bool)> {
    if key_declared(facts, crates, key) {
        Some((key_pub(facts, crates, key), key_hidden(facts, crates, key)))
    } else {
        None
    }
}

fn extend_chain(dst: &mut Vec<String>, src: &Vec<String>)
    ensures
        strings_view(final(dst)@) == strings_view(old(dst)@) + strings_view(src@),
{
    let ghost start = strings_view(dst@);
    let mut i: usize = 0;
    while i < src.len()
        invariant
            i <= src@.len(),
            strings_view(dst@) == start + strings_view(src@).take(i as int),
        decreases src@.len() - i,
    {
        let ghost d0 = strings_view(dst@);
        dst.push(src[i].clone());
        assert(strings_view(dst@) =~= d0.push(strings_view(src@)[i as int]));
        assert(strings_view(dst@) =~= start + strings_view(src@).take(i + 1));
        i = i + 1;
    }
    assert(strings_view(src@).take(i as int) =~= strings_view(src@));
}

/// The module chain of a declaration (its file's chain, then its inline
/// module path) when its crate is known and its file lies in the crate's
/// `src/`.
pub open spec fn decl_chain(fact: DeclFact, crates: Seq<(Seq<char>, CrateInfo)>) -> Option<Seq<Seq<char>>> {
    match (fact.krate, fact.file) {
        (Some(krate), Some(file)) => match first_value(crates, krate@) {
            Some(info) => match module_chain_view(info.dir@, file@) {
                Some(fchain) => Some(fchain + split_chain_view(
                    match fact.mod_path {
                        Some(m) => m@,
                        None => Seq::empty(),
                    },
                )),
                None => None,
            },
            None => None,
        },
        _ => None,
    }
}

fn decl_chain_exec(fact: &DeclFact, crates: &IndexMap<String, CrateInfo>) -> (r: Option<Vec<String>>)
    ensures
        (match r {
            Some(v) => Some(strings_view(v@)),
            None => None,
        }) == decl_chain(*fact, crate_entries(*crates)),
{
    let krate = match &fact.krate {
        Some(k) => k,
        None => return None,
    };
    let file = match &fact.file {
        Some(f) => f,
        None => return None,
    };
    let info = match crate_get(crates, krate.as_str()) {
        Some(i) => i,
        None => return None,
    };
    let mut chain = match file_module_chain(info.dir.as_str(), file.as_str()) {
        Some(c) => c,
        None => return None,
    };
    match &fact.mod_path {
        Some(m) => {
            let inner = split_chain(m.as_str());
            extend_chain(&mut chain, &inner);
        },
        None => {
            assert(split_chain_view(Seq::<char>::empty()) =~= Seq::<Seq<char>>::empty());
            assert(strings_view(chain@) + Seq::<Seq<char>>::empty() =~= strings_view(chain@));
        },
    }
    Some(chain)
}

/// The (crate, chain) key a module declaration indexes.
pub open spec fn mod_key_of(fact: DeclFact, crates: Seq<(Seq<char>, CrateInfo)>) -> Option<(Seq<char>, Seq<char>)> {
    match (fact.name, fact.krate, decl_chain(fact, crates)) {
        (Some(name), Some(krate), Some(chain)) => Some((krate@, join_view(chain.push(name@), seq![':', ':']))),
        _ => None,
    }
}

proof fn lemma_mod_key_agrees(fact: DeclFact, crates: Seq<(Seq<char>, CrateInfo)>)
    ensures
        mod_key_of(fact, crates) == mod_key(fact, crates),
{
    match (fact.name, fact.krate, fact.file) {
        (Some(name), Some(krate), Some(file)) => {
            match first_value(crates, krate@) {
                Some(info) => {
                    match module_chain_view(info.dir@, file@) {
                        Some(fchain) => {
                            let inline = match fact.mod_path {
                                Some(m) => m@,
                                None => Seq::empty(),
                            };
                            assert((fchain + split_chain_view(inline)).push(name@) =~= fchain + split_chain_view(inline) + seq![name@]);
                        },
                        None => {},
                    }
                },
                None => {},
            }
        },
        _ => {},
    }
}

fn mod_key_exec(fact: &DeclFact, crates: &IndexMap<String, CrateInfo>) -> (r: Option<(String, String)>)
    ensures
        (match r {
            Some(k) => Some((k.0@, k.1@)),
            None => None,
        }) == mod_key(*fact, crate_entries(*crates)),
{
    proof {
        lemma_mod_key_agrees(*fact, crate_entries(*crates));
    }
    let name = match &fact.name {
        Some(n) => n,
        None => return None,
    };
    let krate = match &fact.krate {
        Some(k) => k,
        None => return None,
    };
    let mut chain = match decl_chain_exec(fact, crates) {
        Some(c) => c,
        None => return None,
    };
    let ghost c0 = strings_view(chain@);
    chain.push(name.clone());
    assert(strings_view(chain@) =~= c0.push(name@));
    let n = chain.len();
    let key = join_chain(&chain, n);
    assert(strings_view(chain@).take(n as int) =~= strings_view(chain@));
    Some((krate.clone(), key))
}

fn vis_index(vis: &Vec<((String, String), (bool, bool))>, krate: &str, chain_key: &str) -> (r: Option<usize>)
    ensures
        r matches Some(i) ==> i < vis@.len() && vis_view(vis@)[i as int].0 == (krate@, chain_key@) && first_value(
            vis_view(vis@).take(i as int),
            (krate@, chain_key@),
        ) is None,
        r matches Some(i) ==> first_value(vis_view(vis@), (krate@, chain_key@)) == Some(vis@[i as int].1),
        r is None ==> first_value(vis_view(vis@), (krate@, chain_key@)) is None,
{
    let ghost s = vis_view(vis@);
    let mut i: usize = 0;
    while i < vis.len()
        invariant
            i <= vis@.len(),
            s == vis_view(vis@),
            first_value(s.take(i as int), (krate@, chain_key@)) is None,
        decreases vis@.len() - i,
    {
        proof {
            lemma_first_value_step(s, i as int, (krate@, chain_key@));
        }
        if str_eq(vis[i].0.0.as_str(), krate) && str_eq(vis[i].0.1.as_str(), chain_key) {
            proof {
                lemma_first_value_prefix(s, i + 1, (krate@, chain_key@));
            }
            return Some(i);
        }
        i = i + 1;
    }
    assert(s.take(i as int) =~= s);
    None
}

proof fn lemma_mod_vis_step(facts: Seq<DeclFact>, crates: Seq<(Seq<char>, CrateInfo)>, i: int, key: (Seq<char>, Seq<char>))
    requires
        0 <= i < facts.len(),
    ensures
        key_declared(facts.take(i + 1), crates, key) == (key_declared(facts.take(i), crates, key) || mod_key(facts[i], crates) == Some(key)),
        key_pub(facts.take(i + 1), crates, key) == (key_pub(facts.take(i), crates, key) || (mod_key(facts[i], crates) == Some(key) && fact_is_pub(facts[i]))),
        key_hidden(facts.take(i + 1), crates, key) == (key_hidden(facts.take(i), crates, key) && (mod_key(facts[i], crates) == Some(key) ==> facts[i].doc_hidden)),
{
    let a = facts.take(i);
    let b = facts.take(i + 1);
    assert forall|k: int| 0 <= k < i implies b[k] == a[k] by {}
    assert(b[i] == facts[i]);
    if key_declared(a, crates, key) {
        let k = choose|k: int| 0 <= k < a.len() && mod_key(#[trigger] a[k], crates) == Some(key);
        assert(b[k] == a[k]);
    }
    if key_pub(a, crates, key) {
        let k = choose|k: int| 0 <= k < a.len() && mod_key(#[trigger] a[k], crates) == Some(key) && fact_is_pub(a[k]);
        assert(b[k] == a[k]);
    }
    if key_declared(b, crates, key) && mod_key(facts[i], crates) != Some(key) {
        let k = choose|k: int| 0 <= k < b.len() && mod_key(#[trigger] b[k], crates) == Some(key);
        assert(a[k] == b[k]);
    }
    if key_pub(b, crates, key) && !(mod_key(facts[i], crates) == Some(key) && fact_is_pub(facts[i])) {
        let k = choose|k: int| 0 <= k < b.len() && mod_key(#[trigger] b[k], crates) == Some(key) && fact_is_pub(b[k]);
        assert(a[k] == b[k]);
    }
    if !key_hidden(a, crates, key) {
        let k = choose|k: int| !(0 <= k < a.len() && mod_key(#[trigger] a[k], crates) == Some(key) ==> a[k].doc_hidden);
        assert(b[k] == a[k]);
    }
    if !key_hidden(b, crates, key) && (mod_key(facts[i], crates) == Some(key) ==> facts[i].doc_hidden) {
        let k = choose|k: int| !(0 <= k < b.len() && mod_key(#[trigger] b[k], crates) == Some(key) ==> b[k].doc_hidden);
        assert(a[k] == b[k]);
    }
}

impl ModIndex {
    /// Indexes module declarations by (crate, chain) where the crate is
    /// known and the file lies in its `src/`: a key is `pub` when any of its
    /// declarations is, hidden when all of them are.
    pub fn build(facts: &Vec<DeclFact>, crates: &IndexMap<String, CrateInfo>) -> (r: Self)
        ensures
            forall|key: (Seq<char>, Seq<char>)|
                #[trigger] first_value(vis_view(r.vis@), key) == mod_vis_view(facts@, crate_entries(*crates), key),
    {
        let ghost cs = crate_entries(*crates);
        let mut vis: Vec<((String, String), (bool, bool))> = Vec::new();
        let mut i: usize = 0;
        while i < facts.len()
            invariant
                i <= facts@.len(),
                cs == crate_entries(*crates),
                forall|key: (Seq<char>, Seq<char>)|
                    #[trigger] first_value(vis_view(vis@), key) == mod_vis_view(facts@.take(i as int), cs, key),
            decreases facts@.len() - i,
        {
            let ghost before = vis_view(vis@);
            let f = &facts[i];
            let is_pub = match &f.visibility {
                Some(v) => str_eq(v.as_str(), "pub"),
                None => false,
            };
            assert(is_pub == fact_is_pub(*f));
            match mod_key_exec(f, crates) {
                None => {
                    assert forall|key: (Seq<char>, Seq<char>)|
                        #[trigger] first_value(vis_view(vis@), key) == mod_vis_view(facts@.take(i + 1), cs, key) by {
                        lemma_mod_vis_step(facts@, cs, i as int, key);
                    }
                },
                Some(key0) => {
                    let ghost k0 = (key0.0@, key0.1@);
                    match vis_index(&vis, key0.0.as_str(), key0.1.as_str()) {
                        Some(j) => {
                            let (p, h) = vis[j].1;
                            let entry = (key0, (p || is_pub, h && f.doc_hidden));
                            let ghost nv = (p || is_pub, h && f.doc_hidden);
                            vis.set(j, entry);
                            assert(vis_view(vis@) =~= before.update(j as int, (k0, nv)));
                            assert forall|key: (Seq<char>, Seq<char>)|
                                #[trigger] first_value(vis_view(vis@), key) == mod_vis_view(facts@.take(i + 1), cs, key) by {
                                lemma_mod_vis_step(facts@, cs, i as int, key);
                                lemma_first_value_update(before, j as int, k0, nv, key);
                            }
                        },
                        None => {
                            let entry = (key0, (is_pub, f.doc_hidden));
                            let ghost nv = (is_pub, f.doc_hidden);
                            vis.push(entry);
                            assert(vis_view(vis@) =~= before.push((k0, nv)));
                            assert forall|key: (Seq<char>, Seq<char>)|
                                #[trigger] first_value(vis_view(vis@), key) == mod_vis_view(facts@.take(i + 1), cs, key) by {
                                lemma_mod_vis_step(facts@, cs, i as int, key);
                                lemma_first_value_push(before, (k0, nv), key);
                            }
                        },
                    }
                },
            }
            i = i + 1;
        }
        assert(facts@.take(i as int) =~= facts@);
        ModIndex { vis }
    }

    /// Whether every module along `chain` (each prefix of it) is declared
    /// `pub` and not hidden in `krate`.
    pub fn chain_public(&self, krate: &str, chain: &Vec<String>) -> (r: bool)
        ensures
            r == forall|i: int|
                1 <= i <= chain@.len() ==> first_value(
                    vis_view(self.vis@),
                    (krate@, #[trigger] colon_join(strings_view(chain@).take(i))),
                ) == Some((true, false)),
    {
        let mut k: usize = 0;
        while k < chain.len()
            invariant
                k <= chain@.len(),
                forall|m: int|
                    1 <= m <= k ==> first_value(
                        vis_view(self.vis@),
                        (krate@, #[trigger] colon_join(strings_view(chain@).take(m))),
                    ) == Some((true, false)),
            decreases chain@.len() - k,
        {
            let key = join_chain(chain, k + 1);
            assert(key@ == colon_join(strings_view(chain@).take(k + 1)));
            match vis_index(&self.vis, krate, key.as_str()) {
                Some(j) => {
                    let (p, h) = self.vis[j].1;
                    if !(p && !h) {
                        return false;
                    }
                },
                None => {
                    return false;
                },
            }
            k = k + 1;
        }
        true
    }

    /// The recorded visibility of the module at `chain` in `krate`.
    pub fn vis_of(&self, krate: &str, chain: &Vec<String>) -> (r: Option<(bool, bool)>)
        ensures
            r == first_value(vis_view(self.vis@), (krate@, colon_join(strings_view(chain@)))),
    {
        let n = chain.len();
        let key = join_chain(chain, n);
        assert(strings_view(chain@).take(n as int) =~= strings_view(chain@));
        match vis_index(&self.vis, krate, key.as_str()) {
            Some(j) => Some(self.vis[j].1),
            None => None,
        }
    }
}

/// The (crate, name) a module-level declaration counts under: facts with a
/// module path, a name and a crate.
pub open spec fn name_key(f: DeclFact) -> Option<(Seq<char>, Seq<char>)> {
    match (f.mod_path, f.name, f.krate) {
        (Some(_), Some(n), Some(k)) => Some((k@, n@)),
        _ => None,
    }
}

/// How many of `fs` count under `key`.
pub open spec fn name_key_count(fs: Seq<DeclFact>, key: (Seq<char>, Seq<char>)) -> nat
    decreases fs.len(),
{
    if fs.len() == 0 {
        0
    } else {
        name_key_count(fs.drop_last(), key) + if name_key(fs.last()) == Some(key) {
            1nat
        } else {
            0nat
        }
    }
}

/// All facts of a list of fact lists, in order.
pub open spec fn flatten_facts(ls: Seq<Vec<DeclFact>>) -> Seq<DeclFact>
    decreases ls.len(),
{
    if ls.len() == 0 {
        Seq::empty()
    } else {
        flatten_facts(ls.drop_last()) + ls.last()@
    }
}

/// The count stored for `key` (zero when absent).
pub open spec fn count_of(s: Seq<((Seq<char>, Seq<char>), nat)>, key: (Seq<char>, Seq<char>)) -> nat {
    match first_value(s, key) {
        Some(n) => n,
        None => 0,
    }
}

/// The views of a list of keyed counts.
pub open spec fn counts_view(v: Seq<((String, String), usize)>) -> Seq<((Seq<char>, Seq<char>), nat)> {
    v.map_values(|e: ((String, String), usize)| ((e.0.0@, e.0.1@), e.1 as nat))
}

proof fn lemma_count_le_len(fs: Seq<DeclFact>, key: (Seq<char>, Seq<char>))
    ensures
        name_key_count(fs, key) <= fs.len(),
    decreases fs.len(),
{
    if fs.len() > 0 {
        lemma_count_le_len(fs.drop_last(), key);
    }
}

fn count_index(v: &Vec<((String, String), usize)>, krate: &str, name: &str) -> (r: Option<usize>)
    ensures
        r matches Some(i) ==> i < v@.len() && counts_view(v@)[i as int].0 == (krate@, name@) && first_value(
            counts_view(v@).take(i as int),
            (krate@, name@),
        ) is None,
        r is None ==> first_value(counts_view(v@), (krate@, name@)) is None,
{
    let ghost s = counts_view(v@);
    let mut i: usize = 0;
    while i < v.len()
        invariant
            i <= v@.len(),
            s == counts_view(v@),
            first_value(s.take(i as int), (krate@, name@)) is None,
        decreases v@.len() - i,
    {
        proof {
            lemma_first_value_step(s, i as int, (krate@, name@));
        }
        if str_eq(v[i].0.0.as_str(), krate) && str_eq(v[i].0.1.as_str(), name) {
            return Some(i);
        }
        i = i + 1;
    }
    assert(s.take(i as int) =~= s);
    None
}

/// Counts module-level declarations per (crate, name) over all the lists.
pub fn module_level_name_counts(lists: &Vec<Vec<DeclFact>>) -> (r: Vec<((String, String), usize)>)
    requires
        flatten_facts(lists@).len() <= usize::MAX,
    ensures
        forall|key: (Seq<char>, Seq<char>)|
            #[trigger] count_of(counts_view(r@), key) == name_key_count(flatten_facts(lists@), key),
{
    let mut counts: Vec<((String, String), usize)> = Vec::new();
    let ghost all = flatten_facts(lists@);
    let mut a: usize = 0;
    let ghost mut done: Seq<DeclFact> = Seq::empty();
    assert(flatten_facts(lists@.take(0)) =~= done);
    while a < lists.len()
        invariant
            a <= lists@.len(),
            all == flatten_facts(lists@),
            all.len() <= usize::MAX,
            done == flatten_facts(lists@.take(a as int)),
            forall|key: (Seq<char>, Seq<char>)| #[trigger] count_of(counts_view(counts@), key) == name_key_count(done, key),
        decreases lists@.len() - a,
    {
        let fs = &lists[a];
        proof {
            assert(lists@.take(a + 1).drop_last() =~= lists@.take(a as int));
            assert(flatten_facts(lists@.take(a + 1)) == done + fs@);
            lemma_flatten_prefix_len(lists@, a + 1);
        }
        let mut b: usize = 0;
        let ghost base = done;
        while b < fs.len()
            invariant
                b <= fs@.len(),
                fs@ == lists@[a as int]@,
                all.len() <= usize::MAX,
                base + fs@ == flatten_facts(lists@.take(a + 1)),
                flatten_facts(lists@.take(a + 1)).len() <= all.len(),
                done == base + fs@.take(b as int),
                forall|key: (Seq<char>, Seq<char>)| #[trigger] count_of(counts_view(counts@), key) == name_key_count(done, key),
            decreases fs@.len() - b,
        {
            let f = &fs[b];
            let ghost d1 = done.push(fs@[b as int]);
            assert(base + fs@.take(b + 1) =~= d1);
            assert(d1.drop_last() =~= done);
            assert(d1.last() == fs@[b as int]);
            assert(forall|key: (Seq<char>, Seq<char>)| #[trigger] name_key_count(d1, key) == name_key_count(done, key) + if name_key(fs@[b as int]) == Some(key) {
                1nat
            } else {
                0nat
            });
            match (&f.mod_path, &f.name, &f.krate) {
                (Some(_), Some(n), Some(k)) => {
                    let ghost key0 = (k@, n@);
                    let ghost before = counts_view(counts@);
                    proof {
                        lemma_count_le_len(d1, key0);
                        assert(d1.len() <= all.len());
                    }
                    match count_index(&counts, k.as_str(), n.as_str()) {
                        Some(j) => {
                            proof {
                                lemma_first_value_step(before, j as int, key0);
                                lemma_first_value_prefix(before, j + 1, key0);
                            }
                            let c = counts[j].1;
                            assert(before[j as int] == (key0, c as nat));
                            assert(count_of(before, key0) == c);
                            assert(name_key(fs@[b as int]) == Some(key0));
                            assert(name_key_count(d1, key0) == c + 1);
                            let kk = (counts[j].0.0.clone(), counts[j].0.1.clone());
                            counts.set(j, (kk, c + 1));
                            assert(counts_view(counts@) =~= before.update(j as int, (key0, (c + 1) as nat)));
                            assert forall|key: (Seq<char>, Seq<char>)| #[trigger] count_of(counts_view(counts@), key) == name_key_count(d1, key) by {
                                lemma_first_value_update(before, j as int, key0, (c + 1) as nat, key);
                                assert(count_of(before, key) == name_key_count(done, key));
                            }
                        },
                        None => {
                            assert(name_key(fs@[b as int]) == Some(key0));
                            assert(count_of(before, key0) == 0);
                            counts.push(((k.clone(), n.clone()), 1));
                            assert(counts_view(counts@) =~= before.push((key0, 1nat)));
                            assert forall|key: (Seq<char>, Seq<char>)| #[trigger] count_of(counts_view(counts@), key) == name_key_count(d1, key) by {
                                lemma_first_value_push(before, (key0, 1nat), key);
                                assert(count_of(before, key) == name_key_count(done, key));
                            }
                        },
                    }
                },
                _ => {
                    assert forall|key: (Seq<char>, Seq<char>)| #[trigger] count_of(counts_view(counts@), key) == name_key_count(d1, key) by {}
                },
            }
            proof {
                done = d1;
            }
            b = b + 1;
        }
        assert(fs@.take(b as int) =~= fs@);
        a = a + 1;
    }
    assert(lists@.take(a as int) =~= lists@);
    counts
}

proof fn lemma_flatten_prefix_len(ls: Seq<Vec<DeclFact>>, n: int)
    requires
        0 <= n <= ls.len(),
    ensures
        flatten_facts(ls.take(n)).len() <= flatten_facts(ls).len(),
    decreases ls.len(),
{
    if n == ls.len() {
        assert(ls.take(n) =~= ls);
    } else {
        assert(ls.drop_last().take(n) =~= ls.take(n));
        lemma_flatten_prefix_len(ls.drop_last(), n);
    }
}

/// Every module along `chain` is declared `pub` and not hidden in `krate`.
pub open spec fn chain_public_view(
    vis: Seq<((Seq<char>, Seq<char>), (bool, bool))>,
    krate: Seq<char>,
    chain: Seq<Seq<char>>,
) -> bool {
    forall|i: int| 1 <= i <= chain.len() ==> first_value(vis, (krate, #[trigger] colon_join(chain.take(i)))) == Some((true, false))
}

/// A public declaration that may mint an API key: its crate, name, module
/// chain, and whether that chain is public all the way down.
#[derive(Debug, Clone)]
pub struct DeclCandidate {
    pub krate: String,
    pub name: String,
    pub chain: Vec<String>,
    pub hard_public: bool,
}

/// The candidate a declaration row yields: a `pub`, non-hidden declaration
/// with a module path in a source file of a known crate (and, when
/// `exclude_main`, not named `main`).
pub open spec fn decl_candidate(
    f: DeclFact,
    crates: Seq<(Seq<char>, CrateInfo)>,
    vis: Seq<((Seq<char>, Seq<char>), (bool, bool))>,
    exclude_main: bool,
) -> Option<(Seq<char>, Seq<char>, Seq<Seq<char>>, bool)> {
    match (f.name, f.krate, f.file, f.mod_path) {
        (Some(name), Some(krate), Some(file), Some(_)) => if !fact_is_pub(f) || f.doc_hidden || (exclude_main
            && name@ == "main"@) || !src_file_view(file@) {
            None
        } else {
            match decl_chain(f, crates) {
                Some(chain) => Some((krate@, name@, chain, chain_public_view(vis, krate@, chain))),
                None => None,
            }
        },
        _ => None,
    }
}

/// The candidates of a list of declaration rows, in order.
pub open spec fn decl_candidates(
    rows: Seq<DeclFact>,
    crates: Seq<(Seq<char>, CrateInfo)>,
    vis: Seq<((Seq<char>, Seq<char>), (bool, bool))>,
    exclude_main: bool,
) -> Seq<(Seq<char>, Seq<char>, Seq<Seq<char>>, bool)>
    decreases rows.len(),
{
    if rows.len() == 0 {
        Seq::empty()
    } else {
        let prev = decl_candidates(rows.drop_last(), crates, vis, exclude_main);
        match decl_candidate(rows.last(), crates, vis, exclude_main) {
            Some(c) => prev.push(c),
            None => prev,
        }
    }
}

/// The views of a list of candidates.
pub open spec fn candidates_view(v: Seq<DeclCandidate>) -> Seq<(Seq<char>, Seq<char>, Seq<Seq<char>>, bool)> {
    v.map_values(|c: DeclCandidate| (c.krate@, c.name@, strings_view(c.chain@), c.hard_public))
}

/// Collects the public declaration candidates of a list of rows.
pub fn collect_decl_rows(
    rows: &Vec<DeclFact>,
    crates: &IndexMap<String, CrateInfo>,
    mods: &ModIndex,
    exclude_main: bool,
) -> (r: Vec<DeclCandidate>)
    ensures
        candidates_view(r@) == decl_candidates(rows@, crate_entries(*crates), vis_view(mods.vis@), exclude_main),
{
    let ghost cs = crate_entries(*crates);
    let ghost vis = vis_view(mods.vis@);
    let mut out: Vec<DeclCandidate> = Vec::new();
    let mut i: usize = 0;
    assert(candidates_view(out@) =~= decl_candidates(rows@.take(0), cs, vis, exclude_main));
    while i < rows.len()
        invariant
            i <= rows@.len(),
            cs == crate_entries(*crates),
            vis == vis_view(mods.vis@),
            candidates_view(out@) == decl_candidates(rows@.take(i as int), cs, vis, exclude_main),
        decreases rows@.len() - i,
    {
        let f = &rows[i];
        assert(rows@.take(i + 1).drop_last() =~= rows@.take(i as int));
        assert(rows@.take(i + 1).last() == *f);
        proof {
            reveal_strlit("main");
        }
        match (&f.name, &f.krate, &f.file, &f.mod_path) {
            (Some(name), Some(krate), Some(file), Some(_)) => {
                let is_pub = match &f.visibility {
                    Some(v) => str_eq(v.as_str(), "pub"),
                    None => false,
                };
                if is_pub && !f.doc_hidden && !(exclude_main && str_eq(name.as_str(), "main")) && is_src_file(file.as_str()) {
                    match decl_chain_exec(f, crates) {
                        Some(chain) => {
                            let hard_public = mods.chain_public(krate.as_str(), &chain);
                            let ghost before = candidates_view(out@);
                            let ghost cv = strings_view(chain@);
                            out.push(DeclCandidate { krate: krate.clone(), name: name.clone(), chain, hard_public });
                            assert(candidates_view(out@) =~= before.push((krate@, name@, cv, hard_public)));
                        },
                        None => {},
                    }
                }
            },
            _ => {},
        }
        i = i + 1;
    }
    assert(rows@.take(i as int) =~= rows@);
    out
}

} // verus!
