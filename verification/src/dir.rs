//! Directory scanner: the ignore-pattern and hidden-entry filter with
//! subtree pruning, verified over an in-memory model of the walked
//! tree. The real filesystem walk feeds each visited entry's name,
//! normalized path and depth through the same filter decision.

use vstd::prelude::*;

use crate::pattern::regex_is_match;
use crate::pattern::regex_pattern;
use crate::text::str_eq;

verus! {

/// Filter configuration for the walk: an ordered list of compiled
/// ignore patterns plus the hidden-entry policy. When `filter_hidden`
/// is set, entries below the root whose name begins with the hidden
/// marker are excluded together with their subtrees.
pub struct DirectoryTreeOptions {
    pub filter_list: Vec<regex::Regex>,
    pub filter_hidden: bool,
}

/// A name is hidden when it begins with the hidden-file marker.
pub open spec fn hidden_name(name: Seq<char>) -> bool {
    name.len() > 0 && name[0] == '.'
}

/// Some pattern of the ignore list matches `path`.
pub open spec fn matches_any(patterns: Seq<Seq<char>>, path: Seq<char>) -> bool {
    exists|k: int| 0 <= k < patterns.len() && crate::pattern::regex_match(patterns[k], path)
}

/// The filter decision for one visited entry (`true` keeps the entry,
/// `false` excludes it and prunes its subtree): hidden names are kept
/// only at the root or when hidden filtering is off, and every entry's
/// normalized path must escape the whole ignore list.
pub open spec fn keep_spec(
    patterns: Seq<Seq<char>>,
    filter_hidden: bool,
    name: Seq<char>,
    path: Seq<char>,
    at_root: bool,
) -> bool {
    (at_root || !filter_hidden || !hidden_name(name)) && !matches_any(patterns, path)
}

impl DirectoryTreeOptions {
    /// The pattern texts of the compiled ignore list.
    pub open spec fn patterns(&self) -> Seq<Seq<char>> {
        self.filter_list@.map_values(|re: regex::Regex| regex_pattern(re))
    }

    /// The hidden-entry part of the decision: an entry below the root
    /// whose name begins with the hidden marker is not kept.
    pub fn is_not_hidden(&self, name: &str, depth: usize) -> (r: bool)
        ensures
            r == (depth == 0 || !hidden_name(name@)),
    {
        if depth == 0 {
            true
        } else if name.unicode_len() == 0 {
            true
        } else {
            name.get_char(0) != '.'
        }
    }

    /// The full per-entry decision; `true` keeps the entry, `false`
    /// excludes it and its whole subtree. `path` is the entry's
    /// normalized path and `depth` its distance from the walk root.
    pub fn should_filter(&self, name: &str, path: &str, depth: usize) -> (r: bool)
        ensures
            r == keep_spec(self.patterns(), self.filter_hidden, name@, path@, depth == 0),
    {
        if self.filter_hidden && !self.is_not_hidden(name, depth) {
            return false;
        }
        let mut k: usize = 0;
        while k < self.filter_list.len()
            invariant
                k <= self.filter_list.len(),
                forall|k0: int|
                    0 <= k0 < k ==> !crate::pattern::regex_match(
                        #[trigger] self.patterns()[k0],
                        path@,
                    ),
            decreases self.filter_list.len() - k,
        {
            if regex_is_match(&self.filter_list[k], path) {
                proof {
                    assert(crate::pattern::regex_match(self.patterns()[k as int], path@));
                }
                return false;
            }
            k += 1;
        }
        true
    }
}

/// An in-memory directory entry: the model over which the scanner's
/// pruning walk is verified. Names are path segments: nonempty and
/// free of the separator.
pub struct FsEntry {
    pub name: String,
    pub children: Vec<FsEntry>,
}

/// Well-formed tree: every name is a nonempty segment without a
/// separator.
pub open spec fn wf_entry(e: FsEntry) -> bool
    decreases e,
{
    &&& e.name@.len() > 0
    &&& (forall|j: int| 0 <= j < e.name@.len() ==> e.name@[j] != '/')
    &&& (forall|i: int| 0 <= i < e.children@.len() ==> wf_entry(#[trigger] e.children@[i]))
}

/// A child's path: the parent's path extended with the separator. The
/// empty root path stands for the walk root itself and adds none.
pub open spec fn join_path(base: Seq<char>, name: Seq<char>) -> Seq<char> {
    if base.len() == 0 {
        name
    } else {
        base + seq!['/'] + name
    }
}

/// The paths the scanner yields for the subtree rooted at `e`, whose
/// own path is `path`: nothing when the entry is excluded (the whole
/// subtree is pruned), else the entry's path followed by its kept
/// descendants in preorder.
pub open spec fn walk_spec(
    patterns: Seq<Seq<char>>,
    filter_hidden: bool,
    e: FsEntry,
    path: Seq<char>,
    at_root: bool,
) -> Seq<Seq<char>>
    decreases e, e.children@.len() + 1,
{
    if !keep_spec(patterns, filter_hidden, e.name@, path, at_root) {
        Seq::empty()
    } else {
        seq![path] + walk_children(patterns, filter_hidden, e, 0, path)
    }
}

/// The yielded paths of the children of `e` from child `i` on.
pub open spec fn walk_children(
    patterns: Seq<Seq<char>>,
    filter_hidden: bool,
    e: FsEntry,
    i: int,
    path: Seq<char>,
) -> Seq<Seq<char>>
    decreases e, e.children@.len() - i,
{
    if i < 0 || i >= e.children@.len() {
        Seq::empty()
    } else {
        walk_spec(
            patterns,
            filter_hidden,
            e.children@[i],
            join_path(path, e.children@[i].name@),
            false,
        ) + walk_children(patterns, filter_hidden, e, i + 1, path)
    }
}

fn join_path_exec(base: &str, name: &str) -> (r: String)
    ensures
        r@ =~= join_path(base@, name@),
{
    proof {
        reveal_strlit("/");
    }
    if base.unicode_len() == 0 {
        String::from_str(name)
    } else {
        String::from_str(base).concat("/").concat(name)
    }
}

impl DirectoryTreeOptions {
    /// Walks the modeled tree rooted at `entry`, whose own normalized
    /// path is `root_path`, and yields the paths of the kept entries
    /// in preorder; an excluded entry prunes its whole subtree.
    pub fn process_directories(&self, entry: &FsEntry, root_path: &str) -> (out: Vec<String>)
        ensures
            out.deep_view() =~= walk_spec(
                self.patterns(),
                self.filter_hidden,
                *entry,
                root_path@,
                true,
            ),
    {
        let mut out: Vec<String> = Vec::new();
        let root = String::from_str(root_path);
        self.walk_rec(entry, &root, true, &mut out);
        out
    }

    fn walk_rec(&self, e: &FsEntry, path: &String, at_root: bool, out: &mut Vec<String>)
        ensures
            final(out).deep_view() =~= old(out).deep_view() + walk_spec(
                self.patterns(),
                self.filter_hidden,
                *e,
                path@,
                at_root,
            ),
        decreases *e,
    {
        let ghost patterns = self.patterns();
        let ghost fh = self.filter_hidden;
        let keep = self.should_filter(
            e.name.as_str(),
            path.as_str(),
            if at_root {
                0
            } else {
                1
            },
        );
        if !keep {
            proof {
                assert(out.deep_view() =~= old(out).deep_view() + Seq::<Seq<char>>::empty());
            }
            return ;
        }
        out.push(path.clone());
        let ghost after_push = out.deep_view();
        proof {
            assert(after_push =~= old(out).deep_view() + seq![path@]);
        }
        let mut i: usize = 0;
        while i < e.children.len()
            invariant
                patterns == self.patterns(),
                fh == self.filter_hidden,
                keep_spec(patterns, fh, e.name@, path@, at_root),
                i <= e.children.len(),
                out.deep_view() + walk_children(patterns, fh, *e, i as int, path@) =~= after_push
                    + walk_children(patterns, fh, *e, 0, path@),
            decreases e.children.len() - i,
        {
            let ghost before = out.deep_view();
            let child = &e.children[i];
            let cpath = join_path_exec(path.as_str(), child.name.as_str());
            proof {
                assert(decreases_to!(*e => e.children@[i as int]));
            }
            self.walk_rec(child, &cpath, false, out);
            proof {
                let cw = walk_spec(patterns, fh, e.children@[i as int], cpath@, false);
                assert(walk_children(patterns, fh, *e, i as int, path@) =~= cw + walk_children(
                    patterns,
                    fh,
                    *e,
                    i as int + 1,
                    path@,
                ));
                assert(out.deep_view() + walk_children(patterns, fh, *e, i as int + 1, path@)
                    =~= after_push + walk_children(patterns, fh, *e, 0, path@));
            }
            i += 1;
        }
        proof {
            assert(walk_children(patterns, fh, *e, e.children@.len() as int, path@)
                =~= Seq::<Seq<char>>::empty());
            assert(out.deep_view() =~= after_push + walk_children(patterns, fh, *e, 0, path@));
            assert(out.deep_view() =~= old(out).deep_view() + walk_spec(
                patterns,
                fh,
                *e,
                path@,
                at_root,
            ));
        }
    }
}

/// Every ancestor boundary of `p` below the walk root satisfies the
/// filter: no prefix of `p` ending at a separator matches an ignore
/// pattern, and, when hidden entries are filtered, no segment of `p`
/// below the root begins with the hidden marker.
pub open spec fn ancestors_ok(
    patterns: Seq<Seq<char>>,
    filter_hidden: bool,
    root: Seq<char>,
    p: Seq<char>,
) -> bool {
    &&& (forall|n: int|
        root.len() <= n < p.len() && #[trigger] p[n] == '/' ==> !matches_any(patterns, p.take(n)))
    &&& (filter_hidden ==> forall|n: int|
        root.len() <= n < p.len() - 1 && #[trigger] p[n] == '/' ==> p[n + 1] != '.')
    &&& (filter_hidden && root.len() == 0 && p.len() > 0 ==> p[0] != '.')
}

/// The subtree-pruning law of the scanner: every path the walk yields
/// escapes the whole ignore list, and so does every ancestor of it
/// below the walk root; when hidden entries are filtered, no yielded
/// path has a hidden segment below the root.
pub proof fn lemma_scan_prunes(
    patterns: Seq<Seq<char>>,
    filter_hidden: bool,
    e: FsEntry,
    root: Seq<char>,
)
    requires
        wf_entry(e),
    ensures
        forall|q: Seq<char>|
            #[trigger] walk_spec(patterns, filter_hidden, e, root, true).contains(q) ==> (
            !matches_any(patterns, q) && ancestors_ok(patterns, filter_hidden, root, q)),
{
    lemma_walk_filtered(patterns, filter_hidden, e, root, root, true);
}

/// The subtree below an excluded path is pruned whole: no descendant
/// of a path that matches an ignore pattern is ever yielded.
pub proof fn lemma_excluded_descendants_absent(
    patterns: Seq<Seq<char>>,
    filter_hidden: bool,
    e: FsEntry,
    root: Seq<char>,
    bad: Seq<char>,
    q: Seq<char>,
)
    requires
        wf_entry(e),
        matches_any(patterns, bad),
        root.len() <= bad.len(),
        bad.len() < q.len(),
        q.take(bad.len() as int) == bad,
        q[bad.len() as int] == '/',
    ensures
        !walk_spec(patterns, filter_hidden, e, root, true).contains(q),
{
    if walk_spec(patterns, filter_hidden, e, root, true).contains(q) {
        lemma_scan_prunes(patterns, filter_hidden, e, root);
        assert(ancestors_ok(patterns, filter_hidden, root, q));
        assert(!matches_any(patterns, q.take(bad.len() as int)));
    }
}

proof fn lemma_walk_filtered(
    patterns: Seq<Seq<char>>,
    filter_hidden: bool,
    e: FsEntry,
    root: Seq<char>,
    path: Seq<char>,
    at_root: bool,
)
    requires
        wf_entry(e),
        root.len() <= path.len(),
        ancestors_ok(patterns, filter_hidden, root, path),
    ensures
        forall|q: Seq<char>|
            #[trigger] walk_spec(patterns, filter_hidden, e, path, at_root).contains(q) ==> (
            !matches_any(patterns, q) && ancestors_ok(patterns, filter_hidden, root, q)),
    decreases e, e.children@.len() + 1,
{
    if keep_spec(patterns, filter_hidden, e.name@, path, at_root) {
        lemma_walk_children_filtered(patterns, filter_hidden, e, root, path, 0);
        let w = walk_spec(patterns, filter_hidden, e, path, at_root);
        assert forall|q: Seq<char>| #[trigger] w.contains(q) implies (!matches_any(patterns, q)
            && ancestors_ok(patterns, filter_hidden, root, q)) by {
            let idx = choose|idx: int| 0 <= idx < w.len() && w[idx] == q;
            if idx == 0 {
                assert(q == path);
            } else {
                let wc = walk_children(patterns, filter_hidden, e, 0, path);
                assert(wc[idx - 1] == q);
                assert(wc.contains(q));
            }
        }
    }
}

proof fn lemma_walk_children_filtered(
    patterns: Seq<Seq<char>>,
    filter_hidden: bool,
    e: FsEntry,
    root: Seq<char>,
    path: Seq<char>,
    i: int,
)
    requires
        wf_entry(e),
        root.len() <= path.len(),
        ancestors_ok(patterns, filter_hidden, root, path),
        !matches_any(patterns, path),
    ensures
        forall|q: Seq<char>|
            #[trigger] walk_children(patterns, filter_hidden, e, i, path).contains(q) ==> (
            !matches_any(patterns, q) && ancestors_ok(patterns, filter_hidden, root, q)),
    decreases e, e.children@.len() - i,
{
    if 0 <= i < e.children@.len() {
        let c = e.children@[i];
        let cpath = join_path(path, c.name@);
        assert(wf_entry(c));
        if keep_spec(patterns, filter_hidden, c.name@, cpath, false) {
            lemma_join_ancestors_ok(patterns, filter_hidden, root, path, c.name@);
            lemma_walk_filtered(patterns, filter_hidden, c, root, cpath, false);
        } else {
            assert(walk_spec(patterns, filter_hidden, c, cpath, false)
                =~= Seq::<Seq<char>>::empty());
        }
        lemma_walk_children_filtered(patterns, filter_hidden, e, root, path, i + 1);
        let cw = walk_spec(patterns, filter_hidden, c, cpath, false);
        let rest = walk_children(patterns, filter_hidden, e, i + 1, path);
        let whole = walk_children(patterns, filter_hidden, e, i, path);
        assert forall|q: Seq<char>| #[trigger] whole.contains(q) implies (!matches_any(
            patterns,
            q,
        ) && ancestors_ok(patterns, filter_hidden, root, q)) by {
            let idx = choose|idx: int| 0 <= idx < whole.len() && whole[idx] == q;
            if idx < cw.len() {
                assert(cw[idx] == q);
                assert(cw.contains(q));
            } else {
                assert(rest[idx - cw.len()] == q);
                assert(rest.contains(q));
            }
        }
    }
}

/// Extending a path whose ancestors all pass the filter with one kept
/// segment keeps every ancestor boundary of the longer path passing.
proof fn lemma_join_ancestors_ok(
    patterns: Seq<Seq<char>>,
    filter_hidden: bool,
    root: Seq<char>,
    path: Seq<char>,
    name: Seq<char>,
)
    requires
        root.len() <= path.len(),
        ancestors_ok(patterns, filter_hidden, root, path),
        !matches_any(patterns, path),
        name.len() > 0,
        forall|j: int| 0 <= j < name.len() ==> name[j] != '/',
        filter_hidden ==> !hidden_name(name),
    ensures
        ancestors_ok(patterns, filter_hidden, root, join_path(path, name)),
{
    let p = join_path(path, name);
    if path.len() == 0 {
        assert(p == name);
        assert forall|n: int|
            root.len() <= n < p.len() && #[trigger] p[n] == '/' implies !matches_any(
            patterns,
            p.take(n),
        ) by {
            assert(name[n] != '/');
        }
    } else {
        assert(p =~= path + seq!['/'] + name);
        assert forall|n: int|
            root.len() <= n < p.len() && #[trigger] p[n] == '/' implies !matches_any(
            patterns,
            p.take(n),
        ) by {
            if n < path.len() {
                assert(p[n] == path[n]);
                assert(p.take(n) =~= path.take(n));
            } else if n == path.len() {
                assert(p.take(n) =~= path);
            } else {
                assert(p[n] == name[n - path.len() - 1]);
                assert(name[n - path.len() - 1] != '/');
            }
        }
        if filter_hidden {
            assert forall|n: int|
                root.len() <= n < p.len() - 1 && #[trigger] p[n] == '/' implies p[n + 1] != '.' by {
                if n < path.len() - 1 {
                    assert(p[n] == path[n]);
                    assert(p[n + 1] == path[n + 1]);
                } else if n == path.len() - 1 {
                    assert(p[n] == path[n]);
                } else if n == path.len() {
                    assert(p[n + 1] == name[0]);
                } else {
                    assert(p[n] == name[n - path.len() - 1]);
                    assert(name[n - path.len() - 1] != '/');
                }
            }
            if root.len() == 0 && p.len() > 0 {
                assert(p[0] == path[0]);
            }
        }
    }
}

/// Whether `p` ends with `suffix`.
pub open spec fn ends_with(p: Seq<char>, suffix: Seq<char>) -> bool {
    p.len() >= suffix.len() && p.subrange(p.len() - suffix.len(), p.len() as int) == suffix
}

/// Finds the repository root that a yielded entry stands for: an entry
/// whose name is the version-control marker directory marks its parent
/// as a repository.
pub fn repo_root(path: &str) -> (r: Option<String>)
    ensures
        path@ =~= ".git"@ ==> (r matches Some(p) && p@ =~= Seq::<char>::empty()),
        path@ != ".git"@ && ends_with(path@, "/.git"@) ==> (r matches Some(p) && p@ =~= path@.take(
            path@.len() - 5,
        )),
        path@ != ".git"@ && !ends_with(path@, "/.git"@) ==> r is None,
{
    proof {
        reveal_strlit(".git");
        reveal_strlit("/.git");
    }
    if str_eq(path, ".git") {
        return Some(String::new());
    }
    let len = path.unicode_len();
    if len < 5 {
        proof {
            assert(!ends_with(path@, "/.git"@));
        }
        return None;
    }
    let tail = path.substring_char(len - 5, len);
    if str_eq(tail, "/.git") {
        proof {
            assert(ends_with(path@, "/.git"@));
        }
        let parent = path.substring_char(0, len - 5);
        proof {
            assert(parent@ =~= path@.take(path@.len() - 5));
        }
        Some(parent.to_owned())
    } else {
        proof {
            assert(!ends_with(path@, "/.git"@));
        }
        None
    }
}

} // verus!
