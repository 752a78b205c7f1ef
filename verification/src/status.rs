//! The status action: classifies working-tree changes into categories
//! and renders the comma-joined summary, with the ahead/behind
//! distances appended when an upstream is resolvable.

use vstd::prelude::*;

use crate::text::dec_str;
use crate::text::join_comma;
use crate::text::join_parts;
use crate::text::u64_to_string;

verus! {

/// One changed path's classification, as observed from the
/// repository's working tree: which change kinds apply to it. An
/// unchanged path has every flag clear and contributes nothing.
#[derive(Clone, Copy, PartialEq, Eq, Structural, Debug)]
pub struct EntryStatus {
    pub wt_new: bool,
    pub wt_deleted: bool,
    pub wt_renamed: bool,
    pub wt_typechange: bool,
    pub wt_modified: bool,
}

/// The status action for one repository, named by its path.
pub struct GitStatus {
    pub dir: String,
}

impl GitStatus {
    /// The display name: the repository path.
    pub fn get_name(&self) -> (s: String)
        ensures
            s@ == self.dir@,
    {
        self.dir.clone()
    }
}

pub open spec fn has_new(entries: Seq<EntryStatus>) -> bool {
    exists|k: int| 0 <= k < entries.len() && entries[k].wt_new
}

pub open spec fn has_deleted(entries: Seq<EntryStatus>) -> bool {
    exists|k: int| 0 <= k < entries.len() && entries[k].wt_deleted
}

pub open spec fn has_renamed(entries: Seq<EntryStatus>) -> bool {
    exists|k: int| 0 <= k < entries.len() && entries[k].wt_renamed
}

pub open spec fn has_typechange(entries: Seq<EntryStatus>) -> bool {
    exists|k: int| 0 <= k < entries.len() && entries[k].wt_typechange
}

pub open spec fn has_modified(entries: Seq<EntryStatus>) -> bool {
    exists|k: int| 0 <= k < entries.len() && entries[k].wt_modified
}

/// The ahead/behind summary parts: each distance is reported only
/// when it is nonzero.
pub open spec fn ahead_behind_parts(ahead: nat, behind: nat) -> Seq<Seq<char>> {
    (if ahead > 0 {
        seq![dec_str(ahead) + " ahead"@]
    } else {
        Seq::<Seq<char>>::empty()
    }) + (if behind > 0 {
        seq![dec_str(behind) + " behind"@]
    } else {
        Seq::<Seq<char>>::empty()
    })
}

/// The category labels present, each once and in sorted label order.
pub open spec fn category_labels_spec(
    deleted: bool,
    modified: bool,
    newf: bool,
    renamed: bool,
    typechange: bool,
) -> Seq<Seq<char>> {
    (if deleted {
        seq!["deletions"@]
    } else {
        Seq::<Seq<char>>::empty()
    }) + (if modified {
        seq!["modifications"@]
    } else {
        Seq::<Seq<char>>::empty()
    }) + (if newf {
        seq!["new files"@]
    } else {
        Seq::<Seq<char>>::empty()
    }) + (if renamed {
        seq!["renames"@]
    } else {
        Seq::<Seq<char>>::empty()
    }) + (if typechange {
        seq!["typechanges"@]
    } else {
        Seq::<Seq<char>>::empty()
    })
}

/// The summary parts: the category labels present, followed by the
/// ahead/behind parts.
pub open spec fn status_parts(entries: Seq<EntryStatus>, ahead: nat, behind: nat) -> Seq<
    Seq<char>,
> {
    category_labels_spec(
        has_deleted(entries),
        has_modified(entries),
        has_new(entries),
        has_renamed(entries),
        has_typechange(entries),
    ) + ahead_behind_parts(ahead, behind)
}

/// The summary line: the joined parts, or the no-changes sentinel when
/// nothing differs and the distances are zero.
pub open spec fn status_summary(entries: Seq<EntryStatus>, ahead: nat, behind: nat) -> Seq<
    char,
> {
    if status_parts(entries, ahead, behind).len() == 0 {
        "no changes"@
    } else {
        join_parts(status_parts(entries, ahead, behind))
    }
}

/// Builds the ahead/behind summary parts.
pub fn ahead_behind_vec(ahead: u64, behind: u64) -> (v: Vec<String>)
    ensures
        v.deep_view() =~= ahead_behind_parts(ahead as nat, behind as nat),
{
    proof {
        reveal_strlit(" ahead");
        reveal_strlit(" behind");
    }
    let mut v: Vec<String> = Vec::new();
    if ahead > 0 {
        v.push(u64_to_string(ahead).concat(" ahead"));
    }
    if behind > 0 {
        v.push(u64_to_string(behind).concat(" behind"));
    }
    proof {
        assert(v.deep_view() =~= ahead_behind_parts(ahead as nat, behind as nat));
    }
    v
}

/// Scans the observed entries once for the presence of each change
/// category.
fn scan_flags(entries: &Vec<EntryStatus>) -> (found: (bool, bool, bool, bool, bool))
    ensures
        found.0 == has_deleted(entries@),
        found.1 == has_modified(entries@),
        found.2 == has_new(entries@),
        found.3 == has_renamed(entries@),
        found.4 == has_typechange(entries@),
{
    let mut found_new = false;
    let mut found_deleted = false;
    let mut found_renamed = false;
    let mut found_typechange = false;
    let mut found_modified = false;
    let mut k: usize = 0;
    while k < entries.len()
        invariant
            k <= entries.len(),
            found_new == has_new(entries@.take(k as int)),
            found_deleted == has_deleted(entries@.take(k as int)),
            found_renamed == has_renamed(entries@.take(k as int)),
            found_typechange == has_typechange(entries@.take(k as int)),
            found_modified == has_modified(entries@.take(k as int)),
        decreases entries.len() - k,
    {
        let e = entries[k];
        found_new = found_new || e.wt_new;
        found_deleted = found_deleted || e.wt_deleted;
        found_renamed = found_renamed || e.wt_renamed;
        found_typechange = found_typechange || e.wt_typechange;
        found_modified = found_modified || e.wt_modified;
        proof {
            let pre = entries@.take(k as int);
            let post = entries@.take(k as int + 1);
            assert(pre =~= post.drop_last());
            assert(post.last() == entries@[k as int]);
            assert(forall|j: int| 0 <= j < pre.len() ==> post[j] == pre[j]);
            if found_new {
                if !has_new(pre) {
                    assert(post[k as int].wt_new);
                }
            } else {
                assert(!has_new(post)) by {
                    if has_new(post) {
                        let w = choose|w: int| 0 <= w < post.len() && post[w].wt_new;
                        if w < k {
                            assert(pre[w].wt_new);
                        }
                    }
                }
            }
            if found_deleted {
                if !has_deleted(pre) {
                    assert(post[k as int].wt_deleted);
                }
            } else {
                assert(!has_deleted(post)) by {
                    if has_deleted(post) {
                        let w = choose|w: int| 0 <= w < post.len() && post[w].wt_deleted;
                        if w < k {
                            assert(pre[w].wt_deleted);
                        }
                    }
                }
            }
            if found_renamed {
                if !has_renamed(pre) {
                    assert(post[k as int].wt_renamed);
                }
            } else {
                assert(!has_renamed(post)) by {
                    if has_renamed(post) {
                        let w = choose|w: int| 0 <= w < post.len() && post[w].wt_renamed;
                        if w < k {
                            assert(pre[w].wt_renamed);
                        }
                    }
                }
            }
            if found_typechange {
                if !has_typechange(pre) {
                    assert(post[k as int].wt_typechange);
                }
            } else {
                assert(!has_typechange(post)) by {
                    if has_typechange(post) {
                        let w = choose|w: int| 0 <= w < post.len() && post[w].wt_typechange;
                        if w < k {
                            assert(pre[w].wt_typechange);
                        }
                    }
                }
            }
            if found_modified {
                if !has_modified(pre) {
                    assert(post[k as int].wt_modified);
                }
            } else {
                assert(!has_modified(post)) by {
                    if has_modified(post) {
                        let w = choose|w: int| 0 <= w < post.len() && post[w].wt_modified;
                        if w < k {
                            assert(pre[w].wt_modified);
                        }
                    }
                }
            }
        }
        k += 1;
    }
    proof {
        assert(entries@.take(entries@.len() as int) =~= entries@);
    }
    (found_deleted, found_modified, found_new, found_renamed, found_typechange)
}

/// Builds the present category labels in sorted label order.
fn category_labels(
    deleted: bool,
    modified: bool,
    newf: bool,
    renamed: bool,
    typechange: bool,
) -> (v: Vec<String>)
    ensures
        v.deep_view() =~= category_labels_spec(deleted, modified, newf, renamed, typechange),
{
    let mut v: Vec<String> = Vec::new();
    let ghost mut expected: Seq<Seq<char>> = Seq::empty();
    proof {
        assert(v.deep_view() =~= expected);
    }
    if deleted {
        v.push(String::from_str("deletions"));
        proof {
            reveal_strlit("deletions");
            expected = expected.push("deletions"@);
            assert(v.deep_view() =~= expected);
        }
    }
    if modified {
        v.push(String::from_str("modifications"));
        proof {
            reveal_strlit("modifications");
            expected = expected.push("modifications"@);
            assert(v.deep_view() =~= expected);
        }
    }
    if newf {
        v.push(String::from_str("new files"));
        proof {
            reveal_strlit("new files");
            expected = expected.push("new files"@);
            assert(v.deep_view() =~= expected);
        }
    }
    if renamed {
        v.push(String::from_str("renames"));
        proof {
            reveal_strlit("renames");
            expected = expected.push("renames"@);
            assert(v.deep_view() =~= expected);
        }
    }
    if typechange {
        v.push(String::from_str("typechanges"));
        proof {
            reveal_strlit("typechanges");
            expected = expected.push("typechanges"@);
            assert(v.deep_view() =~= expected);
        }
    }
    proof {
        assert(expected =~= category_labels_spec(deleted, modified, newf, renamed, typechange));
    }
    v
}

impl GitStatus {
    /// Renders the status summary for the observed working-tree
    /// entries and ahead/behind distances: the present categories,
    /// deduplicated and sorted, then the nonzero distances, joined by
    /// commas — or the no-changes sentinel.
    pub fn summarize(&self, entries: &Vec<EntryStatus>, ahead: u64, behind: u64) -> (s: String)
        ensures
            s@ =~= status_summary(entries@, ahead as nat, behind as nat),
    {
        let (found_deleted, found_modified, found_new, found_renamed, found_typechange) =
            scan_flags(entries);
        let mut parts = category_labels(
            found_deleted,
            found_modified,
            found_new,
            found_renamed,
            found_typechange,
        );
        let mut tail = ahead_behind_vec(ahead, behind);
        let mut t: usize = 0;
        let ghost labels_view = parts.deep_view();
        let ghost tail_view = tail.deep_view();
        while t < tail.len()
            invariant
                t <= tail.len(),
                tail.deep_view() == tail_view,
                parts.deep_view() =~= labels_view + tail_view.take(t as int),
            decreases tail.len() - t,
        {
            let ghost before = parts.deep_view();
            parts.push(tail[t].clone());
            proof {
                assert(parts.deep_view() =~= before.push(tail_view[t as int]));
                assert(labels_view + tail_view.take(t as int + 1) =~= before.push(
                    tail_view[t as int],
                ));
            }
            t += 1;
        }
        proof {
            assert(tail_view.take(tail.len() as int) =~= tail_view);
            assert(parts.deep_view() =~= status_parts(entries@, ahead as nat, behind as nat));
        }
        if parts.len() == 0 {
            String::from_str("no changes")
        } else {
            join_comma(&parts)
        }
    }
}

/// Status is idempotent: two runs against an unmodified repository
/// observe the same entries and distances and so render the same
/// summary.
pub proof fn lemma_status_idempotent(
    first: Seq<EntryStatus>,
    second: Seq<EntryStatus>,
    ahead: nat,
    behind: nat,
)
    requires
        first == second,
    ensures
        status_summary(first, ahead, behind) == status_summary(second, ahead, behind),
{
}

/// A clean repository — no changed entries and zero ahead/behind
/// distance — reports the no-changes sentinel.
pub proof fn lemma_clean_repo_no_changes(entries: Seq<EntryStatus>)
    requires
        forall|k: int|
            0 <= k < entries.len() ==> {
                let e = #[trigger] entries[k];
                !e.wt_new && !e.wt_deleted && !e.wt_renamed && !e.wt_typechange && !e.wt_modified
            },
    ensures
        status_summary(entries, 0, 0) == "no changes"@,
{
    assert(status_parts(entries, 0, 0) =~= Seq::<Seq<char>>::empty());
}

} // verus!
