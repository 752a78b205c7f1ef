//! The branch-comparison action: for each local branch except the
//! designated main branch, report its ahead/behind distances against
//! the comparison ref; a branch that fails to resolve yields a
//! descriptive non-fatal line and leaves the other branches untouched.

use vstd::prelude::*;

use crate::status::ahead_behind_parts;
use crate::status::ahead_behind_vec;
use crate::text::join_comma;
use crate::text::join_parts;
use crate::text::str_eq;

verus! {

/// The branch-comparison action for one repository: its path and the
/// main branch that other branches are compared to (and which is
/// itself skipped).
pub struct GitBranches {
    pub repo_path: String,
    pub main_branch: String,
}

/// The report line for one branch: unresolvable branches get a
/// descriptive non-fatal line, resolvable ones their ahead/behind
/// distances.
pub open spec fn branch_report_spec(branch: Seq<char>, resolution: Option<(u64, u64)>) -> Seq<
    char,
> {
    match resolution {
        None => "No such branch "@ + branch + " found"@,
        Some((ahead, behind)) => "Branch "@ + branch + ": "@ + join_parts(
            ahead_behind_parts(ahead as nat, behind as nat),
        ),
    }
}

/// The report lines for a batch of (branch, resolution) pairs: one
/// line per branch, in order, skipping the main branch.
pub open spec fn branch_reports_spec(
    pairs: Seq<(Seq<char>, Option<(u64, u64)>)>,
    main: Seq<char>,
) -> Seq<Seq<char>>
    decreases pairs.len(),
{
    if pairs.len() == 0 {
        Seq::empty()
    } else {
        (if pairs.first().0 == main {
            Seq::<Seq<char>>::empty()
        } else {
            seq![branch_report_spec(pairs.first().0, pairs.first().1)]
        }) + branch_reports_spec(pairs.drop_first(), main)
    }
}

/// Reports distribute over splitting the batch.
pub proof fn lemma_branch_reports_concat(
    left: Seq<(Seq<char>, Option<(u64, u64)>)>,
    right: Seq<(Seq<char>, Option<(u64, u64)>)>,
    main: Seq<char>,
)
    ensures
        branch_reports_spec(left + right, main) =~= branch_reports_spec(left, main)
            + branch_reports_spec(right, main),
    decreases left.len(),
{
    if left.len() == 0 {
        assert(left + right =~= right);
    } else {
        lemma_branch_reports_concat(left.drop_first(), right, main);
        assert((left + right).first() == left.first());
        assert((left + right).drop_first() =~= left.drop_first() + right);
    }
}

/// The reports of a batch of one branch.
pub proof fn lemma_branch_reports_single(p: (Seq<char>, Option<(u64, u64)>), main: Seq<char>)
    ensures
        branch_reports_spec(seq![p], main) =~= (if p.0 == main {
            Seq::<Seq<char>>::empty()
        } else {
            seq![branch_report_spec(p.0, p.1)]
        }),
{
    let one = seq![p];
    assert(one.first() == p);
    assert(one.drop_first() =~= Seq::<(Seq<char>, Option<(u64, u64)>)>::empty());
    assert(branch_reports_spec(one.drop_first(), main) =~= Seq::<Seq<char>>::empty()) by {
        assert(one.drop_first().len() == 0);
    }
}

/// Renders the report line for one branch.
pub fn branch_report(branch: &str, resolution: Option<(u64, u64)>) -> (s: String)
    ensures
        s@ =~= branch_report_spec(branch@, resolution),
{
    match resolution {
        None => String::from_str("No such branch ").concat(branch).concat(" found"),
        Some((ahead, behind)) => {
            let parts = ahead_behind_vec(ahead, behind);
            let joined = join_comma(&parts);
            String::from_str("Branch ").concat(branch).concat(": ").concat(joined.as_str())
        },
    }
}

/// The (branch name, resolution) pairs the comparison works on.
pub open spec fn pair_seq(
    branches: Seq<Seq<char>>,
    resolutions: Seq<Option<(u64, u64)>>,
) -> Seq<(Seq<char>, Option<(u64, u64)>)> {
    Seq::new(branches.len(), |i: int| (branches[i], resolutions[i]))
}

impl GitBranches {
    /// The display name: the repository path.
    pub fn get_name(&self) -> (s: String)
        ensures
            s@ == self.repo_path@,
    {
        self.repo_path.clone()
    }

    /// Reports every branch but the designated main branch, each from
    /// its own resolution alone, in order.
    pub fn compare_branches(
        &self,
        branches: &Vec<String>,
        resolutions: &Vec<Option<(u64, u64)>>,
    ) -> (reports: Vec<String>)
        requires
            branches@.len() == resolutions@.len(),
        ensures
            reports.deep_view() =~= branch_reports_spec(
                pair_seq(branches.deep_view(), resolutions@),
                self.main_branch@,
            ),
    {
        let ghost pairs = pair_seq(branches.deep_view(), resolutions@);
        let mut reports: Vec<String> = Vec::new();
        let mut i: usize = 0;
        while i < branches.len()
            invariant
                branches@.len() == resolutions@.len(),
                pairs == pair_seq(branches.deep_view(), resolutions@),
                pairs.len() == branches@.len(),
                i <= branches.len(),
                reports.deep_view() =~= branch_reports_spec(
                    pairs.take(i as int),
                    self.main_branch@,
                ),
            decreases branches.len() - i,
        {
            let ghost before = reports.deep_view();
            if !str_eq(branches[i].as_str(), self.main_branch.as_str()) {
                reports.push(branch_report(branches[i].as_str(), resolutions[i]));
            }
            proof {
                let head = pairs.take(i as int);
                let one = seq![pairs[i as int]];
                assert(pairs.take(i as int + 1) =~= head + one);
                lemma_branch_reports_concat(head, one, self.main_branch@);
                lemma_branch_reports_single(pairs[i as int], self.main_branch@);
                assert(pairs[i as int].0 == branches@[i as int]@);
                if branches@[i as int]@ == self.main_branch@ {
                    assert(reports.deep_view() =~= branch_reports_spec(
                        pairs.take(i as int + 1),
                        self.main_branch@,
                    ));
                } else {
                    assert(reports.deep_view() =~= before.push(
                        branch_report_spec(pairs[i as int].0, pairs[i as int].1),
                    ));
                    assert(reports.deep_view() =~= branch_reports_spec(
                        pairs.take(i as int + 1),
                        self.main_branch@,
                    ));
                }
            }
            i += 1;
        }
        proof {
            assert(pairs.take(branches@.len() as int) =~= pairs);
        }
        reports
    }
}

/// A branch that fails to resolve affects its own line only: with the
/// same branch names, changing one branch's resolution leaves the
/// number of report lines and every other line unchanged.
pub proof fn lemma_branch_isolation(
    before: Seq<(Seq<char>, Option<(u64, u64)>)>,
    after: Seq<(Seq<char>, Option<(u64, u64)>)>,
    main: Seq<char>,
    k: int,
)
    requires
        before.len() == after.len(),
        0 <= k < before.len(),
        before[k].0 == after[k].0,
        forall|j: int| 0 <= j < before.len() && j != k ==> before[j] == after[j],
    ensures
        branch_reports_spec(before, main).len() == branch_reports_spec(after, main).len(),
        forall|i: int|
            0 <= i < branch_reports_spec(before, main).len() && i != branch_reports_spec(
                before.take(k),
                main,
            ).len() ==> branch_reports_spec(before, main)[i] == branch_reports_spec(
                after,
                main,
            )[i],
{
    let b_head = before.take(k);
    let b_mid = seq![before[k]];
    let b_tail = before.skip(k + 1);
    let a_head = after.take(k);
    let a_mid = seq![after[k]];
    let a_tail = after.skip(k + 1);
    assert(b_head =~= a_head);
    assert(b_tail =~= a_tail);
    assert(before =~= b_head + b_mid + b_tail);
    assert(after =~= a_head + a_mid + a_tail);
    lemma_branch_reports_concat(b_head + b_mid, b_tail, main);
    lemma_branch_reports_concat(b_head, b_mid, main);
    lemma_branch_reports_concat(a_head + a_mid, a_tail, main);
    lemma_branch_reports_concat(a_head, a_mid, main);
    lemma_branch_reports_single(before[k], main);
    lemma_branch_reports_single(after[k], main);
    let rb = branch_reports_spec(before, main);
    let ra = branch_reports_spec(after, main);
    let rh = branch_reports_spec(b_head, main);
    let rbm = branch_reports_spec(b_mid, main);
    let ram = branch_reports_spec(a_mid, main);
    let rt = branch_reports_spec(b_tail, main);
    assert(rb =~= rh + rbm + rt);
    assert(ra =~= rh + ram + rt);
    assert(rbm.len() == ram.len());
    assert forall|i: int| 0 <= i < rb.len() && i != rh.len() implies rb[i] == ra[i] by {
        if i < rh.len() {
            assert(rb[i] == rh[i]);
            assert(ra[i] == rh[i]);
        } else {
            assert(i > rh.len() || rbm.len() == 0);
            if i < rh.len() + rbm.len() {
            } else {
                assert(rb[i] == rt[i - rh.len() - rbm.len()]);
                assert(ra[i] == rt[i - rh.len() - ram.len()]);
            }
        }
    }
}

} // verus!
