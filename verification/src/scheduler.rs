use vstd::prelude::*;

use crate::judge::{FullResult, Verdict};
use crate::manifest::{
    Group, GroupView, lemma_sum_le, lemma_sum_nonneg, lemma_sum_prefix_le, spec_groups_wf,
    spec_sum,
};

verus! {

/// The per-submission scheduling state: the groups and, for each, the
/// lowest-numbered failing test observed so far, if any.
#[derive(Debug)]
pub struct Scheduler {
    pub groups: Vec<Group>,
    pub blocked: Vec<Option<usize>>,
}

/// Mathematical image of a `Scheduler`.
pub ghost struct SchedulerView {
    pub groups: Seq<GroupView>,
    pub blocked: Seq<Option<usize>>,
}

impl View for Scheduler {
    type V = SchedulerView;

    open spec fn view(&self) -> SchedulerView {
        SchedulerView {
            groups: self.groups@.map_values(|g: Group| g@),
            blocked: self.blocked@,
        }
    }
}

impl SchedulerView {
    /// One blocked entry per group, over well-formed groups.
    pub open spec fn wf(&self) -> bool {
        &&& spec_groups_wf(self.groups)
        &&& self.blocked.len() == self.groups.len()
    }
}

/// Whether group `gid`'s next test may be spawned: the group is unblocked and
/// every dependency is unblocked.
pub open spec fn spec_should_spawn(s: SchedulerView, gid: int) -> bool {
    &&& s.blocked[gid] is None
    &&& forall|j: int|
        0 <= j < s.groups[gid].depends.len() ==> s.blocked[#[trigger] s.groups[gid].depends[j] as int]
            is None
}

/// The state after one test's outcome lands: a success changes nothing; a
/// failure blocks the test's group at the lowest failing test seen.
pub open spec fn spec_record(s: SchedulerView, gid: int, test_number: usize, verdict: Verdict) -> SchedulerView {
    if verdict == Verdict::Accepted {
        s
    } else {
        let entry = match s.blocked[gid] {
            Some(k) => if k < test_number {
                Some(k)
            } else {
                Some(test_number)
            },
            None => Some(test_number),
        };
        SchedulerView { blocked: s.blocked.update(gid, entry), ..s }
    }
}

/// The state after the spawn decision for one test of group `gid`: a group
/// already blocked stays as it is; one with a failed dependency is blocked at
/// this test; one free to run is untouched.
pub open spec fn spec_plan(s: SchedulerView, gid: int, test_number: usize) -> SchedulerView {
    if s.blocked[gid] is Some {
        s
    } else if spec_should_spawn(s, gid) {
        s
    } else {
        SchedulerView { blocked: s.blocked.update(gid, Some(test_number)), ..s }
    }
}

/// Each group's awarded score: its cost where nothing in it failed, else zero.
pub open spec fn spec_groups_score(s: SchedulerView) -> Seq<u64> {
    Seq::new(
        s.groups.len(),
        |i: int|
            if s.blocked[i] is None {
                s.groups[i].cost
            } else {
                0u64
            },
    )
}

impl Scheduler {
    /// A fresh state over `groups`: nothing blocked yet.
    pub fn new(groups: Vec<Group>) -> (r: Scheduler)
        requires
            spec_groups_wf(groups@.map_values(|g: Group| g@)),
        ensures
            r@.wf(),
            r@.groups == groups@.map_values(|g: Group| g@),
            forall|i: int| 0 <= i < r@.blocked.len() ==> r@.blocked[i] is None,
    {
        let n = groups.len();
        let mut blocked: Vec<Option<usize>> = Vec::new();
        let mut i: usize = 0;
        while i < n
            invariant
                0 <= i <= n,
                blocked@.len() == i,
                forall|k: int| 0 <= k < i ==> blocked@[k] is None,
            decreases n - i,
        {
            blocked.push(None);
            i = i + 1;
        }
        Scheduler { groups, blocked }
    }

    /// Whether group `gid`'s next test may start now.
    pub fn should_spawn(&self, gid: usize) -> (r: bool)
        requires
            self@.wf(),
            gid < self@.groups.len(),
        ensures
            r == spec_should_spawn(self@, gid as int),
    {
        if self.blocked[gid].is_some() {
            return false;
        }
        let deps = &self.groups[gid].depends;
        let nd = deps.len();
        let mut j: usize = 0;
        proof {
            assert(self@.groups[gid as int] == self.groups@[gid as int]@);
        }
        while j < nd
            invariant
                self@.wf(),
                gid < self@.groups.len(),
                nd == deps@.len(),
                deps@ == self@.groups[gid as int].depends,
                0 <= j <= nd,
                forall|l: int|
                    0 <= l < j ==> self@.blocked[#[trigger] self@.groups[gid as int].depends[l] as int]
                        is None,
            decreases nd - j,
        {
            let d = deps[j];
            proof {
                assert(self@.groups[gid as int].depends[j as int] < self@.groups.len());
            }
            if self.blocked[d].is_some() {
                return false;
            }
            j = j + 1;
        }
        true
    }

    /// Decides whether a test may start, and commits the decision: a group
    /// whose dependency has failed is itself blocked at this test, so that it
    /// never scores.
    pub fn plan(&mut self, gid: usize, test_number: usize) -> (r: bool)
        requires
            old(self)@.wf(),
            gid < old(self)@.groups.len(),
        ensures
            r == spec_should_spawn(old(self)@, gid as int),
            final(self)@ == spec_plan(old(self)@, gid as int, test_number),
            final(self)@.wf(),
    {
        if self.blocked[gid].is_some() {
            return false;
        }
        let spawn = self.should_spawn(gid);
        if !spawn {
            self.blocked.set(gid, Some(test_number));
            proof {
                assert(self@.blocked =~= old(self)@.blocked.update(
                    gid as int,
                    Some(test_number),
                ));
            }
        }
        spawn
    }

    /// Folds one test's outcome in. A failure blocks the group at the lowest
    /// failing test number seen so far.
    pub fn record(&mut self, gid: usize, test_number: usize, verdict: Verdict)
        requires
            old(self)@.wf(),
            gid < old(self)@.groups.len(),
        ensures
            final(self)@ == spec_record(old(self)@, gid as int, test_number, verdict),
            final(self)@.wf(),
    {
        if !verdict.is_success() {
            let entry = match self.blocked[gid] {
                Some(k) => {
                    if k < test_number {
                        Some(k)
                    } else {
                        Some(test_number)
                    }
                },
                None => Some(test_number),
            };
            self.blocked.set(gid, entry);
            proof {
                assert(self@.blocked =~= old(self)@.blocked.update(gid as int, entry));
            }
        }
    }

    /// Each group's awarded score, in group order.
    pub fn groups_score(&self) -> (r: Vec<u64>)
        requires
            self@.wf(),
        ensures
            r@ == spec_groups_score(self@),
    {
        let n = self.groups.len();
        let mut r: Vec<u64> = Vec::new();
        let mut i: usize = 0;
        while i < n
            invariant
                self@.wf(),
                n == self@.groups.len(),
                0 <= i <= n,
                r@ =~= spec_groups_score(self@).take(i as int),
            decreases n - i,
        {
            proof {
                assert(self@.groups[i as int] == self.groups@[i as int]@);
                assert(spec_groups_score(self@).take(i + 1) =~= spec_groups_score(self@).take(
                    i as int,
                ).push(spec_groups_score(self@)[i as int]));
            }
            if self.blocked[i].is_none() {
                r.push(self.groups[i].cost);
            } else {
                r.push(0);
            }
            i = i + 1;
        }
        proof {
            assert(spec_groups_score(self@).take(n as int) =~= spec_groups_score(self@));
        }
        r
    }

    /// The submission's final result: every group's score and their sum,
    /// exactly the cost of each group whose tests all passed.
    pub fn final_result(&self) -> (r: FullResult)
        requires
            self@.wf(),
        ensures
            r@ matches crate::judge::FullResultV::Scored { score, groups_score } && groups_score
                == spec_groups_score(self@) && score == spec_sum(spec_groups_score(self@)),
    {
        let scores = self.groups_score();
        let n = scores.len();
        let ghost sv = spec_groups_score(self@);
        let ghost costs = self@.groups.map_values(|g: GroupView| g.cost);
        proof {
            lemma_score_sum_bounded(self@);
        }
        let mut total: u64 = 0;
        let mut i: usize = 0;
        proof {
            assert(sv.take(0) =~= Seq::<u64>::empty());
        }
        while i < n
            invariant
                self@.wf(),
                n == sv.len(),
                scores@ == sv,
                0 <= i <= n,
                spec_sum(sv) <= u64::MAX,
                total == spec_sum(sv.take(i as int)),
            decreases n - i,
        {
            proof {
                assert(sv.take(i + 1).drop_last() =~= sv.take(i as int));
                assert(sv.take(i + 1).last() == sv[i as int]);
                lemma_sum_prefix_le(sv, i + 1);
                lemma_sum_nonneg(sv.take(i as int));
            }
            total = total + scores[i];
            i = i + 1;
        }
        proof {
            assert(sv.take(n as int) =~= sv);
        }
        FullResult::Scored { score: total, groups_score: scores }
    }
}

/// Group scores never exceed group costs, so their total fits wherever the
/// cost total does.
proof fn lemma_score_sum_bounded(s: SchedulerView)
    requires
        s.wf(),
    ensures
        0 <= spec_sum(spec_groups_score(s)) <= u64::MAX,
{
    let sv = spec_groups_score(s);
    let costs = s.groups.map_values(|g: GroupView| g.cost);
    assert(forall|i: int| 0 <= i < sv.len() ==> sv[i] <= costs[i]);
    lemma_sum_le(sv, costs);
    lemma_sum_nonneg(sv);
}

/// A blocked group spawns nothing: whatever `k` it is blocked at, every later
/// (and every other) test of the group is skipped.
pub proof fn lemma_blocked_group_not_spawned(s: SchedulerView, gid: int)
    requires
        s.wf(),
        0 <= gid < s.groups.len(),
        s.blocked[gid] is Some,
    ensures
        !spec_should_spawn(s, gid),
{
}

/// A test whose group has an unmet dependency is not spawned.
pub proof fn lemma_unmet_dependency_not_spawned(s: SchedulerView, gid: int, j: int)
    requires
        s.wf(),
        0 <= gid < s.groups.len(),
        0 <= j < s.groups[gid].depends.len(),
        s.blocked[s.groups[gid].depends[j] as int] is Some,
    ensures
        !spec_should_spawn(s, gid),
{
}

/// Once a group is blocked it stays blocked: any later outcome, of any test
/// of any group, leaves it blocked, scores it zero, and spawns nothing in it.
pub proof fn lemma_blocked_stays_blocked(
    s: SchedulerView,
    gid: int,
    other_gid: int,
    test_number: usize,
    verdict: Verdict,
)
    requires
        s.wf(),
        0 <= gid < s.groups.len(),
        0 <= other_gid < s.groups.len(),
        s.blocked[gid] is Some,
    ensures
        spec_record(s, other_gid, test_number, verdict).blocked[gid] is Some,
        spec_groups_score(spec_record(s, other_gid, test_number, verdict))[gid] == 0,
        !spec_should_spawn(spec_record(s, other_gid, test_number, verdict), gid),
{
    let s2 = spec_record(s, other_gid, test_number, verdict);
    assert(s2.blocked[gid] is Some);
}

/// With no groups there is nothing to score: the final total is zero.
pub proof fn lemma_empty_groups_score_zero(s: SchedulerView)
    requires
        s.wf(),
        s.groups.len() == 0,
    ensures
        spec_sum(spec_groups_score(s)) == 0,
{
    assert(spec_groups_score(s) =~= Seq::<u64>::empty());
}

} // verus!
