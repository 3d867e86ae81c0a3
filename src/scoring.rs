//! The plan of a score recalculation: every effective solve of a challenge with its rank
//! in time order, and the solve count that the decay function is given.
//!
//! The point values themselves come from the scoring function, outside this crate:
//! the challenge is worth `points(initial, solved_count)`, and the solve of rank `i`
//! scores that times `factor(initial, i)`.
use vstd::prelude::*;

verus! {

/// A solve that counts toward scoring, with the time of its submission.
#[derive(Debug, Clone, Copy, PartialEq, Eq, Structural)]
pub struct EffectiveSolve {
    pub solved: i32,
    pub submission: i32,
    pub user: i32,
    pub challenge: i32,
    /// Submission time, in microseconds.
    pub time: i64,
}

/// Whether solve `a` comes before solve `b`: an earlier submission, or the same time and
/// a lower submission id.
pub open spec fn before(a: EffectiveSolve, b: EffectiveSolve) -> bool {
    a.time < b.time || (a.time == b.time && a.submission < b.submission)
}

/// The rank of `x` among `s`: how many solves of `s` come before it.
pub open spec fn rank_of(s: Seq<EffectiveSolve>, x: EffectiveSolve) -> nat
    decreases s.len(),
{
    if s.len() == 0 {
        0
    } else {
        rank_of(s.drop_last(), x) + if before(s.last(), x) { 1nat } else { 0nat }
    }
}

/// The score row to write for one solve.
#[derive(Debug, Clone, Copy, PartialEq, Eq, Structural)]
pub struct ScoreTask {
    pub solved: i32,
    pub submission: i32,
    pub user: i32,
    pub challenge: i32,
    /// Zero for the first effective solver.
    pub rank: usize,
}

#[derive(Debug)]
pub struct ScorePlan {
    /// The number of effective solves, which the challenge's point value depends on.
    pub solved_count: usize,
    /// One task per solve, in the order the solves were given.
    pub tasks: Vec<ScoreTask>,
}

/// Whether `plan` is the recalculation plan of `s`.
pub open spec fn plans(s: Seq<EffectiveSolve>, plan: ScorePlan) -> bool {
    &&& plan.solved_count == s.len()
    &&& plan.tasks@.len() == s.len()
    &&& forall|i: int| 0 <= i < s.len() ==> {
        let t = #[trigger] plan.tasks@[i];
        &&& t.solved == s[i].solved
        &&& t.submission == s[i].submission
        &&& t.user == s[i].user
        &&& t.challenge == s[i].challenge
        &&& t.rank == rank_of(s, s[i])
    }
}

proof fn lemma_rank_remove(t: Seq<EffectiveSolve>, i: int, x: EffectiveSolve)
    requires
        0 <= i < t.len(),
    ensures
        rank_of(t, x) == rank_of(t.remove(i), x) + if before(t[i], x) { 1nat } else { 0nat },
    decreases t.len(),
{
    if i == t.len() - 1 {
        assert(t.remove(i) =~= t.drop_last());
    } else {
        let d = t.drop_last();
        lemma_rank_remove(d, i, x);
        assert(t.remove(i).drop_last() =~= d.remove(i));
        assert(t.remove(i).last() == t.last());
        assert(d[i] == t[i]);
    }
}

/// Solves that are the same up to order give every solve the same rank.
proof fn lemma_rank_permutation(s: Seq<EffectiveSolve>, t: Seq<EffectiveSolve>, x: EffectiveSolve)
    requires
        s.to_multiset() == t.to_multiset(),
    ensures
        rank_of(s, x) == rank_of(t, x),
    decreases s.len(),
{
    broadcast use vstd::seq_lib::group_to_multiset_ensures;
    if s.len() == 0 {
        assert(t.to_multiset().len() == 0);
        assert(t.len() == 0);
    } else {
        let a = s.last();
        let d = s.drop_last();
        assert(s =~= d.push(a));
        assert(s.to_multiset() == d.to_multiset().insert(a));
        assert(t.to_multiset().count(a) > 0);
        assert(t.contains(a));
        let i = choose|i: int| 0 <= i < t.len() && t[i] == a;
        let u = t.remove(i);
        assert(u.to_multiset() == t.to_multiset().remove(a));
        assert(d.to_multiset() =~= u.to_multiset());
        lemma_rank_permutation(d, u, x);
        lemma_rank_remove(t, i, x);
    }
}

/// Recalculating over the same effective solves gives the same plan, in whatever order
/// they are fetched: the same solve count for the point value, and the same rank for every
/// solve. Two recalculations with no solve between them agree.
pub proof fn lemma_recalculation_idempotent(s: Seq<EffectiveSolve>, t: Seq<EffectiveSolve>, first: ScorePlan, second: ScorePlan)
    requires
        s.to_multiset() == t.to_multiset(),
        plans(s, first),
        plans(t, second),
    ensures
        first.solved_count == second.solved_count,
        forall|i: int, j: int| 0 <= i < s.len() && 0 <= j < t.len() && s[i] == t[j]
            ==> #[trigger] first.tasks@[i] == #[trigger] second.tasks@[j],
        s == t ==> first.tasks@ == second.tasks@,
{
    broadcast use vstd::seq_lib::group_to_multiset_ensures;
    assert(s.len() == s.to_multiset().len());
    assert(t.len() == t.to_multiset().len());
    assert forall|i: int, j: int| 0 <= i < s.len() && 0 <= j < t.len() && s[i] == t[j]
        implies #[trigger] first.tasks@[i] == #[trigger] second.tasks@[j] by {
        lemma_rank_permutation(s, t, s[i]);
    }
    if s == t {
        assert(first.tasks@ =~= second.tasks@);
    }
}

/// One more effective solve changes the inputs of every solver's score: the solve count
/// grows by one, every solve after the new one moves one rank down, the others keep
/// their rank, and the new one ranks after every solve before it.
pub proof fn lemma_rank_under_growth(s: Seq<EffectiveSolve>, n: EffectiveSolve, old_plan: ScorePlan, new_plan: ScorePlan)
    requires
        plans(s, old_plan),
        plans(s.push(n), new_plan),
    ensures
        new_plan.solved_count == old_plan.solved_count + 1,
        forall|i: int| 0 <= i < s.len() ==> (#[trigger] new_plan.tasks@[i]).rank == old_plan.tasks@[i].rank
            + if before(n, s[i]) { 1int } else { 0int },
        new_plan.tasks@[s.len() as int].rank == rank_of(s, n),
{
    let t = s.push(n);
    assert(t.drop_last() =~= s);
    assert forall|i: int| 0 <= i < s.len() implies (#[trigger] new_plan.tasks@[i]).rank == old_plan.tasks@[i].rank
        + if before(n, s[i]) { 1int } else { 0int } by {
        assert(t[i] == s[i]);
    }
    assert(t[s.len() as int] == n);
}

proof fn lemma_rank_bound(s: Seq<EffectiveSolve>, x: EffectiveSolve)
    ensures
        rank_of(s, x) <= s.len(),
    decreases s.len(),
{
    if s.len() > 0 {
        lemma_rank_bound(s.drop_last(), x);
    }
}

fn is_before(a: &EffectiveSolve, b: &EffectiveSolve) -> (r: bool)
    ensures
        r == before(*a, *b),
{
    a.time < b.time || (a.time == b.time && a.submission < b.submission)
}

/// Ranks every solve of `solves` by time.
pub fn recalculation_plan(solves: &Vec<EffectiveSolve>) -> (r: ScorePlan)
    ensures
        plans(solves@, r),
{
    let n = solves.len();
    let mut tasks: Vec<ScoreTask> = Vec::new();
    let mut i: usize = 0;
    while i < n
        invariant
            n == solves@.len(),
            i <= n,
            tasks@.len() == i,
            forall|k: int| 0 <= k < i ==> {
                let t = #[trigger] tasks@[k];
                &&& t.solved == solves@[k].solved
                &&& t.submission == solves@[k].submission
                &&& t.user == solves@[k].user
                &&& t.challenge == solves@[k].challenge
                &&& t.rank == rank_of(solves@, solves@[k])
            },
        decreases n - i,
    {
        let x = solves[i];
        let mut rank: usize = 0;
        let mut j: usize = 0;
        while j < n
            invariant
                n == solves@.len(),
                i < n,
                x == solves@[i as int],
                j <= n,
                rank == rank_of(solves@.subrange(0, j as int), x),
            decreases n - j,
        {
            proof {
                let p = solves@.subrange(0, j + 1);
                assert(p.drop_last() =~= solves@.subrange(0, j as int));
                lemma_rank_bound(solves@.subrange(0, j as int), x);
            }
            if is_before(&solves[j], &x) {
                rank = rank + 1;
            }
            j = j + 1;
        }
        proof {
            assert(solves@.subrange(0, n as int) =~= solves@);
        }
        tasks.push(ScoreTask {
            solved: x.solved,
            submission: x.submission,
            user: x.user,
            challenge: x.challenge,
            rank,
        });
        i = i + 1;
    }
    ScorePlan { solved_count: n, tasks }
}

} // verus!
