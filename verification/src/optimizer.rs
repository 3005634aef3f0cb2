//! The episode optimizer: a population search over basis weights. Each round
//! scores a number of sampled weight vectors, keeps the best few, and moves
//! the mean of the sampling distribution to their average.

use crate::dmp::WeightError;
use crate::fixed::{div_toward_zero, sat, saturate, trunc_div, Fixed};
use vstd::prelude::*;

verus! {

/// The number of weight vectors sampled in a round.
pub const SAMPLES_PER_ROUND: usize = 15;

/// The number of best samples that make the next mean.
pub const ELITE_COUNT: usize = 5;

/// The standard deviation of every sampled weight about its mean.
pub const WEIGHT_STD_DEV: Fixed = 2_000_000_000;

/// One rollout: the weights it ran with and the reward it collected.
pub struct Episode {
    pub weights: Vec<Fixed>,
    pub reward: Fixed,
}

/// Episode `a` ranks before episode `b`: it has the higher reward, or the
/// same reward and came first.
pub open spec fn ranks_before(episodes: Seq<Episode>, a: int, b: int) -> bool {
    episodes[a].reward > episodes[b].reward || (episodes[a].reward == episodes[b].reward && a < b)
}

/// `picked` holds the `k` episodes that rank first (all of them if there are
/// fewer), best first.
pub open spec fn is_elite_selection(episodes: Seq<Episode>, k: int, picked: Seq<usize>) -> bool {
    &&& picked.len() == if k <= episodes.len() {
        k
    } else {
        episodes.len() as int
    }
    &&& forall|i: int| 0 <= i < picked.len() ==> (#[trigger] picked[i]) < episodes.len()
    &&& forall|i: int, j: int|
        0 <= i < j < picked.len() ==> ranks_before(
            episodes,
            (#[trigger] picked[i]) as int,
            (#[trigger] picked[j]) as int,
        )
    &&& forall|i: int, j: usize|
        0 <= i < picked.len() && j < episodes.len() && !(#[trigger] picked.contains(j))
            ==> ranks_before(episodes, (#[trigger] picked[i]) as int, j as int)
}

/// The sum of weight `c` over the first `m` picked episodes.
pub open spec fn column_sum(episodes: Seq<Episode>, picked: Seq<usize>, c: int, m: int) -> int
    decreases m,
{
    if m <= 0 {
        0
    } else {
        column_sum(episodes, picked, c, m - 1) + episodes[picked[m - 1] as int].weights@[c]
    }
}

/// The average of weight `c` over the picked episodes, rounded toward zero.
pub open spec fn elite_mean_at(episodes: Seq<Episode>, picked: Seq<usize>, c: int) -> Fixed {
    sat(trunc_div(column_sum(episodes, picked, c, picked.len() as int), picked.len() as int))
}

/// The elementwise average of the weight vectors of the picked episodes.
pub open spec fn spec_elite_mean(episodes: Seq<Episode>, picked: Seq<usize>, width: nat) -> Seq<
    Fixed,
> {
    Seq::new(width, |c: int| elite_mean_at(episodes, picked, c))
}

/// Every episode has `width` weights.
pub open spec fn uniform_width(episodes: Seq<Episode>, width: nat) -> bool {
    forall|i: int| 0 <= i < episodes.len() ==> (#[trigger] episodes[i]).weights@.len() == width
}

/// The position in `remaining` of the episode that ranks first among them.
fn best_position(episodes: &Vec<Episode>, remaining: &Vec<usize>) -> (best: usize)
    requires
        remaining.len() > 0,
        forall|q: int| 0 <= q < remaining.len() ==> (#[trigger] remaining@[q]) < episodes.len(),
        forall|p: int, q: int|
            0 <= p < q < remaining.len() ==> (#[trigger] remaining@[p]) < (#[trigger] remaining@[q]),
    ensures
        best < remaining.len(),
        forall|q: int|
            0 <= q < remaining.len() && q != best ==> ranks_before(
                episodes@,
                remaining@[best as int] as int,
                (#[trigger] remaining@[q]) as int,
            ),
{
    let mut best: usize = 0;
    let mut p: usize = 1;
    while p < remaining.len()
        invariant
            1 <= p <= remaining.len(),
            best < p,
            forall|q: int| 0 <= q < remaining.len() ==> (#[trigger] remaining@[q]) < episodes.len(),
            forall|p: int, q: int|
                0 <= p < q < remaining.len() ==> (#[trigger] remaining@[p]) < (
                #[trigger] remaining@[q]),
            forall|q: int|
                0 <= q < p && q != best ==> ranks_before(
                    episodes@,
                    remaining@[best as int] as int,
                    (#[trigger] remaining@[q]) as int,
                ),
        decreases remaining.len() - p,
    {
        if episodes[remaining[p]].reward > episodes[remaining[best]].reward {
            best = p;
        }
        p = p + 1;
    }
    best
}

/// The `k` episodes with the highest rewards (all of them if there are
/// fewer), best first, as indices. Of two episodes with the same reward the
/// earlier ranks first.
pub fn select_elites(episodes: &Vec<Episode>, k: usize) -> (picked: Vec<usize>)
    ensures
        is_elite_selection(episodes@, k as int, picked@),
{
    let n: usize = episodes.len();
    let mut remaining: Vec<usize> = Vec::new();
    let mut i: usize = 0;
    while i < n
        invariant
            i <= n,
            remaining.len() == i,
            forall|q: int| 0 <= q < i ==> (#[trigger] remaining@[q]) == q,
        decreases n - i,
    {
        remaining.push(i);
        i = i + 1;
    }
    let mut picked: Vec<usize> = Vec::new();
    assert forall|j: usize| j < n implies #[trigger] remaining@.contains(j) by {
        assert(remaining@[j as int] == j);
    }
    while picked.len() < k && remaining.len() > 0
        invariant
            n == episodes.len(),
            picked.len() + remaining.len() == n,
            forall|j: usize| j < n ==> picked@.contains(j) || #[trigger] remaining@.contains(j),
            forall|q: int| 0 <= q < remaining.len() ==> (#[trigger] remaining@[q]) < n,
            forall|i: int| 0 <= i < picked.len() ==> (#[trigger] picked@[i]) < n,
            forall|p: int, q: int|
                0 <= p < q < remaining.len() ==> (#[trigger] remaining@[p]) < (
                #[trigger] remaining@[q]),
            forall|i: int, j: int|
                0 <= i < j < picked.len() ==> ranks_before(
                    episodes@,
                    (#[trigger] picked@[i]) as int,
                    (#[trigger] picked@[j]) as int,
                ),
            forall|i: int, q: int|
                0 <= i < picked.len() && 0 <= q < remaining.len() ==> ranks_before(
                    episodes@,
                    (#[trigger] picked@[i]) as int,
                    (#[trigger] remaining@[q]) as int,
                ),
            picked.len() <= k,
        decreases remaining.len(),
    {
        let ghost before = remaining@;
        let ghost picked_before = picked@;
        let pos: usize = best_position(episodes, &remaining);
        let chosen: usize = remaining.remove(pos);
        picked.push(chosen);
        proof {
            assert(picked@[picked_before.len() as int] == chosen);
            assert forall|q: int| 0 <= q < remaining.len() implies (#[trigger] remaining@[q]) == before[if q
                < pos {
                q
            } else {
                q + 1
            }] by {}
            assert forall|j: usize| j < n implies picked@.contains(j) || #[trigger] remaining@.contains(
                j,
            ) by {
                if picked_before.contains(j) {
                    let w = choose|w: int| 0 <= w < picked_before.len() && picked_before[w] == j;
                    assert(picked@[w] == j);
                } else {
                    assert(before.contains(j));
                    let w = choose|w: int| 0 <= w < before.len() && before[w] == j;
                    if w == pos {
                        assert(picked@[picked_before.len() as int] == j);
                    } else if w < pos {
                        assert(remaining@[w] == j);
                    } else {
                        assert(remaining@[w - 1] == j);
                    }
                }
            }
            assert forall|i: int, q: int|
                0 <= i < picked.len() && 0 <= q < remaining.len() implies ranks_before(
                episodes@,
                (#[trigger] picked@[i]) as int,
                (#[trigger] remaining@[q]) as int,
            ) by {
                let src = if q < pos {
                    q
                } else {
                    q + 1
                };
                assert(remaining@[q] == before[src]);
                if i < picked_before.len() {
                    assert(picked@[i] == picked_before[i]);
                }
            }
            assert forall|i: int, j: int| 0 <= i < j < picked.len() implies ranks_before(
                episodes@,
                (#[trigger] picked@[i]) as int,
                (#[trigger] picked@[j]) as int,
            ) by {
                assert(picked@[i] == picked_before[i]);
                if j < picked_before.len() {
                    assert(picked@[j] == picked_before[j]);
                } else {
                    assert(picked@[j] == before[pos as int]);
                }
            }
        }
    }
    proof {
        assert forall|i: int, j: usize|
            0 <= i < picked.len() && j < episodes.len() && !(#[trigger] picked@.contains(
                j,
            )) implies ranks_before(episodes@, (#[trigger] picked@[i]) as int, j as int) by {
            assert(remaining@.contains(j));
            let w = choose|w: int| 0 <= w < remaining.len() && remaining@[w] == j;
            assert(ranks_before(episodes@, picked@[i] as int, remaining@[w] as int));
        }
    }
    picked
}

/// The elementwise average of the weight vectors of the picked episodes.
pub fn elite_mean(episodes: &Vec<Episode>, picked: &Vec<usize>, width: usize) -> (mean: Vec<Fixed>)
    requires
        uniform_width(episodes@, width as nat),
        forall|i: int| 0 <= i < picked.len() ==> (#[trigger] picked@[i]) < episodes.len(),
    ensures
        mean@ == spec_elite_mean(episodes@, picked@, width as nat),
{
    let mut mean: Vec<Fixed> = Vec::new();
    let mut c: usize = 0;
    while c < width
        invariant
            c <= width,
            mean.len() == c,
            uniform_width(episodes@, width as nat),
            forall|i: int| 0 <= i < picked.len() ==> (#[trigger] picked@[i]) < episodes.len(),
            forall|d: int| 0 <= d < c ==> mean@[d] == elite_mean_at(episodes@, picked@, d),
        decreases width - c,
    {
        let mut total: i128 = 0;
        let mut m: usize = 0;
        while m < picked.len()
            invariant
                m <= picked.len(),
                c < width,
                uniform_width(episodes@, width as nat),
                forall|i: int| 0 <= i < picked.len() ==> (#[trigger] picked@[i]) < episodes.len(),
                total == column_sum(episodes@, picked@, c as int, m as int),
                -0x8000_0000_0000_0000 * m <= total <= 0x8000_0000_0000_0000 * m,
            decreases picked.len() - m,
        {
            let e: usize = picked[m];
            assert(episodes@[e as int].weights@.len() == width);
            total = total + episodes[e].weights[c] as i128;
            m = m + 1;
        }
        mean.push(saturate(div_toward_zero(total, picked.len() as i128)));
        c = c + 1;
    }
    assert(mean@ =~= spec_elite_mean(episodes@, picked@, width as nat));
    mean
}

/// The search state: the mean of the sampling distribution, which lives on
/// from round to round, and the episodes of the round in progress.
pub struct Optimizer {
    mean: Vec<Fixed>,
    episodes: Vec<Episode>,
    n_samples: usize,
    n_elite: usize,
    rounds_done: u64,
    max_rounds: u64,
}

impl Optimizer {
    /// Every episode of the round has one weight for each mean.
    pub closed spec fn wf(self) -> bool {
        uniform_width(self.episodes@, self.mean@.len())
    }

    /// The mean weight vector.
    pub closed spec fn mean_seq(self) -> Seq<Fixed> {
        self.mean@
    }

    /// The episodes recorded in the round in progress.
    pub closed spec fn recorded(self) -> Seq<Episode> {
        self.episodes@
    }

    /// The number of samples that make a round.
    pub closed spec fn samples_per_round(self) -> int {
        self.n_samples as int
    }

    /// The number of elites that make the next mean.
    pub closed spec fn elite_count(self) -> int {
        self.n_elite as int
    }

    /// The number of rounds finished.
    pub closed spec fn rounds(self) -> int {
        self.rounds_done as int
    }

    /// The number of rounds after which the search is over.
    pub closed spec fn round_limit(self) -> int {
        self.max_rounds as int
    }

    /// A search over `n_weights` weights with a mean of all zeros, in rounds
    /// of `n_samples` episodes of which the best `n_elite` make the next
    /// mean, for at most `max_rounds` rounds.
    pub fn new(n_weights: usize, n_samples: usize, n_elite: usize, max_rounds: u64) -> (o: Optimizer)
        ensures
            o.wf(),
            o.mean_seq() == Seq::new(n_weights as nat, |i: int| 0i64),
            o.recorded() == Seq::<Episode>::empty(),
            o.samples_per_round() == n_samples,
            o.elite_count() == n_elite,
            o.rounds() == 0,
            o.round_limit() == max_rounds,
    {
        let mut mean: Vec<Fixed> = Vec::new();
        let mut i: usize = 0;
        while i < n_weights
            invariant
                i <= n_weights,
                mean.len() == i,
                forall|j: int| 0 <= j < i ==> mean@[j] == 0,
            decreases n_weights - i,
        {
            mean.push(0);
            i = i + 1;
        }
        assert(mean@ =~= Seq::new(n_weights as nat, |i: int| 0i64));
        Optimizer {
            mean,
            episodes: Vec::new(),
            n_samples,
            n_elite,
            rounds_done: 0,
            max_rounds,
        }
    }

    /// The mean weight vector, about which the next samples are drawn.
    pub fn get_mean(&self) -> (m: &Vec<Fixed>)
        ensures
            m@ == self.mean_seq(),
    {
        &self.mean
    }

    /// The number of episodes recorded in the round in progress.
    pub fn recorded_count(&self) -> (n: usize)
        ensures
            n == self.recorded().len(),
    {
        self.episodes.len()
    }

    /// Whether the round in progress has all its samples.
    pub fn round_complete(&self) -> (done: bool)
        ensures
            done == (self.recorded().len() >= self.samples_per_round()),
    {
        self.episodes.len() >= self.n_samples
    }

    /// Whether the search has run all its rounds.
    pub fn is_finished(&self) -> (done: bool)
        ensures
            done == (self.rounds() >= self.round_limit()),
    {
        self.rounds_done >= self.max_rounds
    }

    /// Records the outcome of one rollout. Weights that do not match the
    /// mean in length are refused, and nothing is recorded.
    pub fn record(&mut self, weights: Vec<Fixed>, reward: Fixed) -> (res: Result<(), WeightError>)
        requires
            old(self).wf(),
        ensures
            final(self).wf(),
            final(self).mean_seq() == old(self).mean_seq(),
            final(self).samples_per_round() == old(self).samples_per_round(),
            final(self).elite_count() == old(self).elite_count(),
            final(self).rounds() == old(self).rounds(),
            final(self).round_limit() == old(self).round_limit(),
            weights@.len() == old(self).mean_seq().len() ==> {
                &&& res is Ok
                &&& final(self).recorded().len() == old(self).recorded().len() + 1
                &&& final(self).recorded().drop_last() == old(self).recorded()
                &&& final(self).recorded().last().weights@ == weights@
                &&& final(self).recorded().last().reward == reward
            },
            weights@.len() != old(self).mean_seq().len() ==> res == Err::<(), WeightError>(
                WeightError::LengthMismatch {
                    expected: old(self).mean_seq().len() as usize,
                    given: weights@.len() as usize,
                },
            ) && final(self).recorded() == old(self).recorded(),
    {
        if weights.len() == self.mean.len() {
            let ghost before = self.episodes@;
            self.episodes.push(Episode { weights, reward });
            assert(self.episodes@.drop_last() =~= before);
            Ok(())
        } else {
            Err(WeightError::LengthMismatch { expected: self.mean.len(), given: weights.len() })
        }
    }

    /// Ends the round: picks the elites among the recorded episodes, moves
    /// the mean to their elementwise average, and forgets the episodes. With
    /// no episode recorded the mean stays. Returns the elites as indices
    /// into the episodes of the round, best first.
    pub fn finish_round(&mut self) -> (picked: Vec<usize>)
        requires
            old(self).wf(),
            old(self).rounds() < u64::MAX,
        ensures
            final(self).wf(),
            is_elite_selection(old(self).recorded(), old(self).elite_count(), picked@),
            picked@.len() > 0 ==> final(self).mean_seq() == spec_elite_mean(
                old(self).recorded(),
                picked@,
                old(self).mean_seq().len(),
            ),
            picked@.len() == 0 ==> final(self).mean_seq() == old(self).mean_seq(),
            final(self).mean_seq().len() == old(self).mean_seq().len(),
            final(self).recorded() == Seq::<Episode>::empty(),
            final(self).rounds() == old(self).rounds() + 1,
            final(self).samples_per_round() == old(self).samples_per_round(),
            final(self).elite_count() == old(self).elite_count(),
            final(self).round_limit() == old(self).round_limit(),
    {
        let picked: Vec<usize> = select_elites(&self.episodes, self.n_elite);
        if picked.len() > 0 {
            let mean: Vec<Fixed> = elite_mean(&self.episodes, &picked, self.mean.len());
            self.mean = mean;
        }
        self.episodes = Vec::new();
        self.rounds_done = self.rounds_done + 1;
        picked
    }
}

/// There is only one elite selection: two sequences that both hold the `k`
/// episodes that rank first, best first, are the same sequence.
pub proof fn lemma_elite_selection_unique(
    episodes: Seq<Episode>,
    k: int,
    first: Seq<usize>,
    second: Seq<usize>,
)
    requires
        is_elite_selection(episodes, k, first),
        is_elite_selection(episodes, k, second),
    ensures
        first == second,
{
    assert forall|i: int| 0 <= i < first.len() implies first[i] == second[i] by {
        lemma_same_at(episodes, k, first, second, i);
    }
    assert(first =~= second);
}

proof fn lemma_same_at(episodes: Seq<Episode>, k: int, first: Seq<usize>, second: Seq<usize>, i: int)
    requires
        is_elite_selection(episodes, k, first),
        is_elite_selection(episodes, k, second),
        0 <= i < first.len(),
    ensures
        first[i] == second[i],
    decreases i,
{
    assert forall|t: int| 0 <= t < i implies first[t] == second[t] by {
        lemma_same_at(episodes, k, first, second, t);
    }
    if first[i] != second[i] {
        if ranks_before(episodes, first[i] as int, second[i] as int) {
            lemma_ranked_first_is_picked(episodes, k, first, second, i);
        } else {
            assert(ranks_before(episodes, second[i] as int, first[i] as int));
            lemma_ranked_first_is_picked(episodes, k, second, first, i);
        }
    }
}

/// Two selections that agree before position `i` cannot have the one's
/// entry at `i` rank before the other's.
proof fn lemma_ranked_first_is_picked(
    episodes: Seq<Episode>,
    k: int,
    ahead: Seq<usize>,
    behind: Seq<usize>,
    i: int,
)
    requires
        is_elite_selection(episodes, k, ahead),
        is_elite_selection(episodes, k, behind),
        0 <= i < ahead.len(),
        forall|t: int| 0 <= t < i ==> ahead[t] == behind[t],
    ensures
        !ranks_before(episodes, ahead[i] as int, behind[i] as int),
{
    let x = ahead[i];
    if !ranks_before(episodes, ahead[i] as int, behind[i] as int) {
    } else if behind.contains(x) {
        let t = choose|t: int| 0 <= t < behind.len() && behind[t] == x;
        if t < i {
            assert(ahead[t] == behind[t]);
            assert(ranks_before(episodes, ahead[t] as int, ahead[i] as int));
        } else if t > i {
            assert(ranks_before(episodes, behind[i] as int, behind[t] as int));
        }
    } else {
        assert(ranks_before(episodes, behind[i] as int, x as int));
    }
}

/// The sum of one weight over `m` episodes lies within `m` times the range
/// of a weight.
proof fn lemma_column_sum_bounds(episodes: Seq<Episode>, picked: Seq<usize>, c: int, m: int)
    requires
        0 <= m,
    ensures
        -0x8000_0000_0000_0000 * m <= column_sum(episodes, picked, c, m) <= 0x7fff_ffff_ffff_ffff * m,
    decreases m,
{
    if m > 0 {
        lemma_column_sum_bounds(episodes, picked, c, m - 1);
    }
}

/// The average of the elites is exact: it is the sum of their weights over
/// their number, rounded toward zero, and saturation never changes it.
pub proof fn lemma_elite_mean_is_exact(episodes: Seq<Episode>, picked: Seq<usize>, c: int)
    requires
        picked.len() > 0,
    ensures
        elite_mean_at(episodes, picked, c) == trunc_div(
            column_sum(episodes, picked, c, picked.len() as int),
            picked.len() as int,
        ),
{
    let m = picked.len() as int;
    let total = column_sum(episodes, picked, c, m);
    lemma_column_sum_bounds(episodes, picked, c, m);
    if total >= 0 {
        assert(total / m <= 0x7fff_ffff_ffff_ffff) by (nonlinear_arith)
            requires
                0 <= total <= 0x7fff_ffff_ffff_ffff * m,
                m > 0,
        ;
        assert(total / m >= 0) by (nonlinear_arith)
            requires
                0 <= total,
                m > 0,
        ;
    } else {
        assert((-total) / m <= 0x8000_0000_0000_0000) by (nonlinear_arith)
            requires
                0 <= -total <= 0x8000_0000_0000_0000 * m,
                m > 0,
        ;
        assert((-total) / m >= 0) by (nonlinear_arith)
            requires
                0 <= -total,
                m > 0,
        ;
    }
}

} // verus!
