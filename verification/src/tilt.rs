//! The tilt analyzer: behavioral statistics about performance after losing
//! streaks, computed over the pairs in exit-timestamp order.
//!
//! Fewer than ten pairs yield the explicit insufficient-data result rather
//! than an error. Otherwise the analyzer compares the baseline win rate
//! with the win rate immediately following exactly `k` consecutive losses
//! (`k` from one to four; zero-P&L pairs are excluded from the following
//! sample), recommends a stop-after streak length, and folds four clamped
//! severities into a composite tilt score from 0 to 10 (reported in
//! thousandths).

use vstd::prelude::*;
use vstd::string::StringExecFns;

use crate::metrics::count_wins;
use crate::metrics::count_losses;
use crate::metrics::div_or_zero;
use crate::metrics::sort_pairs_by_exit;
use crate::metrics::sort_pairs_model;
use crate::positions::MAX_PAIR_COUNT;
use crate::trade::NET_BOUND;
use crate::trade::PairModel;
use crate::trade::PairedTrade;
use crate::trade::valid_pairs;

verus! {

/// The analyzer's verdict bands.
#[derive(Clone, Copy, Debug, PartialEq, Eq, Structural)]
pub enum TiltCategory {
    InsufficientData,
    CalmDisciplined,
    ModerateTiltRisk,
    HighTilt,
}

impl TiltCategory {
    /// The category's wording.
    pub fn label(&self) -> (r: String)
        ensures
            *self is InsufficientData ==> r@ == "insufficient data"@,
            *self is CalmDisciplined ==> r@ == "Calm & Disciplined"@,
            *self is ModerateTiltRisk ==> r@ == "Moderate Tilt Risk"@,
            *self is HighTilt ==> r@ == "High Tilt"@,
    {
        match self {
            TiltCategory::InsufficientData => String::from_str("insufficient data"),
            TiltCategory::CalmDisciplined => String::from_str("Calm & Disciplined"),
            TiltCategory::ModerateTiltRisk => String::from_str("Moderate Tilt Risk"),
            TiltCategory::HighTilt => String::from_str("High Tilt"),
        }
    }
}

/// Conditional statistics following exactly `losses` consecutive losses.
#[derive(Debug)]
pub struct StreakTiltStat {
    /// The streak length the sample conditions on.
    pub losses: i64,
    /// Sample size: pairs right after the streak with nonzero P&L.
    pub samples: i64,
    /// Win rate within the sample, basis points; 0 with no samples.
    pub win_rate: i64,
    /// Mean P&L within the sample (truncated toward zero); 0 with none.
    pub avg_pnl: i128,
}

/// Mathematical model of a [`StreakTiltStat`].
#[verifier::ext_equal]
pub struct StreakStatModel {
    pub losses: int,
    pub samples: int,
    pub win_rate: int,
    pub avg_pnl: int,
}

impl View for StreakTiltStat {
    type V = StreakStatModel;

    open spec fn view(&self) -> StreakStatModel {
        StreakStatModel {
            losses: self.losses as int,
            samples: self.samples as int,
            win_rate: self.win_rate as int,
            avg_pnl: self.avg_pnl as int,
        }
    }
}

impl DeepView for StreakTiltStat {
    type V = StreakStatModel;

    open spec fn deep_view(&self) -> StreakStatModel {
        self.view()
    }
}

/// The analyzer's report.
#[derive(Debug)]
pub struct TiltStats {
    pub category: TiltCategory,
    /// Win rate over all pairs, basis points.
    pub baseline_win_rate: i64,
    /// Win rate right after one loss, basis points.
    pub win_rate_after_loss: i64,
    /// Win rate right after one win, basis points.
    pub win_rate_after_win: i64,
    /// Win rate right after exactly two consecutive losses, basis points.
    pub win_rate_after_two_losses: i64,
    /// One row per streak length from one to four; empty when the data is
    /// insufficient.
    pub streak_stats: Vec<StreakTiltStat>,
    /// First streak length whose sample is large and clearly harmful, or
    /// `None`.
    pub recommended_stop: Option<i64>,
    /// Composite tilt score in thousandths: 0 to 10000 stands for 0 to 10.
    pub tilt_score: i64,
}

/// A losing pair.
pub open spec fn is_loss(p: PairModel) -> bool {
    p.net_profit_loss < 0
}

/// The pair at `i` follows exactly `k` consecutive losses: the `k`
/// preceding pairs all lost, and the one before them (if any) did not.
pub open spec fn after_exact_losses(s: Seq<PairModel>, i: int, k: int) -> bool {
    &&& k <= i
    &&& forall|j: int| i - k <= j < i ==> is_loss(#[trigger] s[j])
    &&& (i - k == 0 || !is_loss(s[i - k - 1]))
}

/// The pair at `i` belongs to the `k`-streak sample: it follows exactly
/// `k` losses and has nonzero P&L.
pub open spec fn in_sample(s: Seq<PairModel>, i: int, k: int) -> bool {
    after_exact_losses(s, i, k) && s[i].net_profit_loss != 0
}

/// Sample size of the `k`-streak condition over the first `n` pairs.
pub open spec fn sample_count(s: Seq<PairModel>, k: int, n: int) -> int
    decreases n,
{
    if n <= 0 {
        0
    } else {
        sample_count(s, k, n - 1) + (if in_sample(s, n - 1, k) {
            1int
        } else {
            0
        })
    }
}

/// Wins within the `k`-streak sample over the first `n` pairs.
pub open spec fn sample_wins(s: Seq<PairModel>, k: int, n: int) -> int
    decreases n,
{
    if n <= 0 {
        0
    } else {
        sample_wins(s, k, n - 1) + (if in_sample(s, n - 1, k) && s[n - 1].net_profit_loss > 0 {
            1int
        } else {
            0
        })
    }
}

/// Losses within the `k`-streak sample over the first `n` pairs.
pub open spec fn sample_losses(s: Seq<PairModel>, k: int, n: int) -> int
    decreases n,
{
    if n <= 0 {
        0
    } else {
        sample_losses(s, k, n - 1) + (if in_sample(s, n - 1, k) && s[n - 1].net_profit_loss < 0 {
            1int
        } else {
            0
        })
    }
}

/// P&L sum within the `k`-streak sample over the first `n` pairs.
pub open spec fn sample_pnl(s: Seq<PairModel>, k: int, n: int) -> int
    decreases n,
{
    if n <= 0 {
        0
    } else {
        sample_pnl(s, k, n - 1) + (if in_sample(s, n - 1, k) {
            s[n - 1].net_profit_loss
        } else {
            0
        })
    }
}

/// The pair at `i` follows one winning pair and has nonzero P&L.
pub open spec fn in_after_win_sample(s: Seq<PairModel>, i: int) -> bool {
    1 <= i && s[i - 1].net_profit_loss > 0 && s[i].net_profit_loss != 0
}

/// Sample size of the after-win condition over the first `n` pairs.
pub open spec fn after_win_count(s: Seq<PairModel>, n: int) -> int
    decreases n,
{
    if n <= 0 {
        0
    } else {
        after_win_count(s, n - 1) + (if in_after_win_sample(s, n - 1) {
            1int
        } else {
            0
        })
    }
}

/// Wins within the after-win sample over the first `n` pairs.
pub open spec fn after_win_wins(s: Seq<PairModel>, n: int) -> int
    decreases n,
{
    if n <= 0 {
        0
    } else {
        after_win_wins(s, n - 1) + (if in_after_win_sample(s, n - 1) && s[n - 1].net_profit_loss
            > 0 {
            1int
        } else {
            0
        })
    }
}

/// Clamp to the basis-point severity range.
pub open spec fn clamp_bp(x: int) -> int {
    if x < 0 {
        0
    } else if x > 10_000 {
        10_000
    } else {
        x
    }
}

/// Win rate of a sample, basis points; 0 with no samples.
pub open spec fn rate_of(wins: int, samples: int) -> int {
    div_or_zero(wins * 10_000, samples)
}

/// The composite tilt score in thousandths, from the four severities: the
/// post-loss and post-two-loss win-rate drops (doubled, so a fifty-point
/// drop is full severity) weighted three each, the loss-magnitude
/// inflation after one loss weighted two, and the probability of losing
/// right after a loss weighted two.
pub open spec fn tilt_score_of(
    baseline: int,
    wr1: int,
    wr2: int,
    avg_pnl1: int,
    avg_loss_all: int,
    loss_chain_bp: int,
) -> int {
    let sev1 = clamp_bp((baseline - wr1) * 2);
    let sev2 = clamp_bp((baseline - wr2) * 2);
    let m1 = if avg_pnl1 < 0 {
        -avg_pnl1
    } else {
        0
    };
    let sev3 = if avg_loss_all > 0 {
        clamp_bp((m1 - avg_loss_all) * 10_000 / avg_loss_all)
    } else {
        0
    };
    let sev4 = clamp_bp(loss_chain_bp);
    (sev1 * 3 + sev2 * 3 + sev3 * 2 + sev4 * 2) / 10
}

/// Whether streak length `k` is a recommendable stop: a large sample, a
/// baseline win-rate drop of fifteen points or more, and a negative mean
/// P&L after the streak.
pub open spec fn stop_worthy(s: Seq<PairModel>, n: int, baseline: int, k: int) -> bool {
    let samples = sample_count(s, k, n);
    let wr = rate_of(sample_wins(s, k, n), samples);
    let avg = crate::metrics::div_trunc_or_zero(sample_pnl(s, k, n), samples);
    samples >= 20 && baseline - wr >= 1_500 && avg < 0
}

/// The first streak length from one to four worth stopping after, if any.
pub open spec fn recommended_stop_of(s: Seq<PairModel>, n: int, baseline: int) -> Option<int> {
    if stop_worthy(s, n, baseline, 1) {
        Some(1int)
    } else if stop_worthy(s, n, baseline, 2) {
        Some(2int)
    } else if stop_worthy(s, n, baseline, 3) {
        Some(3int)
    } else if stop_worthy(s, n, baseline, 4) {
        Some(4int)
    } else {
        None
    }
}

/// The category band of a tilt score in thousandths.
pub open spec fn category_of(score: int) -> TiltCategory {
    if score <= 3_000 {
        TiltCategory::CalmDisciplined
    } else if score <= 7_000 {
        TiltCategory::ModerateTiltRisk
    } else {
        TiltCategory::HighTilt
    }
}

/// Whether the pair at `i` of the sorted pairs belongs to the `k`-streak
/// sample.
fn in_sample_exec(sorted: &Vec<PairedTrade>, i: usize, k: usize) -> (r: bool)
    requires
        i < sorted@.len(),
        1 <= k <= 4,
    ensures
        r == in_sample(sorted.deep_view(), i as int, k as int),
{
    let ghost s = sorted.deep_view();
    if sorted[i].net_profit_loss == 0 {
        return false;
    }
    if i < k {
        return false;
    }
    let mut j: usize = i - k;
    while j < i
        invariant
            s == sorted.deep_view(),
            i < s.len(),
            k <= i,
            1 <= k <= 4,
            i - k <= j <= i,
            s[i as int].net_profit_loss != 0,
            forall|x: int| i - k <= x < j ==> is_loss(#[trigger] s[x]),
        decreases i - j,
    {
        if !(sorted[j].net_profit_loss < 0) {
            proof {
                assert(!is_loss(s[j as int]));
                assert(!after_exact_losses(s, i as int, k as int));
            }
            return false;
        }
        j = j + 1;
    }
    if i - k > 0 {
        if sorted[i - k - 1].net_profit_loss < 0 {
            return false;
        }
    }
    true
}

/// Sample size, wins, losses and P&L sum of the `k`-streak condition.
fn streak_sample_stats(sorted: &Vec<PairedTrade>, k: usize) -> (r: (i64, i64, i64, i128))
    requires
        valid_pairs(sorted.deep_view()),
        sorted@.len() <= MAX_PAIR_COUNT,
        1 <= k <= 4,
    ensures
        ({
            let s = sorted.deep_view();
            let n = s.len() as int;
            &&& r.0 as int == sample_count(s, k as int, n)
            &&& r.1 as int == sample_wins(s, k as int, n)
            &&& r.2 as int == sample_losses(s, k as int, n)
            &&& r.3 as int == sample_pnl(s, k as int, n)
            &&& 0 <= r.0 as int <= n
            &&& 0 <= r.1 as int <= n
            &&& 0 <= r.2 as int <= n
            &&& -(n * (NET_BOUND as int)) <= r.3 as int <= n * (NET_BOUND as int)
        }),
{
    let ghost s = sorted.deep_view();
    let n = sorted.len();
    let mut samples: i64 = 0;
    let mut wins: i64 = 0;
    let mut losses: i64 = 0;
    let mut pnl: i128 = 0;
    let mut i: usize = 0;
    while i < n
        invariant
            s == sorted.deep_view(),
            n == s.len(),
            valid_pairs(s),
            n <= MAX_PAIR_COUNT,
            1 <= k <= 4,
            i <= n,
            samples as int == sample_count(s, k as int, i as int),
            wins as int == sample_wins(s, k as int, i as int),
            losses as int == sample_losses(s, k as int, i as int),
            pnl as int == sample_pnl(s, k as int, i as int),
            0 <= samples as int <= i as int,
            0 <= wins as int <= i as int,
            0 <= losses as int <= i as int,
            -(i as int) * (NET_BOUND as int) <= pnl as int <= (i as int) * (NET_BOUND as int),
        decreases n - i,
    {
        proof {
            assert(crate::trade::valid_pair_model(s[i as int]));
        }
        if in_sample_exec(sorted, i, k) {
            samples = samples + 1;
            pnl = pnl + sorted[i].net_profit_loss;
            if sorted[i].net_profit_loss > 0 {
                wins = wins + 1;
            } else if sorted[i].net_profit_loss < 0 {
                losses = losses + 1;
            }
        }
        i = i + 1;
    }
    (samples, wins, losses, pnl)
}

/// Sample size and wins of the after-win condition.
fn after_win_stats(sorted: &Vec<PairedTrade>) -> (r: (i64, i64))
    requires
        sorted@.len() <= MAX_PAIR_COUNT,
    ensures
        r.0 as int == after_win_count(sorted.deep_view(), sorted@.len() as int),
        r.1 as int == after_win_wins(sorted.deep_view(), sorted@.len() as int),
        0 <= r.1 <= r.0,
        r.0 as int <= sorted@.len() as int,
{
    let ghost s = sorted.deep_view();
    let n = sorted.len();
    let mut samples: i64 = 0;
    let mut wins: i64 = 0;
    let mut i: usize = 0;
    while i < n
        invariant
            s == sorted.deep_view(),
            n == s.len(),
            n <= MAX_PAIR_COUNT,
            i <= n,
            samples as int == after_win_count(s, i as int),
            wins as int == after_win_wins(s, i as int),
            0 <= wins <= samples,
            samples as int <= i as int,
        decreases n - i,
    {
        if i >= 1 && sorted[i - 1].net_profit_loss > 0 && sorted[i].net_profit_loss != 0 {
            samples = samples + 1;
            if sorted[i].net_profit_loss > 0 {
                wins = wins + 1;
            }
        }
        i = i + 1;
    }
    (samples, wins)
}

/// Win rate of a sample in basis points.
fn rate_exec(wins: i64, samples: i64) -> (r: i64)
    requires
        0 <= wins <= 1_000_000,
        0 <= samples <= 1_000_000,
    ensures
        r as int == rate_of(wins as int, samples as int),
        0 <= r <= 10_000_000_000,
{
    if samples > 0 {
        (((wins as u64) * 10_000) / (samples as u64)) as i64
    } else {
        0
    }
}

/// Analyze tilt over the pairs. Fewer than ten pairs yield the
/// insufficient-data category with empty streak statistics; otherwise
/// every figure is pinned by the conditional-sample counts over the pairs
/// in exit-timestamp order.
#[verifier::rlimit(100)]
pub fn compute_tilt(pairs: &Vec<PairedTrade>) -> (r: TiltStats)
    requires
        valid_pairs(pairs.deep_view()),
        pairs@.len() <= MAX_PAIR_COUNT,
    ensures
        pairs@.len() < 10 ==> r.category == TiltCategory::InsufficientData
            && r.streak_stats@.len() == 0 && r.tilt_score == 0 && r.recommended_stop is None,
        pairs@.len() >= 10 ==> ({
            let s = sort_pairs_model(pairs.deep_view());
            let n = s.len() as int;
            let baseline = rate_of(count_wins(s), n);
            let wr1 = rate_of(sample_wins(s, 1, n), sample_count(s, 1, n));
            let wr2 = rate_of(sample_wins(s, 2, n), sample_count(s, 2, n));
            let avg1 = crate::metrics::div_trunc_or_zero(sample_pnl(s, 1, n), sample_count(s, 1, n));
            let avg_loss_all = div_or_zero(
                crate::metrics::sum_loss_abs(s),
                count_losses(s),
            );
            let chain = rate_of(sample_losses(s, 1, n), sample_count(s, 1, n));
            let score = tilt_score_of(baseline, wr1, wr2, avg1, avg_loss_all, chain);
            &&& r.baseline_win_rate as int == baseline
            &&& r.win_rate_after_loss as int == wr1
            &&& r.win_rate_after_two_losses as int == wr2
            &&& r.win_rate_after_win as int == rate_of(
                after_win_wins(s, n),
                after_win_count(s, n),
            )
            &&& r.tilt_score as int == score
            &&& r.category == category_of(score)
            &&& r.recommended_stop == (match recommended_stop_of(s, n, baseline) {
                Some(k) => Some(k as i64),
                None => None::<i64>,
            })
            &&& r.streak_stats@.len() == 4
            &&& forall|k: int| 0 <= k < 4 ==> ({
                let st = #[trigger] r.streak_stats.deep_view()[k];
                &&& st.losses == k + 1
                &&& st.samples == sample_count(s, k + 1, n)
                &&& st.win_rate == rate_of(sample_wins(s, k + 1, n), sample_count(s, k + 1, n))
                &&& st.avg_pnl == crate::metrics::div_trunc_or_zero(
                    sample_pnl(s, k + 1, n),
                    sample_count(s, k + 1, n),
                )
            })
        }),
{
    let n = pairs.len();
    if n < 10 {
        return TiltStats {
            category: TiltCategory::InsufficientData,
            baseline_win_rate: 0,
            win_rate_after_loss: 0,
            win_rate_after_win: 0,
            win_rate_after_two_losses: 0,
            streak_stats: Vec::new(),
            recommended_stop: None,
            tilt_score: 0,
        };
    }
    let sorted = sort_pairs_by_exit(pairs);
    let ghost s = sorted.deep_view();
    let (all_wins, all_losses, _net, _profit, loss_abs, _fees) =
        crate::metrics::pair_scalar_sums(&sorted);
    let baseline = rate_exec(all_wins, n as i64);
    let (s1, w1, l1, p1) = streak_sample_stats(&sorted, 1);
    let (s2, w2, _l2, p2) = streak_sample_stats(&sorted, 2);
    let (s3, w3, _l3, p3) = streak_sample_stats(&sorted, 3);
    let (s4, w4, _l4, p4) = streak_sample_stats(&sorted, 4);
    let (aw_samples, aw_wins) = after_win_stats(&sorted);
    let wr1 = rate_exec(w1, s1);
    let wr2 = rate_exec(w2, s2);
    let wr3 = rate_exec(w3, s3);
    let wr4 = rate_exec(w4, s4);
    let wr_after_win = rate_exec(aw_wins, aw_samples);
    let avg1 = crate::metrics::div_trunc(p1, s1 as i128);
    let avg2 = crate::metrics::div_trunc(p2, s2 as i128);
    let avg3 = crate::metrics::div_trunc(p3, s3 as i128);
    let avg4 = crate::metrics::div_trunc(p4, s4 as i128);
    let avg_loss_all = crate::metrics::div_nonneg(loss_abs, all_losses as i128);
    let chain = rate_exec(l1, s1);
    let mut streak_stats: Vec<StreakTiltStat> = Vec::new();
    streak_stats.push(StreakTiltStat { losses: 1, samples: s1, win_rate: wr1, avg_pnl: avg1 });
    streak_stats.push(StreakTiltStat { losses: 2, samples: s2, win_rate: wr2, avg_pnl: avg2 });
    streak_stats.push(StreakTiltStat { losses: 3, samples: s3, win_rate: wr3, avg_pnl: avg3 });
    streak_stats.push(StreakTiltStat { losses: 4, samples: s4, win_rate: wr4, avg_pnl: avg4 });
    let recommended_stop: Option<i64> = if s1 >= 20 && baseline - wr1 >= 1_500 && avg1 < 0 {
        Some(1)
    } else if s2 >= 20 && baseline - wr2 >= 1_500 && avg2 < 0 {
        Some(2)
    } else if s3 >= 20 && baseline - wr3 >= 1_500 && avg3 < 0 {
        Some(3)
    } else if s4 >= 20 && baseline - wr4 >= 1_500 && avg4 < 0 {
        Some(4)
    } else {
        None
    };
    let sev1 = clamp_bp_exec((baseline as i128 - wr1 as i128) * 2);
    let sev2 = clamp_bp_exec((baseline as i128 - wr2 as i128) * 2);
    let m1: i128 = if avg1 < 0 {
        -avg1
    } else {
        0
    };
    let sev3: i128 = if avg_loss_all > 0 {
        proof {
            assert(0 <= m1 as int <= (MAX_PAIR_COUNT as int) * (NET_BOUND as int));
            assert(0 < avg_loss_all as int <= (MAX_PAIR_COUNT as int) * (NET_BOUND as int));
        }
        if m1 <= avg_loss_all {
            proof {
                let num = ((m1 as int) - (avg_loss_all as int)) * 10_000;
                assert(num <= 0);
                vstd::arithmetic::div_mod::lemma_div_is_ordered(num, 0, avg_loss_all as int);
                vstd::arithmetic::div_mod::lemma_div_of0(avg_loss_all as int);
                assert(clamp_bp(num / (avg_loss_all as int)) == 0);
            }
            0
        } else {
            let over = m1 - avg_loss_all;
            let sc = (((over as u128) * 10_000) / (avg_loss_all as u128)) as i128;
            proof {
                vstd::arithmetic::div_mod::lemma_div_pos_is_pos(
                    (over as int) * 10_000,
                    avg_loss_all as int,
                );
            }
            if sc > 10_000 {
                10_000
            } else {
                sc
            }
        }
    } else {
        0
    };
    let sev4 = clamp_bp_exec(chain as i128);
    let score = (((sev1 * 3 + sev2 * 3 + sev3 * 2 + sev4 * 2) as u128) / 10) as i64;
    let category = if score <= 3_000 {
        TiltCategory::CalmDisciplined
    } else if score <= 7_000 {
        TiltCategory::ModerateTiltRisk
    } else {
        TiltCategory::HighTilt
    };
    TiltStats {
        category,
        baseline_win_rate: baseline,
        win_rate_after_loss: wr1,
        win_rate_after_win: wr_after_win,
        win_rate_after_two_losses: wr2,
        streak_stats,
        recommended_stop,
        tilt_score: score,
    }
}

/// Clamp to the basis-point severity range.
fn clamp_bp_exec(x: i128) -> (r: i128)
    requires
        -100_000_000_000_000 <= x <= 100_000_000_000_000,
    ensures
        r as int == clamp_bp(x as int),
        0 <= r <= 10_000,
{
    if x < 0 {
        0
    } else if x > 10_000 {
        10_000
    } else {
        x
    }
}

} // verus!
