//! The distribution and concentration analyzer: a histogram of per-pair
//! net P&L, mean and median, how concentrated profit and loss are among the
//! top trades, and a stability score derived from those ratios.
//!
//! The histogram's bin count is the number of pairs capped at twenty; the
//! bin width is the value range divided by that count, plus one so it is
//! never zero; bin edges are multiples of the width, so zero is always an
//! edge. The top-`k` share uses `k = round(n * fraction)` clamped between a
//! small-sample floor (3 below 30 trades, else 5) and `n`.

use vstd::prelude::*;

use crate::positions::MAX_PAIR_COUNT;
use crate::trade::NET_BOUND;
use crate::trade::PairModel;
use crate::trade::PairedTrade;
use crate::trade::valid_pairs;

verus! {

/// One histogram bin: the half-open value range `[lower, upper)` and how
/// many pairs fall in it.
#[derive(Debug)]
pub struct HistogramBin {
    pub lower: i128,
    pub upper: i128,
    pub count: i64,
}

/// Mathematical model of a [`HistogramBin`].
#[verifier::ext_equal]
pub struct BinModel {
    pub lower: int,
    pub upper: int,
    pub count: int,
}

impl View for HistogramBin {
    type V = BinModel;

    open spec fn view(&self) -> BinModel {
        BinModel {
            lower: self.lower as int,
            upper: self.upper as int,
            count: self.count as int,
        }
    }
}

impl DeepView for HistogramBin {
    type V = BinModel;

    open spec fn deep_view(&self) -> BinModel {
        self.view()
    }
}

/// How concentrated a side of the P&L is among the top trades.
#[derive(Clone, Copy, Debug, PartialEq, Eq, Structural)]
pub enum ConcentrationBand {
    Low,
    Moderate,
    High,
    VeryHigh,
}

/// The band of a concentration ratio in basis points.
pub open spec fn band_of(bp: int) -> ConcentrationBand {
    if bp <= 2_000 {
        ConcentrationBand::Low
    } else if bp <= 4_000 {
        ConcentrationBand::Moderate
    } else if bp <= 7_000 {
        ConcentrationBand::High
    } else {
        ConcentrationBand::VeryHigh
    }
}

/// The distribution report.
#[derive(Debug)]
pub struct DistributionData {
    /// Histogram of per-pair net P&L, ascending by bin range.
    pub histogram: Vec<HistogramBin>,
    /// Mean per-pair net P&L, truncated toward zero; 0 with no pairs.
    pub mean: i128,
    /// Median per-pair net P&L (the lower middle's truncated average for
    /// even counts); 0 with no pairs.
    pub median: i128,
    /// How many top trades the concentration share uses.
    pub top_k: i64,
    /// Winning P&L of the top-`k` trades over all winning P&L, basis
    /// points; 0 with no winning P&L.
    pub profit_concentration: i128,
    /// Losing P&L of the bottom-`k` trades over all losing P&L, basis
    /// points; 0 with no losing P&L.
    pub loss_concentration: i128,
    /// Stability score in `[0, 100]`: 100 minus weighted penalties for
    /// profit concentration over 40%, loss concentration over 40%, and
    /// mean/median divergence, weighted 50/30/20.
    pub stability_score: i64,
    pub profit_band: ConcentrationBand,
    pub loss_band: ConcentrationBand,
}

/// The per-pair net P&L values, in pair order.
pub open spec fn net_values(ps: Seq<PairModel>) -> Seq<int> {
    ps.map_values(|p: PairModel| p.net_profit_loss)
}

/// The mathematical values of a machine-integer sequence.
pub open spec fn ints_of(s: Seq<i128>) -> Seq<int> {
    s.map_values(|x: i128| x as int)
}

/// Insert a value behind every value at or above it: descending order.
pub open spec fn insert_desc(v: int, s: Seq<int>) -> Seq<int>
    decreases s.len(),
{
    if s.len() == 0 {
        seq![v]
    } else if s.last() >= v {
        s.push(v)
    } else {
        insert_desc(v, s.drop_last()).push(s.last())
    }
}

/// Stable sort descending.
pub open spec fn sort_desc(s: Seq<int>) -> Seq<int>
    decreases s.len(),
{
    if s.len() == 0 {
        Seq::empty()
    } else {
        insert_desc(s.last(), sort_desc(s.drop_last()))
    }
}

/// Sum of a value sequence.
pub open spec fn sum_values(s: Seq<int>) -> int
    decreases s.len(),
{
    if s.len() == 0 {
        0
    } else {
        sum_values(s.drop_last()) + s.last()
    }
}

/// Sum of the positive values.
pub open spec fn sum_pos(s: Seq<int>) -> int
    decreases s.len(),
{
    if s.len() == 0 {
        0
    } else {
        sum_pos(s.drop_last()) + (if s.last() > 0 {
            s.last()
        } else {
            0
        })
    }
}

/// Sum of the negative values' magnitudes.
pub open spec fn sum_neg_abs(s: Seq<int>) -> int
    decreases s.len(),
{
    if s.len() == 0 {
        0
    } else {
        sum_neg_abs(s.drop_last()) + (if s.last() < 0 {
            -s.last()
        } else {
            0
        })
    }
}

/// Number of values in the half-open range `[lo, lo + width)`.
pub open spec fn count_in_bin(s: Seq<int>, lo: int, width: int) -> int
    decreases s.len(),
{
    if s.len() == 0 {
        0
    } else {
        count_in_bin(s.drop_last(), lo, width) + (if lo <= s.last() < lo + width {
            1int
        } else {
            0
        })
    }
}

/// The top-`k` sample size: `round(n * fraction)` clamped between the
/// small-sample floor and `n`.
pub open spec fn top_k_of(n: int, concentration_bp: int) -> int {
    let min_abs: int = if n < 30 {
        3
    } else {
        5
    };
    let k = (n * concentration_bp + 5_000) / 10_000;
    let k2 = if k < min_abs {
        min_abs
    } else {
        k
    };
    if k2 > n {
        n
    } else {
        k2
    }
}

/// A severity in basis points: how far `bp` sits above `threshold`,
/// scaled so that `threshold + span` is full severity, clamped to
/// `[0, 10000]`.
pub open spec fn severity_above(bp: int, threshold: int, span: int) -> int {
    let over = bp - threshold;
    if over <= 0 {
        0
    } else {
        let scaled = over * 10_000 / span;
        if scaled > 10_000 {
            10_000
        } else {
            scaled
        }
    }
}

/// The smaller of two integers.
pub open spec fn min_spec(a: int, b: int) -> int {
    if a < b {
        a
    } else {
        b
    }
}

/// The stability score: 100 minus the weighted severities of profit
/// concentration over 40%, loss concentration over 40%, and mean/median
/// divergence relative to the larger magnitude, weighted 50/30/20.
pub open spec fn stability_of(pc_bp: int, lc_bp: int, mean: int, median: int) -> int {
    let sev_p = severity_above(pc_bp, 4_000, 6_000);
    let sev_l = severity_above(lc_bp, 4_000, 6_000);
    let m1 = if mean >= 0 {
        mean
    } else {
        -mean
    };
    let m2 = if median >= 0 {
        median
    } else {
        -median
    };
    let big = if m1 > m2 {
        m1
    } else {
        m2
    };
    let diff0 = mean - median;
    let diff = if diff0 >= 0 {
        diff0
    } else {
        -diff0
    };
    let sev_d = if big > 0 {
        min_spec(diff * 10_000 / big, 10_000)
    } else {
        0
    };
    let penalty = (sev_p * 50 + sev_l * 30 + sev_d * 20) / 10_000;
    100 - penalty
}

/// The histogram's bin width: the value range over the bin count, plus one
/// so it is never zero.
pub open spec fn hist_width(desc: Seq<int>) -> int {
    let n = desc.len() as int;
    let bins = min_spec(20, n);
    (desc[0] - desc[n - 1]) / bins + 1
}

/// The histogram's first edge: the largest multiple of the width at or
/// below the smallest value (so zero is always an edge).
pub open spec fn hist_start(desc: Seq<int>) -> int {
    let n = desc.len() as int;
    let w = hist_width(desc);
    w * (desc[n - 1] / w)
}

/// The histogram's bin count: enough bins to reach the largest value,
/// capped at 22 (the bin-count cap plus the two edge bins the alignment
/// can add).
pub open spec fn hist_bins(desc: Seq<int>) -> int {
    min_spec((desc[0] - hist_start(desc)) / hist_width(desc) + 1, 22)
}

/// `insert_desc` splices its value at the boundary position.
proof fn lemma_insert_desc_at(v: int, s: Seq<int>, pos: int)
    requires
        0 <= pos <= s.len(),
        forall|j: int| pos <= j < s.len() ==> #[trigger] s[j] < v,
        pos > 0 ==> s[pos - 1] >= v,
    ensures
        insert_desc(v, s) == s.subrange(0, pos) + seq![v] + s.subrange(pos, s.len() as int),
    decreases s.len(),
{
    if s.len() == 0 {
        assert(insert_desc(v, s) =~= s.subrange(0, 0) + seq![v] + s.subrange(0, 0));
    } else if pos == s.len() {
        assert(insert_desc(v, s) =~= s.subrange(0, pos) + seq![v] + s.subrange(
            pos,
            s.len() as int,
        ));
    } else {
        assert(s[s.len() - 1] < v);
        lemma_insert_desc_at(v, s.drop_last(), pos);
        assert((s.drop_last().subrange(0, pos) + seq![v] + s.drop_last().subrange(
            pos,
            s.len() - 1,
        )).push(s.last()) =~= s.subrange(0, pos) + seq![v] + s.subrange(pos, s.len() as int));
    }
}

/// Insert one value into a descending vector, behind every value at or
/// above it.
fn insert_value_desc(out: &mut Vec<i128>, v: i128)
    ensures
        ints_of(final(out)@) == insert_desc(v as int, ints_of(old(out)@)),
        final(out)@.len() == old(out)@.len() + 1,
{
    let mut pos: usize = out.len();
    while pos > 0 && out[pos - 1] < v
        invariant
            pos <= out@.len(),
            forall|j: int| pos <= j < out@.len() ==> #[trigger] ints_of(out@)[j] < v as int,
        decreases pos,
    {
        pos = pos - 1;
    }
    proof {
        lemma_insert_desc_at(v as int, ints_of(out@), pos as int);
    }
    let ghost before = ints_of(out@);
    out.insert(pos, v);
    proof {
        assert(ints_of(out@) =~= before.subrange(0, pos as int) + seq![v as int]
            + before.subrange(pos as int, before.len() as int));
    }
}

/// Floor division by a positive divisor.
fn div_floor(a: i128, b: i128) -> (r: i128)
    requires
        b > 0,
        -2 * NET_BOUND <= a <= 2 * NET_BOUND,
        b <= 2 * NET_BOUND + 1,
    ensures
        r as int == a as int / b as int,
{
    if a >= 0 {
        ((a as u128) / (b as u128)) as i128
    } else {
        let m = -a;
        let q = (((m as u128) + (b as u128) - 1) / (b as u128)) as i128;
        proof {
            lemma_div_floor_neg(m as int, b as int);
        }
        -q
    }
}

/// Euclidean division of a negative value by a positive divisor, via the
/// ceiling of the magnitude's quotient.
proof fn lemma_div_floor_neg(m: int, b: int)
    requires
        m > 0,
        b > 0,
    ensures
        (-m) / b == -((m + b - 1) / b),
{
    let q = (-m) / b;
    let r = (-m) % b;
    vstd::arithmetic::div_mod::lemma_fundamental_div_mod(-m, b);
    vstd::arithmetic::div_mod::lemma_mod_bound(-m, b);
    assert(m + b - 1 == (-q) * b + (b - 1 - r)) by (nonlinear_arith)
        requires
            -m == b * q + r,
    ;
    vstd::arithmetic::div_mod::lemma_fundamental_div_mod_converse(m + b - 1, b, -q, b - 1 - r);
}

/// Median of the descending values: the middle for odd counts, the
/// truncated average of the two middles for even counts, 0 with none.
pub open spec fn median_of(desc: Seq<int>) -> int {
    let n = desc.len() as int;
    if n == 0 {
        0
    } else if n % 2 == 1 {
        desc[n / 2]
    } else {
        let a = desc[n / 2];
        let b = desc[n / 2 - 1];
        if a + b >= 0 {
            (a + b) / 2
        } else {
            -((-(a + b)) / 2)
        }
    }
}

/// The whole report as a function of the pairs and the fraction.
pub open spec fn distribution_model(ps: Seq<PairModel>, concentration_bp: int) -> (
    int,
    int,
    int,
    int,
    int,
    int,
) {
    let vals = net_values(ps);
    let desc = sort_desc(vals);
    let n = ps.len() as int;
    let mean = crate::metrics::div_trunc_or_zero(sum_values(vals), n);
    let median = median_of(desc);
    let k = if n == 0 {
        0
    } else {
        top_k_of(n, concentration_bp)
    };
    let pc = if sum_pos(vals) > 0 {
        sum_pos(desc.take(k)) * 10_000 / sum_pos(vals)
    } else {
        0
    };
    let lc = if sum_neg_abs(vals) > 0 {
        sum_neg_abs(desc.skip(n - k)) * 10_000 / sum_neg_abs(vals)
    } else {
        0
    };
    (mean, median, k, pc, lc, stability_of(pc, lc, mean, median))
}

/// Every value of an insertion result is the inserted value or one of the
/// original sequence.
proof fn lemma_insert_desc_membership(v: int, s: Seq<int>)
    ensures
        forall|i: int| 0 <= i < insert_desc(v, s).len() ==> insert_desc(v, s)[i] == v
            || s.contains(#[trigger] insert_desc(v, s)[i]),
    decreases s.len(),
{
    if s.len() == 0 {
    } else if s.last() >= v {
        assert forall|i: int| 0 <= i < s.push(v).len() implies s.push(v)[i] == v || s.contains(
            #[trigger] s.push(v)[i],
        ) by {
            if i < s.len() {
                assert(s[i] == s.push(v)[i]);
            }
        }
    } else {
        lemma_insert_desc_membership(v, s.drop_last());
        let inner = insert_desc(v, s.drop_last());
        assert forall|i: int| 0 <= i < inner.push(s.last()).len() implies inner.push(s.last())[i]
            == v || s.contains(#[trigger] inner.push(s.last())[i]) by {
            let x = inner.push(s.last())[i];
            if i < inner.len() {
                assert(inner[i] == x);
                if x != v {
                    assert(s.drop_last().contains(x));
                    let w = choose|w: int| 0 <= w < s.drop_last().len() && s.drop_last()[w] == x;
                    assert(s[w] == x);
                }
            } else {
                assert(x == s.last());
                assert(s[s.len() - 1] == x);
            }
        }
    }
}

/// Values within the bound stay within it through the descending sort.
proof fn lemma_sort_desc_bounded(s: Seq<int>, b: int)
    requires
        forall|i: int| 0 <= i < s.len() ==> -b <= #[trigger] s[i] <= b,
    ensures
        forall|i: int| 0 <= i < sort_desc(s).len() ==> -b <= #[trigger] sort_desc(s)[i] <= b,
    decreases s.len(),
{
    if s.len() > 0 {
        assert(forall|i: int| 0 <= i < s.len() - 1 ==> -b <= #[trigger] s.drop_last()[i] <= b) by {
            assert(forall|i: int| 0 <= i < s.len() - 1 ==> s.drop_last()[i] == s[i]);
        }
        lemma_sort_desc_bounded(s.drop_last(), b);
        lemma_insert_desc_membership(s.last(), sort_desc(s.drop_last()));
        let inner = sort_desc(s.drop_last());
        assert forall|i: int| 0 <= i < sort_desc(s).len() implies -b <= #[trigger] sort_desc(
            s,
        )[i] <= b by {
            let x = sort_desc(s)[i];
            assert(x == s.last() || inner.contains(x));
            if x != s.last() {
                let w = choose|w: int| 0 <= w < inner.len() && inner[w] == x;
            }
        }
    }
}

/// Descending order of the sorted values.
proof fn lemma_insert_desc_sorted(v: int, s: Seq<int>)
    requires
        forall|i: int, j: int| 0 <= i <= j < s.len() ==> #[trigger] s[i] >= #[trigger] s[j],
    ensures
        forall|i: int, j: int| 0 <= i <= j < insert_desc(v, s).len() ==> #[trigger] insert_desc(
            v,
            s,
        )[i] >= #[trigger] insert_desc(v, s)[j],
    decreases s.len(),
{
    if s.len() == 0 {
    } else if s.last() >= v {
        let r = s.push(v);
        assert forall|i: int, j: int| 0 <= i <= j < r.len() implies #[trigger] r[i]
            >= #[trigger] r[j] by {
            if j < s.len() {
                assert(r[i] == s[i] && r[j] == s[j]);
            } else if i < s.len() {
                assert(r[i] == s[i] && r[j] == v);
                assert(s[i] >= s[s.len() - 1]);
            }
        }
    } else {
        assert(forall|i: int, j: int| 0 <= i <= j < s.len() - 1 ==> #[trigger] s.drop_last()[i]
            >= #[trigger] s.drop_last()[j]) by {
            assert(forall|i: int| 0 <= i < s.len() - 1 ==> s.drop_last()[i] == s[i]);
        }
        lemma_insert_desc_sorted(v, s.drop_last());
        lemma_insert_desc_membership(v, s.drop_last());
        let inner = insert_desc(v, s.drop_last());
        let r = inner.push(s.last());
        assert forall|i: int, j: int| 0 <= i <= j < r.len() implies #[trigger] r[i]
            >= #[trigger] r[j] by {
            if j < inner.len() {
                assert(r[i] == inner[i] && r[j] == inner[j]);
            } else if i < inner.len() {
                assert(r[i] == inner[i] && r[j] == s.last());
                assert(inner[i] == v || s.drop_last().contains(inner[i]));
                if inner[i] != v {
                    let w = choose|w: int| 0 <= w < s.drop_last().len() && s.drop_last()[w]
                        == inner[i];
                    assert(s[w] >= s[s.len() - 1]);
                }
            }
        }
    }
}

/// The descending sort is descending.
proof fn lemma_sort_desc_sorted(s: Seq<int>)
    ensures
        forall|i: int, j: int| 0 <= i <= j < sort_desc(s).len() ==> #[trigger] sort_desc(s)[i]
            >= #[trigger] sort_desc(s)[j],
    decreases s.len(),
{
    if s.len() > 0 {
        lemma_sort_desc_sorted(s.drop_last());
        lemma_insert_desc_sorted(s.last(), sort_desc(s.drop_last()));
    }
}

/// Compute the distribution report of the pairs' net P&L, with the top-`k`
/// fraction given in basis points. Every figure is exactly
/// [`distribution_model`], and the histogram's bins carry exactly the
/// counts of [`count_in_bin`] over the edges of [`hist_start`] and
/// [`hist_width`].
#[verifier::rlimit(100)]
#[verifier::spinoff_prover]
pub fn compute_distribution(pairs: &Vec<PairedTrade>, concentration_bp: u32) -> (r: DistributionData)
    requires
        valid_pairs(pairs.deep_view()),
        pairs@.len() <= MAX_PAIR_COUNT,
        concentration_bp <= 10_000,
    ensures
        ({
            let (mean, median, k, pc, lc, stability) = distribution_model(
                pairs.deep_view(),
                concentration_bp as int,
            );
            &&& r.mean as int == mean
            &&& r.median as int == median
            &&& r.top_k as int == k
            &&& r.profit_concentration as int == pc
            &&& r.loss_concentration as int == lc
            &&& r.stability_score as int == stability
            &&& r.profit_band == band_of(pc)
            &&& r.loss_band == band_of(lc)
        }),
        pairs@.len() == 0 ==> r.histogram@.len() == 0,
        pairs@.len() > 0 ==> ({
            let desc = sort_desc(net_values(pairs.deep_view()));
            let w = hist_width(desc);
            let start = hist_start(desc);
            &&& r.histogram@.len() == hist_bins(desc)
            &&& forall|i: int| 0 <= i < r.histogram@.len()
                ==> (#[trigger] r.histogram.deep_view()[i]) == (BinModel {
                    lower: start + i * w,
                    upper: start + (i + 1) * w,
                    count: count_in_bin(net_values(pairs.deep_view()), start + i * w, w),
                })
        }),
{
    let ghost pv = pairs.deep_view();
    let n = pairs.len();
    let vals = collect_values(pairs);
    let (total, pos, neg_abs) = sums_of_values(&vals);
    let desc = sort_values_desc(&vals);
    proof {
        lemma_sort_desc_bounded(ints_of(vals@), NET_BOUND as int);
    }
    let ghost dm = ints_of(desc@);
    let mean = crate::metrics::div_trunc(total, n as i128);
    let median: i128 = median_exec(&desc);
    let top_k: usize = if n == 0 {
        0
    } else {
        let min_abs: usize = if n < 30 {
            3
        } else {
            5
        };
        proof {
            assert((n as int) * (concentration_bp as int) <= 10_000_000_000) by (nonlinear_arith)
                requires
                    0 <= n as int <= 1_000_000,
                    0 <= concentration_bp as int <= 10_000,
            ;
        }
        let kr = (((n as u128) * (concentration_bp as u128) + 5_000) / 10_000) as usize;
        let k2 = if kr < min_abs {
            min_abs
        } else {
            kr
        };
        if k2 > n {
            n
        } else {
            k2
        }
    };
    let (top_pos, bot_neg) = concentration_sums(&desc, top_k);
    let pc: i128 = if pos > 0 {
        (((top_pos as u128) * 10_000) / (pos as u128)) as i128
    } else {
        0
    };
    let lc: i128 = if neg_abs > 0 {
        (((bot_neg as u128) * 10_000) / (neg_abs as u128)) as i128
    } else {
        0
    };
    let sev_p = severity_exec(pc);
    let sev_l = severity_exec(lc);
    let m1 = if mean >= 0 {
        mean
    } else {
        -mean
    };
    let m2 = if median >= 0 {
        median
    } else {
        -median
    };
    let big = if m1 > m2 {
        m1
    } else {
        m2
    };
    let diff0 = mean - median;
    let diff = if diff0 >= 0 {
        diff0
    } else {
        -diff0
    };
    let sev_d: i128 = if big > 0 {
        let sc = (((diff as u128) * 10_000) / (big as u128)) as i128;
        if sc > 10_000 {
            10_000
        } else {
            sc
        }
    } else {
        0
    };
    let penalty = (((sev_p * 50 + sev_l * 30 + sev_d * 20) as u128) / 10_000) as i128;
    let stability = (100 - penalty) as i64;
    let histogram: Vec<HistogramBin> = if n > 0 {
        build_histogram(&vals, &desc)
    } else {
        Vec::new()
    };
    proof {
        let t = distribution_model(pv, concentration_bp as int);
        assert(mean as int == t.0);
        assert(median as int == t.1);
        assert(top_k as int == t.2);
        assert(pc as int == t.3);
        assert(lc as int == t.4);
        assert(sev_p as int == severity_above(pc as int, 4_000, 6_000));
        assert(sev_l as int == severity_above(lc as int, 4_000, 6_000));
        assert(stability as int == t.5);
    }
    DistributionData {
        histogram,
        mean,
        median,
        top_k: top_k as i64,
        profit_concentration: pc,
        loss_concentration: lc,
        stability_score: stability,
        profit_band: band_exec(pc),
        loss_band: band_exec(lc),
    }
}


/// The pairs' net P&L values, in order.
fn collect_values(pairs: &Vec<PairedTrade>) -> (r: Vec<i128>)
    requires
        valid_pairs(pairs.deep_view()),
    ensures
        ints_of(r@) == net_values(pairs.deep_view()),
        r@.len() == pairs@.len(),
        forall|i: int| 0 <= i < r@.len() ==> -(NET_BOUND as int) <= #[trigger] ints_of(r@)[i]
            <= NET_BOUND as int,
{
    let ghost pv = pairs.deep_view();
    let n = pairs.len();
    let mut vals: Vec<i128> = Vec::new();
    let mut k: usize = 0;
    while k < n
        invariant
            n == pv.len(),
            pv == pairs.deep_view(),
            valid_pairs(pv),
            k <= n,
            vals@.len() == k,
            ints_of(vals@) =~= net_values(pv.take(k as int)),
            forall|i: int| 0 <= i < k ==> -(NET_BOUND as int) <= #[trigger] ints_of(vals@)[i]
                <= NET_BOUND as int,
        decreases n - k,
    {
        proof {
            assert(crate::trade::valid_pair_model(pv[k as int]));
        }
        let ghost vals_pre = vals@;
        vals.push(pairs[k].net_profit_loss);
        proof {
            assert(ints_of(vals@) =~= ints_of(vals_pre).push(pv[k as int].net_profit_loss));
            assert(net_values(pv.take(k + 1)) =~= net_values(pv.take(k as int)).push(
                pv[k as int].net_profit_loss,
            ));
            assert(ints_of(vals@) =~= net_values(pv.take(k + 1)));
        }
        k = k + 1;
    }
    proof {
        assert(pv.take(n as int) =~= pv);
        assert(ints_of(vals@) =~= net_values(pv));
    }
    vals
}

/// Total, winning and losing sums of the values.
fn sums_of_values(vals: &Vec<i128>) -> (r: (i128, i128, i128))
    requires
        vals@.len() <= MAX_PAIR_COUNT,
        forall|i: int| 0 <= i < vals@.len() ==> -(NET_BOUND as int) <= #[trigger] ints_of(vals@)[i]
            <= NET_BOUND as int,
    ensures
        r.0 as int == sum_values(ints_of(vals@)),
        r.1 as int == sum_pos(ints_of(vals@)),
        r.2 as int == sum_neg_abs(ints_of(vals@)),
        0 <= r.1 as int <= (vals@.len() as int) * (NET_BOUND as int),
        0 <= r.2 as int <= (vals@.len() as int) * (NET_BOUND as int),
        -(vals@.len() as int) * (NET_BOUND as int) <= r.0 as int <= (vals@.len() as int) * (
        NET_BOUND as int),
{
    let ghost vm = ints_of(vals@);
    let n = vals.len();
    let mut total: i128 = 0;
    let mut pos: i128 = 0;
    let mut neg_abs: i128 = 0;
    let mut q: usize = 0;
    while q < n
        invariant
            n == vm.len(),
            vm == ints_of(vals@),
            n <= MAX_PAIR_COUNT,
            forall|i: int| 0 <= i < vm.len() ==> -(NET_BOUND as int) <= #[trigger] vm[i]
                <= NET_BOUND as int,
            q <= n,
            total as int == sum_values(vm.take(q as int)),
            pos as int == sum_pos(vm.take(q as int)),
            neg_abs as int == sum_neg_abs(vm.take(q as int)),
            -(q as int) * (NET_BOUND as int) <= total as int <= (q as int) * (NET_BOUND as int),
            0 <= pos as int <= (q as int) * (NET_BOUND as int),
            0 <= neg_abs as int <= (q as int) * (NET_BOUND as int),
        decreases n - q,
    {
        proof {
            assert(vm.take(q + 1).drop_last() =~= vm.take(q as int));
            assert(vm.take(q + 1).last() == vm[q as int]);
        }
        let v = vals[q];
        total = total + v;
        if v > 0 {
            pos = pos + v;
        } else if v < 0 {
            neg_abs = neg_abs - v;
        }
        q = q + 1;
    }
    proof {
        assert(vm.take(n as int) =~= vm);
    }
    (total, pos, neg_abs)
}

/// The values in stable descending order.
fn sort_values_desc(vals: &Vec<i128>) -> (r: Vec<i128>)
    ensures
        ints_of(r@) == sort_desc(ints_of(vals@)),
        r@.len() == vals@.len(),
{
    let ghost vm = ints_of(vals@);
    let n = vals.len();
    let mut desc: Vec<i128> = Vec::new();
    let mut s: usize = 0;
    while s < n
        invariant
            n == vm.len(),
            vm == ints_of(vals@),
            s <= n,
            desc@.len() == s,
            ints_of(desc@) == sort_desc(vm.take(s as int)),
        decreases n - s,
    {
        insert_value_desc(&mut desc, vals[s]);
        proof {
            assert(vm.take(s + 1).drop_last() =~= vm.take(s as int));
            assert(vm.take(s + 1).last() == vm[s as int]);
        }
        s = s + 1;
    }
    proof {
        assert(vm.take(n as int) =~= vm);
    }
    desc
}

/// Winning sum of the first `top_k` values and losing magnitude of the
/// last `top_k`, over the descending order.
fn concentration_sums(desc: &Vec<i128>, top_k: usize) -> (r: (i128, i128))
    requires
        top_k <= desc@.len(),
        desc@.len() <= MAX_PAIR_COUNT,
        forall|i: int| 0 <= i < desc@.len() ==> -(NET_BOUND as int) <= #[trigger] ints_of(desc@)[i]
            <= NET_BOUND as int,
    ensures
        r.0 as int == sum_pos(ints_of(desc@).take(top_k as int)),
        r.1 as int == sum_neg_abs(ints_of(desc@).skip(desc@.len() - top_k as int)),
        r.0 >= 0 && r.1 >= 0,
        r.0 as int <= (desc@.len() as int) * (NET_BOUND as int),
        r.1 as int <= (desc@.len() as int) * (NET_BOUND as int),
{
    let ghost dm = ints_of(desc@);
    let n = desc.len();
    let mut top_pos: i128 = 0;
    let mut t: usize = 0;
    while t < top_k
        invariant
            n == dm.len(),
            dm == ints_of(desc@),
            top_k <= n,
            n <= MAX_PAIR_COUNT,
            forall|i: int| 0 <= i < dm.len() ==> -(NET_BOUND as int) <= #[trigger] dm[i]
                <= NET_BOUND as int,
            t <= top_k,
            top_pos as int == sum_pos(dm.take(t as int)),
            0 <= top_pos as int <= (t as int) * (NET_BOUND as int),
        decreases top_k - t,
    {
        proof {
            assert(dm.take(t + 1).drop_last() =~= dm.take(t as int));
            assert(dm.take(t + 1).last() == dm[t as int]);
        }
        let v = desc[t];
        if v > 0 {
            top_pos = top_pos + v;
        }
        t = t + 1;
    }
    let mut bot_neg: i128 = 0;
    let mut u: usize = n - top_k;
    let ghost lo0 = (n - top_k) as int;
    proof {
        assert(dm.subrange(lo0, lo0) =~= Seq::<int>::empty());
    }
    while u < n
        invariant
            n == dm.len(),
            dm == ints_of(desc@),
            top_k <= n,
            n <= MAX_PAIR_COUNT,
            lo0 == (n - top_k) as int,
            forall|i: int| 0 <= i < dm.len() ==> -(NET_BOUND as int) <= #[trigger] dm[i]
                <= NET_BOUND as int,
            lo0 <= u as int <= n,
            bot_neg as int == sum_neg_abs(dm.subrange(lo0, u as int)),
            0 <= bot_neg as int <= (u as int) * (NET_BOUND as int),
        decreases n - u,
    {
        proof {
            assert(dm.subrange(lo0, u + 1).drop_last() =~= dm.subrange(lo0, u as int));
            assert(dm.subrange(lo0, u + 1).last() == dm[u as int]);
        }
        let v = desc[u];
        if v < 0 {
            bot_neg = bot_neg - v;
        }
        u = u + 1;
    }
    proof {
        assert(dm.subrange(lo0, n as int) =~= dm.skip(lo0));
    }
    (top_pos, bot_neg)
}


/// Median of the descending values.
fn median_exec(desc: &Vec<i128>) -> (r: i128)
    requires
        forall|i: int| 0 <= i < desc@.len() ==> -(NET_BOUND as int) <= #[trigger] ints_of(desc@)[i]
            <= NET_BOUND as int,
    ensures
        r as int == median_of(ints_of(desc@)),
        -(NET_BOUND) <= r <= NET_BOUND,
{
    let ghost dm = ints_of(desc@);
    let n = desc.len();
    if n == 0 {
        0
    } else if n % 2 == 1 {
        proof {
            assert(dm[n as int / 2] == desc@[n as int / 2] as int);
        }
        desc[n / 2]
    } else {
        proof {
            assert(dm[n as int / 2] == desc@[n as int / 2] as int);
            assert(dm[n as int / 2 - 1] == desc@[n as int / 2 - 1] as int);
        }
        let a = desc[n / 2];
        let b = desc[n / 2 - 1];
        if a + b >= 0 {
            proof {
                vstd::arithmetic::div_mod::lemma_div_pos_is_pos(a as int + b as int, 2);
                vstd::arithmetic::div_mod::lemma_div_nonincreasing(a as int + b as int, 2);
            }
            (((a + b) as u128) / 2) as i128
        } else {
            proof {
                vstd::arithmetic::div_mod::lemma_div_pos_is_pos(-(a as int + b as int), 2);
                vstd::arithmetic::div_mod::lemma_div_nonincreasing(-(a as int + b as int), 2);
            }
            -((((-(a + b)) as u128) / 2) as i128)
        }
    }
}

/// The severity of a concentration ratio above 40%, full at 100%.
fn severity_exec(bp: i128) -> (r: i128)
    requires
        0 <= bp <= 4_000_000_000_000_000_000_000_000_000_000,
    ensures
        r as int == severity_above(bp as int, 4_000, 6_000),
{
    if bp <= 4_000 {
        0
    } else {
        let over = bp - 4_000;
        let scaled = (((over as u128) * 10_000) / 6_000) as i128;
        if scaled > 10_000 {
            10_000
        } else {
            scaled
        }
    }
}

/// The band of a concentration ratio.
fn band_exec(bp: i128) -> (r: ConcentrationBand)
    ensures
        r == band_of(bp as int),
{
    if bp <= 2_000 {
        ConcentrationBand::Low
    } else if bp <= 4_000 {
        ConcentrationBand::Moderate
    } else if bp <= 7_000 {
        ConcentrationBand::High
    } else {
        ConcentrationBand::VeryHigh
    }
}


/// Build the histogram of the values: bins of [`hist_width`] width from
/// [`hist_start`], each counting the values in its half-open range.
#[verifier::rlimit(100)]
fn build_histogram(vals: &Vec<i128>, desc: &Vec<i128>) -> (r: Vec<HistogramBin>)
    requires
        vals@.len() == desc@.len(),
        vals@.len() > 0,
        vals@.len() <= MAX_PAIR_COUNT,
        ints_of(desc@) == sort_desc(ints_of(vals@)),
        forall|i: int| 0 <= i < vals@.len() ==> -(NET_BOUND as int) <= #[trigger] ints_of(
            vals@,
        )[i] <= NET_BOUND as int,
    ensures
        ({
            let dmm = sort_desc(ints_of(vals@));
            &&& r@.len() == hist_bins(dmm)
            &&& forall|i: int| 0 <= i < r@.len() ==> (#[trigger] r.deep_view()[i]) == (BinModel {
                lower: hist_start(dmm) + i * hist_width(dmm),
                upper: hist_start(dmm) + (i + 1) * hist_width(dmm),
                count: count_in_bin(
                    ints_of(vals@),
                    hist_start(dmm) + i * hist_width(dmm),
                    hist_width(dmm),
                ),
            })
        }),
{
    let ghost vm = ints_of(vals@);
    let ghost dm = ints_of(desc@);
    let n = vals.len();
    proof {
        assert(forall|i: int| 0 <= i < vm.len() ==> -(NET_BOUND as int) <= #[trigger] vm[i]
            <= NET_BOUND as int);
        lemma_sort_desc_bounded(vm, NET_BOUND as int);
        lemma_sort_desc_sorted(vm);
        assert(dm[0] >= dm[n - 1]);
        assert(forall|i: int| 0 <= i < dm.len() ==> -(NET_BOUND as int) <= #[trigger] dm[i]
            <= NET_BOUND as int);
        assert(forall|i: int| 0 <= i < desc@.len() ==> dm[i] == #[trigger] desc@[i] as int);
    }
    let mut histogram: Vec<HistogramBin> = Vec::new();

        let vmax = desc[0];
        let vmin = desc[n - 1];
        let bins: i128 = if n < 20 {
            n as i128
        } else {
            20
        };
        let width = (((vmax - vmin) as u128) / (bins as u128)) as i128 + 1;
        proof {
            vstd::arithmetic::div_mod::lemma_div_pos_is_pos(
                vmax as int - vmin as int,
                bins as int,
            );
            vstd::arithmetic::div_mod::lemma_div_nonincreasing(
                vmax as int - vmin as int,
                bins as int,
            );
        }
        let start_q = div_floor(vmin, width);
        proof {
            vstd::arithmetic::div_mod::lemma_fundamental_div_mod(vmin as int, width as int);
            vstd::arithmetic::div_mod::lemma_mod_bound(vmin as int, width as int);
        }
        let start = vmin - (vmin - width * start_q);
        proof {
            assert(start as int == (width as int) * (vmin as int / width as int));
            assert(start as int == hist_start(dm));
        }
        let span = vmax - start;
        let nb_raw = (((span as u128) / (width as u128)) as i128) + 1;
        let nb: usize = if nb_raw > 22 {
            22
        } else {
            nb_raw as usize
        };
        proof {
            assert(nb as int == hist_bins(dm));
        }
        let mut b: usize = 0;
        while b < nb
            invariant
                n == vm.len(),
                vm == ints_of(vals@),
                n <= MAX_PAIR_COUNT,
                1 <= width as int <= 2 * (NET_BOUND as int) + 1,
                -5 * (NET_BOUND as int) <= start as int <= NET_BOUND as int,
                nb <= 22,
                b <= nb,
                histogram@.len() == b,
                forall|i: int| 0 <= i < b ==> (#[trigger] histogram.deep_view()[i]) == (BinModel {
                    lower: start as int + i * (width as int),
                    upper: start as int + (i + 1) * (width as int),
                    count: count_in_bin(vm, start as int + i * (width as int), width as int),
                }),
            decreases nb - b,
        {
            proof {
                assert(0 <= (b as int) * (width as int) <= 22 * (2 * (NET_BOUND as int) + 1))
                    by (nonlinear_arith)
                    requires
                        0 <= b as int <= 22,
                        1 <= width as int <= 2 * (NET_BOUND as int) + 1,
                ;
            }
            let lower = start + (b as i128) * width;
            let upper = lower + width;
            proof {
                assert(upper as int == lower as int + width as int);
            }
            let mut count: i64 = 0;
            let mut c: usize = 0;
            while c < n
                invariant
                    n == vm.len(),
                    vm == ints_of(vals@),
                    c <= n,
                    0 <= count as int <= c as int,
                    upper as int == lower as int + width as int,
                    count as int == count_in_bin(vm.take(c as int), lower as int, width as int),
                    n <= MAX_PAIR_COUNT,
                decreases n - c,
            {
                proof {
                    assert(vm.take(c + 1).drop_last() =~= vm.take(c as int));
                    assert(vm.take(c + 1).last() == vm[c as int]);
                }
                proof {
                    assert(vm[c as int] == vals@[c as int] as int);
                }
                let v = vals[c];
                if lower <= v && v < upper {
                    count = count + 1;
                }
                proof {
                    assert(count as int == count_in_bin(
                        vm.take(c + 1),
                        lower as int,
                        width as int,
                    ));
                }
                c = c + 1;
            }
            proof {
                assert(vm.take(n as int) =~= vm);
            }
            let ghost hist_before = histogram.deep_view();
            histogram.push(HistogramBin { lower, upper, count });
            proof {
                assert forall|i: int| 0 <= i < b + 1 implies (#[trigger] histogram.deep_view()[i])
                    == (BinModel {
                    lower: start as int + i * (width as int),
                    upper: start as int + (i + 1) * (width as int),
                    count: count_in_bin(vm, start as int + i * (width as int), width as int),
                }) by {
                    if i < b {
                        assert(histogram.deep_view()[i] == hist_before[i]);
                    } else {
                        assert((b as int + 1) * (width as int) == b as int * (width as int)
                            + width as int) by (nonlinear_arith);
                    }
                }
            }
            b = b + 1;
        }
    
    histogram
}

} // verus!
