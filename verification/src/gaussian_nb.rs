//! The Gaussian Naive Bayes model: per-class running statistics, the
//! hyperparameter with its validation, and the bookkeeping that a fit pass
//! performs on the class table.
//!
//! Every scalar with floating semantics (the smoothing hyperparameter, a
//! prior, a mean or a variance entry) is held as its binary64 bit pattern in
//! a `u64`.  The table maps each class label to its statistics; it is kept
//! sorted by label, so the enumeration order of classes is the labels' total
//! order and nothing depends on insertion order.

use vstd::prelude::*;

use crate::bits64::is_negative;
use crate::error::NaiveBayesError;

verus! {

/// The bit pattern of the default variance-smoothing factor, one part in a
/// thousand million.
pub const DEFAULT_VAR_SMOOTHING: u64 = 0x3E11_2E0B_E826_D695;

/// The one hyperparameter: a multiplicative variance-smoothing factor, as a
/// binary64 bit pattern.
#[derive(Clone, Copy, Debug, PartialEq, Eq, Structural)]
pub struct GaussianNbParams {
    pub var_smoothing: u64,
}

impl GaussianNbParams {
    pub fn new(var_smoothing: u64) -> (r: GaussianNbParams)
        ensures
            r.var_smoothing == var_smoothing,
    {
        GaussianNbParams { var_smoothing }
    }

    /// Validation of the smoothing factor: accepted exactly when it is not
    /// strictly negative; a strictly negative value is surfaced as
    /// `InvalidSmoothing` carrying the offending bit pattern.
    pub fn check_ref(&self) -> (r: Result<(), NaiveBayesError>)
        ensures
            r is Ok <==> !is_negative(self.var_smoothing),
            !(r is Ok) ==> r == Result::<(), NaiveBayesError>::Err(
                NaiveBayesError::InvalidSmoothing(self.var_smoothing),
            ),
    {
        if crate::bits64::is_negative_bits(self.var_smoothing) {
            Err(NaiveBayesError::InvalidSmoothing(self.var_smoothing))
        } else {
            Ok(())
        }
    }
}

/// The running statistics of one class: how many rows of it have been seen,
/// its prior, and the per-feature mean and variance, the latter three as
/// binary64 bit patterns.
#[derive(Clone, Debug)]
pub struct GaussianClassInfo {
    pub class_count: usize,
    pub prior: u64,
    pub theta: Vec<u64>,
    pub sigma: Vec<u64>,
}

/// A fitted (or partially fitted) Gaussian Naive Bayes model: one
/// `GaussianClassInfo` per class label seen so far, the labels kept sorted.
#[derive(Clone, Debug)]
pub struct GaussianNb {
    pub n_features: usize,
    pub classes: Vec<u64>,
    pub infos: Vec<GaussianClassInfo>,
}

impl GaussianNb {
    /// The table's invariant: one statistics record per class, labels
    /// strictly sorted, and every mean and variance vector exactly one entry
    /// per feature.
    pub open spec fn wf(&self) -> bool {
        &&& crate::base_nb::sorted_strict(self.classes@)
        &&& self.infos@.len() == self.classes@.len()
        &&& forall|i: int|
            0 <= i < self.infos@.len() ==> (#[trigger] self.infos@[i]).theta@.len()
                == self.n_features
        &&& forall|i: int|
            0 <= i < self.infos@.len() ==> (#[trigger] self.infos@[i]).sigma@.len()
                == self.n_features
    }

    /// An empty model over a fixed feature count: no class seen yet.
    pub fn new(n_features: usize) -> (r: GaussianNb)
        ensures
            r.wf(),
            r.n_features == n_features,
            r.classes@ == Seq::<u64>::empty(),
            r.infos@ == Seq::<GaussianClassInfo>::empty(),
    {
        GaussianNb { n_features, classes: Vec::new(), infos: Vec::new() }
    }

    /// Hyperparameters with the default smoothing factor.
    pub fn params() -> (r: GaussianNbParams)
        ensures
            r.var_smoothing == DEFAULT_VAR_SMOOTHING,
    {
        GaussianNbParams { var_smoothing: DEFAULT_VAR_SMOOTHING }
    }

    /// The position of `class` in the table: `Some` exactly when the class
    /// has been seen, and then the one index holding it.
    pub fn class_index(&self, class: u64) -> (r: Option<usize>)
        ensures
            r matches Some(i) ==> i < self.classes@.len() && self.classes@[i as int] == class
                && (forall|k: int| 0 <= k < i ==> self.classes@[k] != class),
            r is None <==> !self.classes@.contains(class),
    {
        let mut i: usize = 0;
        while i < self.classes.len()
            invariant
                i <= self.classes@.len(),
                forall|k: int| 0 <= k < i ==> self.classes@[k] != class,
            decreases self.classes@.len() - i,
        {
            if self.classes[i] == class {
                return Some(i);
            }
            i = i + 1;
        }
        proof {
            assert forall|k: int| 0 <= k < self.classes@.len() implies self.classes@[k]
                != class by {}
        }
        None
    }

    /// The index of `class` in the table, the class being added first if it
    /// was never seen: a fresh class starts at zero count, zero prior and
    /// zero mean and variance in every feature, exactly the empty state the
    /// merge step treats as "no information yet".
    pub fn ensure_class(&mut self, class: u64) -> (idx: usize)
        requires
            old(self).wf(),
            old(self).classes@.len() < usize::MAX,
        ensures
            final(self).wf(),
            final(self).n_features == old(self).n_features,
            idx < final(self).classes@.len(),
            final(self).classes@[idx as int] == class,
            old(self).classes@.contains(class) ==> *final(self) == *old(self),
            !old(self).classes@.contains(class) ==> {
                &&& final(self).classes@ == old(self).classes@.insert(idx as int, class)
                &&& final(self).infos@ == old(self).infos@.insert(
                    idx as int,
                    final(self).infos@[idx as int],
                )
                &&& final(self).infos@[idx as int].class_count == 0
                &&& final(self).infos@[idx as int].prior == crate::bits64::POS_ZERO
                &&& final(self).infos@[idx as int].theta@ == zeros(old(self).n_features as nat)
                &&& final(self).infos@[idx as int].sigma@ == zeros(old(self).n_features as nat)
            },
    {
        let ghost prev_classes = self.classes@;
        let ghost prev_infos = self.infos@;
        let val = class;
        let mut pos: usize = 0;
        while pos < self.classes.len() && self.classes[pos] < val
            invariant
                pos <= self.classes@.len(),
                forall|k: int| 0 <= k < pos ==> self.classes@[k] < val,
                self.classes@ == prev_classes,
            decreases self.classes@.len() - pos,
        {
            pos = pos + 1;
        }
        if pos < self.classes.len() && self.classes[pos] == val {
            proof {
                assert(self.classes@.contains(class));
            }
            return pos;
        }
        proof {
            assert forall|k: int| 0 <= k < prev_classes.len() implies prev_classes[k] != class by {
                if k >= pos {
                    assert(prev_classes[pos as int] <= prev_classes[k]);
                }
            }
            assert(!prev_classes.contains(class));
            prev_classes.insert_ensures(pos as int, class);
        }
        let theta = zeroed_vec(self.n_features);
        let sigma = zeroed_vec(self.n_features);
        let info = GaussianClassInfo { class_count: 0, prior: crate::bits64::POS_ZERO, theta, sigma };
        self.classes.insert(pos, val);
        self.infos.insert(pos, info);
        proof {
            assert forall|a: int, b: int| 0 <= a < b < self.classes@.len() implies self.classes@[a]
                < self.classes@[b] by {
                if b < pos {
                    assert(self.classes@[a] == prev_classes[a]);
                    assert(self.classes@[b] == prev_classes[b]);
                } else if b == pos {
                    assert(self.classes@[a] == prev_classes[a] && prev_classes[a] < val);
                } else {
                    assert(self.classes@[b] == prev_classes[b - 1]);
                    assert(pos < prev_classes.len() && prev_classes[pos as int] > val);
                    assert(prev_classes[b - 1] >= prev_classes[pos as int]);
                    if a < pos {
                        assert(self.classes@[a] == prev_classes[a] && prev_classes[a] < val);
                    } else if a == pos {
                        assert(self.classes@[a] == val);
                    } else {
                        assert(self.classes@[a] == prev_classes[a - 1]);
                    }
                }
            }
            assert(self.infos@ =~= prev_infos.insert(pos as int, self.infos@[pos as int]));
        }
        pos
    }
}

/// What the online merge of one class's statistics with a batch subset
/// does, decided by the two counts alone.
#[derive(Clone, Copy, Debug, PartialEq, Eq, Structural)]
pub enum MergeAction {
    /// The subset is empty: no new information, the stored statistics stay.
    KeepOld,
    /// The class had no data yet: the subset's own statistics replace the
    /// empty state.
    TakeNew,
    /// Both sides hold data: the pooled mean and the pooled variance with
    /// the parallel-axis correction combine them.
    Combine,
}

/// The case of the online mean/variance combination that applies when a
/// class with `count_old` stored rows meets a batch subset of `count_new`
/// rows.
pub fn merge_action(count_old: usize, count_new: usize) -> (r: MergeAction)
    ensures
        r == MergeAction::KeepOld <==> count_new == 0,
        r == MergeAction::TakeNew <==> (count_new > 0 && count_old == 0),
        r == MergeAction::Combine <==> (count_new > 0 && count_old > 0),
{
    if count_new == 0 {
        MergeAction::KeepOld
    } else if count_old == 0 {
        MergeAction::TakeNew
    } else {
        MergeAction::Combine
    }
}

impl GaussianNb {
    /// Records the outcome of merging one class's statistics with a batch
    /// subset of `n_new` rows: the caller's combined mean and variance
    /// replace the stored ones and the class count grows by `n_new` — except
    /// that a subset with zero rows carries no new information and leaves
    /// the class's record exactly as it was.
    pub fn update_class(&mut self, idx: usize, n_new: usize, theta_new: Vec<u64>, sigma_new: Vec<u64>)
        requires
            old(self).wf(),
            idx < old(self).infos@.len(),
            n_new > 0 ==> theta_new@.len() == old(self).n_features,
            n_new > 0 ==> sigma_new@.len() == old(self).n_features,
            old(self).infos@[idx as int].class_count + n_new <= usize::MAX,
        ensures
            final(self).wf(),
            final(self).n_features == old(self).n_features,
            final(self).classes@ == old(self).classes@,
            final(self).infos@.len() == old(self).infos@.len(),
            forall|j: int|
                0 <= j < old(self).infos@.len() && j != idx ==> final(self).infos@[j] == old(
                    self,
                ).infos@[j],
            n_new == 0 ==> final(self).infos@[idx as int] == old(self).infos@[idx as int],
            n_new > 0 ==> {
                &&& final(self).infos@[idx as int].class_count == old(self).infos@[
                    idx as int
                ].class_count + n_new
                &&& final(self).infos@[idx as int].prior == old(self).infos@[idx as int].prior
                &&& final(self).infos@[idx as int].theta == theta_new
                &&& final(self).infos@[idx as int].sigma == sigma_new
            },
    {
        if n_new == 0 {
            return;
        }
        let mut info = self.infos.remove(idx);
        info.class_count = info.class_count + n_new;
        info.theta = theta_new;
        info.sigma = sigma_new;
        self.infos.insert(idx, info);
        proof {
            assert(self.infos@ =~= old(self).infos@.update(idx as int, self.infos@[idx as int]));
        }
    }

    /// Replaces one class's stored variance vector, the step that takes the
    /// smoothing epsilon off before a merge and puts it back afterwards.
    /// Nothing else of the model moves.
    pub fn set_sigma(&mut self, idx: usize, sigma: Vec<u64>)
        requires
            old(self).wf(),
            idx < old(self).infos@.len(),
            sigma@.len() == old(self).n_features,
        ensures
            final(self).wf(),
            final(self).n_features == old(self).n_features,
            final(self).classes@ == old(self).classes@,
            final(self).infos@.len() == old(self).infos@.len(),
            forall|j: int|
                0 <= j < old(self).infos@.len() && j != idx ==> final(self).infos@[j] == old(
                    self,
                ).infos@[j],
            final(self).infos@[idx as int].class_count == old(self).infos@[idx as int].class_count,
            final(self).infos@[idx as int].prior == old(self).infos@[idx as int].prior,
            final(self).infos@[idx as int].theta == old(self).infos@[idx as int].theta,
            final(self).infos@[idx as int].sigma == sigma,
    {
        let mut info = self.infos.remove(idx);
        info.sigma = sigma;
        self.infos.insert(idx, info);
        proof {
            assert(self.infos@ =~= old(self).infos@.update(idx as int, self.infos@[idx as int]));
        }
    }

    /// Replaces one class's prior, the last step of a fit pass once every
    /// class count is final.  Nothing else of the model moves.
    pub fn set_prior(&mut self, idx: usize, prior: u64)
        requires
            old(self).wf(),
            idx < old(self).infos@.len(),
        ensures
            final(self).wf(),
            final(self).n_features == old(self).n_features,
            final(self).classes@ == old(self).classes@,
            final(self).infos@.len() == old(self).infos@.len(),
            forall|j: int|
                0 <= j < old(self).infos@.len() && j != idx ==> final(self).infos@[j] == old(
                    self,
                ).infos@[j],
            final(self).infos@[idx as int].class_count == old(self).infos@[idx as int].class_count,
            final(self).infos@[idx as int].prior == prior,
            final(self).infos@[idx as int].theta == old(self).infos@[idx as int].theta,
            final(self).infos@[idx as int].sigma == old(self).infos@[idx as int].sigma,
    {
        let mut info = self.infos.remove(idx);
        info.prior = prior;
        self.infos.insert(idx, info);
        proof {
            assert(self.infos@ =~= old(self).infos@.update(idx as int, self.infos@[idx as int]));
        }
    }

    /// The total number of rows seen across all classes, the denominator of
    /// every prior.  `None` exactly when that total does not fit a `usize`.
    pub fn class_count_sum(&self) -> (r: Option<usize>)
        ensures
            r is Some <==> sum_counts(self.infos@) <= usize::MAX,
            r matches Some(s) ==> s == sum_counts(self.infos@),
    {
        let mut total: usize = 0;
        let mut i: usize = 0;
        while i < self.infos.len()
            invariant
                i <= self.infos@.len(),
                total == sum_counts(self.infos@.take(i as int)),
            decreases self.infos@.len() - i,
        {
            let c = self.infos[i].class_count;
            proof {
                lemma_sum_take_succ(self.infos@, i as int);
            }
            if total > usize::MAX - c {
                proof {
                    lemma_sum_prefix_le(self.infos@, i + 1);
                }
                return None;
            }
            total = total + c;
            i = i + 1;
        }
        proof {
            assert(self.infos@.take(self.infos@.len() as int) =~= self.infos@);
        }
        Some(total)
    }
}

/// The classes' counts added up, from the table's front.
pub open spec fn sum_counts(s: Seq<GaussianClassInfo>) -> int
    decreases s.len(),
{
    if s.len() == 0 {
        0
    } else {
        sum_counts(s.drop_last()) + s.last().class_count
    }
}

proof fn lemma_sum_take_succ(s: Seq<GaussianClassInfo>, i: int)
    requires
        0 <= i < s.len(),
    ensures
        sum_counts(s.take(i + 1)) == sum_counts(s.take(i)) + s[i].class_count,
{
    assert(s.take(i + 1).drop_last() =~= s.take(i));
}

proof fn lemma_sum_prefix_le(s: Seq<GaussianClassInfo>, i: int)
    requires
        0 <= i <= s.len(),
    ensures
        sum_counts(s.take(i)) <= sum_counts(s),
    decreases s.len() - i,
{
    if i == s.len() {
        assert(s.take(i) =~= s);
    } else {
        lemma_sum_take_succ(s, i);
        lemma_sum_prefix_le(s, i + 1);
    }
}

/// A sequence of `n` zero bit patterns: the all-zeros mean or variance of a
/// class that has seen no data.
pub open spec fn zeros(n: nat) -> Seq<u64> {
    Seq::new(n, |i: int| 0u64)
}

fn zeroed_vec(n: usize) -> (r: Vec<u64>)
    ensures
        r@ == zeros(n as nat),
{
    let mut r: Vec<u64> = Vec::new();
    let mut i: usize = 0;
    while i < n
        invariant
            i <= n,
            r@ == zeros(i as nat),
        decreases n - i,
    {
        r.push(0u64);
        proof {
            assert(r@ =~= zeros((i + 1) as nat));
        }
        i = i + 1;
    }
    r
}

} // verus!
