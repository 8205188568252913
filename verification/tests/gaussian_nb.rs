// End-to-end scenarios: fitting the model in one batch and in chunks,
// prediction, priors, variance signs and tie-breaking.  The floating-point
// arithmetic of a fit lives outside the verified crate, so these tests drive
// it here and hand every decision — validation, filtering, label
// enumeration, merge bookkeeping, arg-max — to the library.

use linfa_bayes::base_nb::{filter, predict_from_jll, unique_labels};
use linfa_bayes::error::NaiveBayesError;
use linfa_bayes::gaussian_nb::{merge_action, GaussianNb, GaussianNbParams, MergeAction};

fn bits_row(row: &[f64]) -> Vec<u64> {
    let mut out: Vec<u64> = Vec::new();
    for v in row {
        out.push(v.to_bits());
    }
    out
}

fn bits_matrix(x: &[Vec<f64>]) -> Vec<Vec<u64>> {
    let mut out: Vec<Vec<u64>> = Vec::new();
    for row in x {
        out.push(bits_row(row));
    }
    out
}

fn floats_row(row: &[u64]) -> Vec<f64> {
    let mut out: Vec<f64> = Vec::new();
    for b in row {
        out.push(f64::from_bits(*b));
    }
    out
}

/// Population mean and variance of each column of `x` (divisor = row count).
fn column_mean_var(x: &[Vec<f64>]) -> (Vec<f64>, Vec<f64>) {
    let n = x.len();
    let d = x[0].len();
    let mut mean: Vec<f64> = vec![0.0; d];
    let mut var: Vec<f64> = vec![0.0; d];
    for row in x {
        for j in 0..d {
            mean[j] += row[j];
        }
    }
    for j in 0..d {
        mean[j] /= n as f64;
    }
    for row in x {
        for j in 0..d {
            let dev = row[j] - mean[j];
            var[j] += dev * dev;
        }
    }
    for j in 0..d {
        var[j] /= n as f64;
    }
    (mean, var)
}

/// One incremental fit pass, driving the library exactly as a caller would:
/// the crate makes every decision, this helper only does the arithmetic.
fn fit_with(
    params: &GaussianNbParams,
    model_in: Option<GaussianNb>,
    x: &[Vec<f64>],
    y: &[u64],
) -> Result<GaussianNb, NaiveBayesError> {
    params.check_ref()?;
    let n_features = if x.is_empty() { 0 } else { x[0].len() };
    let mut model = match model_in {
        Some(m) => m,
        None => GaussianNb::new(n_features),
    };

    // Epsilon: var_smoothing times the largest per-feature variance of the
    // whole batch.
    let epsilon = if x.is_empty() {
        0.0
    } else {
        let (_, var_all) = column_mean_var(x);
        let var_bits = bits_row(&var_all);
        let max = linfa_bayes::base_nb::max_bits(&var_bits).unwrap();
        f64::from_bits(params.var_smoothing) * f64::from_bits(max)
    };

    // Take the previous smoothing off so that it does not accumulate.
    for idx in 0..model.infos.len() {
        let sigma = floats_row(&model.infos[idx].sigma);
        let mut adjusted: Vec<f64> = Vec::new();
        for v in sigma {
            adjusted.push(v - epsilon);
        }
        model.set_sigma(idx, bits_row(&adjusted));
    }

    let xb = bits_matrix(x);
    let yv: Vec<u64> = y.to_vec();
    let yunique = unique_labels(&yv);

    for class in yunique {
        let xclass = filter(&xb, &yv, class);
        let nclass = xclass.len();
        let idx = model.ensure_class(class);
        let count_old = model.infos[idx].class_count;
        let (theta_new, sigma_new): (Vec<u64>, Vec<u64>) =
            match merge_action(count_old, nclass) {
                MergeAction::KeepOld => (Vec::new(), Vec::new()),
                MergeAction::TakeNew => {
                    let rows: Vec<Vec<f64>> =
                        xclass.iter().map(|r| floats_row(r)).collect();
                    let (mu, var) = column_mean_var(&rows);
                    (bits_row(&mu), bits_row(&var))
                }
                MergeAction::Combine => {
                    let rows: Vec<Vec<f64>> =
                        xclass.iter().map(|r| floats_row(r)).collect();
                    let (mu_new, var_new) = column_mean_var(&rows);
                    let mu_old = floats_row(&model.infos[idx].theta);
                    let var_old = floats_row(&model.infos[idx].sigma);
                    let n_old = count_old as f64;
                    let n_new = nclass as f64;
                    let n_total = (count_old + nclass) as f64;
                    let mut mu: Vec<f64> = Vec::new();
                    let mut var: Vec<f64> = Vec::new();
                    for j in 0..mu_new.len() {
                        mu.push((n_new * mu_new[j] + n_old * mu_old[j]) / n_total);
                        let weight = (nclass * count_old) as f64 / n_total;
                        let delta = mu_old[j] - mu_new[j];
                        let ssd =
                            n_old * var_old[j] + n_new * var_new[j] + weight * delta * delta;
                        var.push(ssd / n_total);
                    }
                    (bits_row(&mu), bits_row(&var))
                }
            };
        model.update_class(idx, nclass, theta_new, sigma_new);
    }

    // Put the smoothing back, now over the merged state.
    for idx in 0..model.infos.len() {
        let sigma = floats_row(&model.infos[idx].sigma);
        let mut adjusted: Vec<f64> = Vec::new();
        for v in sigma {
            adjusted.push(v + epsilon);
        }
        model.set_sigma(idx, bits_row(&adjusted));
    }

    // Priors from the verified count sum.
    let total = model.class_count_sum().unwrap();
    for idx in 0..model.infos.len() {
        let count = model.infos[idx].class_count;
        let prior = count as f64 / total as f64;
        model.set_prior(idx, prior.to_bits());
    }

    Ok(model)
}

fn fit(
    params: &GaussianNbParams,
    x: &[Vec<f64>],
    y: &[u64],
) -> Result<GaussianNb, NaiveBayesError> {
    fit_with(params, None, x, y)
}

/// The joint log-likelihood of every class for every row, classes in the
/// model's (sorted) order.
fn joint_log_likelihood(model: &GaussianNb, x: &[Vec<f64>]) -> Vec<(u64, Vec<f64>)> {
    let mut out: Vec<(u64, Vec<f64>)> = Vec::new();
    for idx in 0..model.classes.len() {
        let info = &model.infos[idx];
        let prior = f64::from_bits(info.prior);
        let theta = floats_row(&info.theta);
        let sigma = floats_row(&info.sigma);
        let jointi = prior.ln();
        let mut nij = 0.0;
        for s in &sigma {
            nij += (2.0 * std::f64::consts::PI * s).ln();
        }
        nij = -0.5 * nij;
        let mut col: Vec<f64> = Vec::new();
        for row in x {
            let mut dist = 0.0;
            for j in 0..theta.len() {
                let dev = row[j] - theta[j];
                dist += dev * dev / sigma[j];
            }
            col.push(nij - 0.5 * dist + jointi);
        }
        out.push((model.classes[idx], col));
    }
    out
}

fn predict(model: &GaussianNb, x: &[Vec<f64>]) -> Vec<u64> {
    let jll = joint_log_likelihood(model, x);
    let mut jll_bits: Vec<Vec<u64>> = Vec::new();
    for (_, col) in &jll {
        for v in col {
            assert!(!v.is_nan(), "undefined order in the likelihoods");
        }
        jll_bits.push(bits_row(col));
    }
    predict_from_jll(&model.classes, &jll_bits, x.len())
}

fn scenario() -> (Vec<Vec<f64>>, Vec<u64>) {
    let x = vec![
        vec![-2.0, -1.0],
        vec![-1.0, -1.0],
        vec![-1.0, -2.0],
        vec![1.0, 1.0],
        vec![1.0, 2.0],
        vec![2.0, 1.0],
    ];
    let y: Vec<u64> = vec![1, 1, 1, 2, 2, 2];
    (x, y)
}

fn expected_jll_class1() -> Vec<f64> {
    vec![
        -2.276946847943017,
        -1.5269468546930165,
        -2.276946847943017,
        -25.52694663869301,
        -38.27694652394301,
        -38.27694652394301,
    ]
}

fn expected_jll_class2() -> Vec<f64> {
    vec![
        -38.27694652394301,
        -25.52694663869301,
        -38.27694652394301,
        -1.5269468546930165,
        -2.276946847943017,
        -2.276946847943017,
    ]
}

fn assert_close(a: &[f64], b: &[f64], tol: f64) {
    assert_eq!(a.len(), b.len());
    for j in 0..a.len() {
        assert!((a[j] - b[j]).abs() <= tol, "{} vs {}", a[j], b[j]);
    }
}

#[test]
fn test_gaussian_nb() {
    let (x, y) = scenario();
    let params = GaussianNb::params();
    let fitted_clf = fit(&params, &x, &y).unwrap();
    let pred = predict(&fitted_clf, &x);
    assert_eq!(pred, y);

    let jll = joint_log_likelihood(&fitted_clf, &x);
    assert_eq!(jll.len(), 2);
    assert_eq!(jll[0].0, 1);
    assert_eq!(jll[1].0, 2);
    assert_close(&jll[0].1, &expected_jll_class1(), 1e-6);
    assert_close(&jll[1].1, &expected_jll_class2(), 1e-6);
}

#[test]
fn test_gnb_fit_with() {
    let (x, y) = scenario();
    let params = GaussianNb::params();
    let mut model: Option<GaussianNb> = None;
    for chunk in 0..3 {
        let lo = 2 * chunk;
        let xs = x[lo..lo + 2].to_vec();
        let ys = y[lo..lo + 2].to_vec();
        model = Some(fit_with(&params, model, &xs, &ys).unwrap());
    }
    let model = model.unwrap();

    let pred = predict(&model, &x);
    assert_eq!(pred, y);

    let jll = joint_log_likelihood(&model, &x);
    assert_close(&jll[0].1, &expected_jll_class1(), 1e-6);
    assert_close(&jll[1].1, &expected_jll_class2(), 1e-6);
}

#[test]
fn test_priors_sum_to_one() {
    let (x, y) = scenario();
    let params = GaussianNb::params();
    let model = fit(&params, &x, &y).unwrap();
    let mut sum = 0.0;
    for info in &model.infos {
        sum += f64::from_bits(info.prior);
    }
    assert!((sum - 1.0).abs() <= 1e-9);

    // A second, unbalanced dataset with three classes.
    let x2 = vec![
        vec![0.0, 0.0],
        vec![4.0, 4.0],
        vec![4.0, 5.0],
        vec![9.0, 9.0],
        vec![9.0, 8.0],
        vec![8.0, 9.0],
    ];
    let y2: Vec<u64> = vec![7, 3, 3, 5, 5, 5];
    let model2 = fit(&params, &x2, &y2).unwrap();
    let mut sum2 = 0.0;
    for info in &model2.infos {
        sum2 += f64::from_bits(info.prior);
    }
    assert!((sum2 - 1.0).abs() <= 1e-9);
    assert_eq!(model2.classes, vec![3, 5, 7]);
}

#[test]
fn test_chunked_fit_matches_batch() {
    let (x, y) = scenario();
    let params = GaussianNb::params();
    let whole = fit(&params, &x, &y).unwrap();

    // Uneven chunks: 1 row, 3 rows, 2 rows.
    let mut model: Option<GaussianNb> = None;
    for (lo, hi) in [(0usize, 1usize), (1, 4), (4, 6)] {
        let xs = x[lo..hi].to_vec();
        let ys = y[lo..hi].to_vec();
        model = Some(fit_with(&params, model, &xs, &ys).unwrap());
    }
    let chunked = model.unwrap();

    assert_eq!(whole.classes, chunked.classes);
    for idx in 0..whole.infos.len() {
        assert_eq!(whole.infos[idx].class_count, chunked.infos[idx].class_count);
        assert_close(
            &floats_row(&whole.infos[idx].theta),
            &floats_row(&chunked.infos[idx].theta),
            1e-6,
        );
        assert_close(
            &floats_row(&whole.infos[idx].sigma),
            &floats_row(&chunked.infos[idx].sigma),
            1e-6,
        );
        let p1 = f64::from_bits(whole.infos[idx].prior);
        let p2 = f64::from_bits(chunked.infos[idx].prior);
        assert!((p1 - p2).abs() <= 1e-6);
    }
}

#[test]
fn test_zero_row_class_statistics_unchanged() {
    let (x, y) = scenario();
    let params = GaussianNb::params();
    let model = fit(&params, &x, &y).unwrap();

    // Direct: a zero-row update leaves the class record untouched.
    let mut m = model.clone();
    let before_count = m.infos[1].class_count;
    let before_theta = m.infos[1].theta.clone();
    let before_sigma = m.infos[1].sigma.clone();
    m.update_class(1, 0, Vec::new(), Vec::new());
    assert_eq!(m.infos[1].class_count, before_count);
    assert_eq!(m.infos[1].theta, before_theta);
    assert_eq!(m.infos[1].sigma, before_sigma);

    // Through a fit pass: a batch that mentions only class 1 leaves class
    // 2's count and mean untouched (its variance goes through the epsilon
    // round-trip, a rounding-level move).
    let x_more = vec![vec![-1.5, -1.0], vec![-2.0, -2.0]];
    let y_more: Vec<u64> = vec![1, 1];
    let refit = fit_with(&params, Some(model.clone()), &x_more, &y_more).unwrap();
    assert_eq!(refit.infos[1].class_count, model.infos[1].class_count);
    assert_eq!(refit.infos[1].theta, model.infos[1].theta);
    assert_close(
        &floats_row(&refit.infos[1].sigma),
        &floats_row(&model.infos[1].sigma),
        1e-9,
    );
}

#[test]
fn test_negative_smoothing_rejected() {
    let bad = GaussianNbParams::new((-1e-9f64).to_bits());
    let r = bad.check_ref();
    assert_eq!(r, Err(NaiveBayesError::InvalidSmoothing((-1e-9f64).to_bits())));

    // The failure does not depend on the feature matrix's shape.
    let (x, y) = scenario();
    assert!(fit(&bad, &x, &y).is_err());
    let x1 = vec![vec![3.0]];
    let y1: Vec<u64> = vec![0];
    assert!(fit(&bad, &x1, &y1).is_err());

    // Not strictly negative: accepted.
    assert!(GaussianNbParams::new(0.0f64.to_bits()).check_ref().is_ok());
    assert!(GaussianNbParams::new((-0.0f64).to_bits()).check_ref().is_ok());
}

#[test]
fn test_variances_nonnegative() {
    let (x, y) = scenario();
    let params = GaussianNb::params();
    let whole = fit(&params, &x, &y).unwrap();
    let mut model: Option<GaussianNb> = None;
    for chunk in 0..3 {
        let lo = 2 * chunk;
        model = Some(
            fit_with(&params, model, &x[lo..lo + 2].to_vec(), &y[lo..lo + 2].to_vec()).unwrap(),
        );
    }
    let chunked = model.unwrap();
    for m in [&whole, &chunked] {
        for info in &m.infos {
            for b in &info.sigma {
                assert!(f64::from_bits(*b) >= 0.0);
            }
        }
    }
}

#[test]
fn test_empty_batch_is_a_no_op() {
    let (x, y) = scenario();
    let params = GaussianNb::params();
    let model = fit(&params, &x, &y).unwrap();
    let empty_x: Vec<Vec<f64>> = Vec::new();
    let empty_y: Vec<u64> = Vec::new();
    let refit = fit_with(&params, Some(model.clone()), &empty_x, &empty_y).unwrap();
    assert_eq!(refit.classes, model.classes);
    for idx in 0..model.infos.len() {
        assert_eq!(refit.infos[idx].class_count, model.infos[idx].class_count);
        assert_eq!(refit.infos[idx].theta, model.infos[idx].theta);
        assert_eq!(refit.infos[idx].sigma, model.infos[idx].sigma);
        assert_eq!(refit.infos[idx].prior, model.infos[idx].prior);
    }
}

#[test]
fn test_tie_break_deterministic() {
    // Two classes with identical priors, means and variances.
    let mut model = GaussianNb::new(2);
    for class in [4u64, 9u64] {
        let idx = model.ensure_class(class);
        model.update_class(
            idx,
            3,
            bits_row(&[0.5, 0.5]),
            bits_row(&[1.0, 1.0]),
        );
        model.set_prior(idx, 0.5f64.to_bits());
    }
    let x = vec![vec![0.0, 0.0], vec![2.0, -1.0], vec![0.5, 0.5]];
    let first = predict(&model, &x);
    let second = predict(&model, &x);
    assert_eq!(first, second);
    // Always the smaller label of the tied pair.
    assert_eq!(first, vec![4, 4, 4]);
}
