use mnemos::double::Double;
use mnemos::edge_weights::{
    clamp_weight, moved_weights, AdamStep, EdgeWeights, IDX_CONTRADICTS, IDX_RECALLS,
    IDX_RECURRENT,
};

fn double(x: f64) -> Double {
    Double { bits: x.to_bits() }
}

fn value(d: Double) -> f64 {
    f64::from_bits(d.bits)
}

fn values(w: &EdgeWeights) -> Vec<f64> {
    w.as_array().iter().map(|d| value(*d)).collect()
}

/// One step of the optimizer for every weight.
fn steps(w: &EdgeWeights, attributions: &[f64; 8], reward: f64) -> Vec<AdamStep> {
    let t = (w.t + 1) as f64;
    let mut out = Vec::new();
    for i in 0..8 {
        let g = reward * attributions[i];
        let m = 0.9 * value(w.m[i]) + 0.1 * g;
        let v = 0.999 * value(w.v[i]) + 0.001 * g * g;
        let m_hat = m / (1.0 - 0.9f64.powf(t));
        let v_hat = v / (1.0 - 0.999f64.powf(t));
        let weight = value(w.weight(i)) + 0.01 * m_hat / (v_hat.sqrt() + 1e-8);
        out.push(AdamStep { m: double(m), v: double(v), weight: double(weight) });
    }
    out
}

fn reward(w: &mut EdgeWeights, attributions: &[f64; 8], score: f64) {
    let taken = steps(w, attributions, score);
    let list: Vec<Double> = attributions.iter().map(|a| double(*a)).collect();
    w.adam_update(&list, double(score), &taken);
}

#[test]
fn defaults_match_spec() {
    let w = EdgeWeights::defaults();
    assert_eq!(values(&w), [0.70, 0.50, 0.60, 0.30, -0.40, 0.20, 0.45, 0.35]);
}

#[test]
fn zero_reward_is_noop() {
    let mut w = EdgeWeights::defaults();
    reward(&mut w, &[1.0; 8], 0.0);
    assert_eq!(values(&w), values(&EdgeWeights::defaults()));
    assert_eq!(w.t, 0);
}

#[test]
fn positive_reward_pushes_active_weight_up() {
    let mut w = EdgeWeights::defaults();
    let mut attr = [0.0; 8];
    attr[IDX_RECALLS] = 0.5;
    reward(&mut w, &attr, 1.0);
    assert!(value(w.recalls) > 0.70);
    // untouched weights stay put
    assert_eq!(value(w.abstracts_to), 0.50);
    assert_eq!(w.t, 1);
}

#[test]
fn contradicts_stays_negative() {
    let mut w = EdgeWeights::defaults();
    let mut attr = [0.0; 8];
    attr[IDX_CONTRADICTS] = 1.0;
    for _ in 0..200 {
        reward(&mut w, &attr, 1.0);
    }
    assert!(value(w.contradicts) >= -0.95 && value(w.contradicts) <= -0.05);
}

#[test]
fn weights_stay_within_their_bounds() {
    assert_eq!(value(clamp_weight(IDX_CONTRADICTS, double(0.4))), -0.05);
    assert_eq!(value(clamp_weight(IDX_CONTRADICTS, double(-2.0))), -0.95);
    assert_eq!(value(clamp_weight(IDX_RECURRENT, double(0.9))), 0.75);
    assert_eq!(value(clamp_weight(IDX_RECALLS, double(-1.0))), 0.01);
    assert_eq!(value(clamp_weight(IDX_RECALLS, double(0.5))), 0.5);
}

#[test]
fn only_what_contributed_moves() {
    let mut list = vec![double(0.0); 8];
    list[1] = double(0.5);
    list[3] = double(-0.5);
    list[2] = double(0.0001);
    assert_eq!(
        moved_weights(&list, double(1.0)),
        vec![false, true, false, false, false, false, false, false]
    );
    assert_eq!(moved_weights(&vec![double(1.0)], double(1.0))[0], true);
    assert_eq!(moved_weights(&vec![double(1.0)], double(1.0))[1], false);
}

#[test]
fn places_beyond_the_last_weigh_nothing() {
    let w = EdgeWeights::defaults();
    assert_eq!(value(w.weight(0)), 0.70);
    assert_eq!(value(w.weight(8)), 0.0);
}

#[test]
fn learning_keeps_every_weight_within_its_bounds() {
    let mut w = EdgeWeights::defaults();
    for round in 0..300 {
        let score = if round % 3 == 0 { -1.0 } else { 1.0 };
        reward(&mut w, &[1.0; 8], score);
        for (i, v) in values(&w).iter().enumerate() {
            let (lo, hi) = match i {
                IDX_CONTRADICTS => (-0.95, -0.05),
                IDX_RECURRENT => (0.05, 0.75),
                _ => (0.01, 0.98),
            };
            assert!(lo <= *v && *v <= hi);
        }
    }
    assert_eq!(w.t, 300);
}
