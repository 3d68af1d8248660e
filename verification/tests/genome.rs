use evonet::fp32::{HALF_BITS, QUARTER_BITS, TENTH_BITS, TWO_BITS, TWO_POW_NEG24_BITS};
use evonet::genome::{add_hidden_layer, add_neurons, crossover_mutate, Layer, Net};
use evonet::rng::rand_scalar;
use rand::rngs::StdRng;
use rand::SeedableRng;

fn rng(seed: u64) -> StdRng {
    StdRng::seed_from_u64(seed)
}

fn check_invariants(net: &Net) {
    assert!(net.layers.len() >= 2, "at least one hidden layer");
    assert_eq!(net.layers[0].in_dim, 16);
    assert_eq!(net.layers[net.layers.len() - 1].out_dim, 5);
    for i in 0..net.layers.len() {
        let l = &net.layers[i];
        assert_eq!(l.w.len(), l.out_dim * l.in_dim);
        assert_eq!(l.b.len(), l.out_dim);
        if i > 0 {
            assert_eq!(l.in_dim, net.layers[i - 1].out_dim);
        }
        if i + 1 < net.layers.len() {
            assert!(8 <= l.out_dim && l.out_dim <= 40);
        }
    }
    let hidden = net.layers.len() - 1;
    assert!((1..=4).contains(&hidden));
}

#[test]
fn bit_constants_match_ieee_values() {
    assert_eq!(HALF_BITS, 0.5f32.to_bits());
    assert_eq!(QUARTER_BITS, 0.25f32.to_bits());
    assert_eq!(TWO_BITS, 2.0f32.to_bits());
    assert_eq!(TENTH_BITS, 0.1f32.to_bits());
    assert_eq!(TWO_POW_NEG24_BITS, 2.0f32.powi(-24).to_bits());
}

#[test]
fn factory_explicit_widths_shape() {
    let net = Net::from_hidden_sizes(&vec![20], &mut rng(1));
    check_invariants(&net);
    assert_eq!(net.layers.len(), 2);
    assert_eq!(net.layers[0].out_dim, 20);
    assert_eq!(net.layers[1].in_dim, 20);
    let net2 = Net::from_hidden_sizes(&vec![12, 16], &mut rng(2));
    check_invariants(&net2);
    assert_eq!(net2.layers.len(), 3);
    assert_eq!(net2.layers[0].out_dim, 12);
    assert_eq!(net2.layers[1].out_dim, 16);
}

#[test]
fn factory_random_invariants() {
    for seed in 0..100 {
        let net = Net::new_random(&mut rng(seed));
        check_invariants(&net);
        let hidden = net.layers.len() - 1;
        assert!(hidden == 1 || hidden == 2);
    }
}

#[test]
fn layer_new_random_values_in_scale() {
    let l = Layer::new_random(7, 9, 0.1f32.to_bits(), &mut rng(11));
    assert_eq!(l.in_dim, 7);
    assert_eq!(l.out_dim, 9);
    assert_eq!(l.w.len(), 63);
    assert_eq!(l.b.len(), 9);
    for &v in l.w.iter().chain(l.b.iter()) {
        let f = f32::from_bits(v);
        assert!((-0.1..0.1).contains(&f), "value {f} out of scale");
    }
}

#[test]
fn rand_scalar_spans_the_interval() {
    let mut r = rng(3);
    let mut saw_positive = false;
    let mut saw_negative = false;
    for _ in 0..1000 {
        let f = f32::from_bits(rand_scalar(&mut r, 0.1f32.to_bits()));
        assert!((-0.1..0.1).contains(&f));
        if f > 0.05 {
            saw_positive = true;
        }
        if f < -0.05 {
            saw_negative = true;
        }
    }
    assert!(saw_positive && saw_negative);
}

#[test]
fn forward_deterministic() {
    let net = Net::from_hidden_sizes(&vec![12], &mut rng(7));
    let x: Vec<u32> = (0..16).map(|i| (i as f32 * 0.25 - 2.0).to_bits()).collect();
    let y1 = net.forward(&x);
    let y2 = net.forward(&x);
    assert_eq!(y1.len(), 5);
    assert_eq!(y1, y2);
}

#[test]
fn forward_exact_affine_single_layer() {
    // one direct 16 -> 5 layer: the output is linear, bit for bit
    let in_dim = 16;
    let out_dim = 5;
    let mut w = Vec::new();
    for o in 0..out_dim {
        for i in 0..in_dim {
            w.push(((o as f32) * 0.125 + (i as f32) * 0.0625).to_bits());
        }
    }
    let b: Vec<u32> = (0..out_dim).map(|o| (o as f32 * 0.5 - 1.0).to_bits()).collect();
    let layer = Layer { in_dim, out_dim, w: w.clone(), b: b.clone() };
    let net = Net { layers: vec![layer] };
    let x: Vec<u32> = (0..in_dim).map(|i| (1.0f32 - i as f32 * 0.125).to_bits()).collect();
    let y = net.forward(&x);
    for o in 0..out_dim {
        let mut acc = f32::from_bits(b[o]);
        for i in 0..in_dim {
            acc += f32::from_bits(w[o * in_dim + i]) * f32::from_bits(x[i]);
        }
        assert_eq!(y[o], acc.to_bits(), "output unit {o}");
    }
}

#[test]
fn relu_clamps_hidden_and_output_passes_negatives() {
    // hidden pre-activations are all negative: they become exactly +0.0,
    // so the output is exactly the output-layer bias, negatives included
    let hidden = Layer {
        in_dim: 16,
        out_dim: 8,
        w: vec![0.0f32.to_bits(); 8 * 16],
        b: vec![(-1.5f32).to_bits(); 8],
    };
    let out = Layer {
        in_dim: 8,
        out_dim: 5,
        w: vec![0.75f32.to_bits(); 5 * 8],
        b: vec![(-2.5f32).to_bits(); 5],
    };
    let net = Net { layers: vec![hidden, out] };
    let x = vec![1.0f32.to_bits(); 16];
    let y = net.forward(&x);
    for o in 0..5 {
        assert_eq!(y[o], (-2.5f32).to_bits());
        assert!(f32::from_bits(y[o]) < 0.0);
    }
    // positive hidden pre-activations pass through unclamped
    let hidden2 = Layer {
        in_dim: 16,
        out_dim: 8,
        w: vec![0.0f32.to_bits(); 8 * 16],
        b: vec![2.0f32.to_bits(); 8],
    };
    let out2 = Layer {
        in_dim: 8,
        out_dim: 5,
        w: vec![0.25f32.to_bits(); 5 * 8],
        b: vec![0.0f32.to_bits(); 5],
    };
    let net2 = Net { layers: vec![hidden2, out2] };
    let y2 = net2.forward(&x);
    let mut acc = 0.0f32;
    for _ in 0..8 {
        acc += 0.25f32 * 2.0f32;
    }
    for o in 0..5 {
        assert_eq!(y2[o], acc.to_bits());
    }
}

fn expected_blend(tpl: &Net, other: &Net) -> Net {
    let mut layers = Vec::new();
    for (i, t) in tpl.layers.iter().enumerate() {
        let mut nl = Layer {
            in_dim: t.in_dim,
            out_dim: t.out_dim,
            w: t.w.clone(),
            b: t.b.clone(),
        };
        if i < other.layers.len() {
            let o = &other.layers[i];
            let out_min = t.out_dim.min(o.out_dim);
            let in_min = t.in_dim.min(o.in_dim);
            for r in 0..out_min {
                for c in 0..in_min {
                    let a = f32::from_bits(t.w[r * t.in_dim + c]);
                    let b = f32::from_bits(o.w[r * o.in_dim + c]);
                    nl.w[r * t.in_dim + c] = (0.5 * (a + b)).to_bits();
                }
            }
            for r in 0..out_min {
                let a = f32::from_bits(t.b[r]);
                let b = f32::from_bits(o.b[r]);
                nl.b[r] = (0.5 * (a + b)).to_bits();
            }
        }
        layers.push(nl);
    }
    Net { layers }
}

fn nets_equal(a: &Net, b: &Net) -> bool {
    a.layers.len() == b.layers.len()
        && a.layers.iter().zip(b.layers.iter()).all(|(x, y)| {
            x.in_dim == y.in_dim && x.out_dim == y.out_dim && x.w == y.w && x.b == y.b
        })
}

#[test]
fn exact_blending_same_topology() {
    // both parents 16 -> 20 -> 5: the child is 0.5 * (A + B), bit for bit
    let dad = Net::from_hidden_sizes(&vec![20], &mut rng(100));
    let mom = Net::from_hidden_sizes(&vec![20], &mut rng(200));
    let zero = 0.0f32.to_bits();
    let child = crossover_mutate(&dad, &mom, &mut rng(300), zero, 0.1f32.to_bits(), zero, zero);
    let want = expected_blend(&dad, &mom);
    let want_swapped = expected_blend(&mom, &dad);
    assert!(nets_equal(&child, &want));
    // IEEE addition is commutative, so the template choice cannot show
    assert!(nets_equal(&want, &want_swapped));
}

#[test]
fn zero_settings_child_is_pure_blend() {
    let dad = Net::from_hidden_sizes(&vec![20], &mut rng(41));
    let mom = Net::from_hidden_sizes(&vec![12, 16], &mut rng(42));
    let zero = 0.0f32.to_bits();
    for seed in 0..50 {
        let child =
            crossover_mutate(&dad, &mom, &mut rng(seed), zero, 0.1f32.to_bits(), zero, zero);
        check_invariants(&child);
        let via_dad = expected_blend(&dad, &mom);
        let via_mom = expected_blend(&mom, &dad);
        assert!(
            nets_equal(&child, &via_dad) || nets_equal(&child, &via_mom),
            "child must be exactly one template's blend"
        );
    }
}

#[test]
fn width_growth_monotonic_and_rewired() {
    for seed in 0..50 {
        let mut net = Net::from_hidden_sizes(&vec![20], &mut rng(seed));
        let before = Net {
            layers: net
                .layers
                .iter()
                .map(|l| Layer {
                    in_dim: l.in_dim,
                    out_dim: l.out_dim,
                    w: l.w.clone(),
                    b: l.b.clone(),
                })
                .collect(),
        };
        add_neurons(&mut net, 0, &mut rng(seed + 1000));
        check_invariants(&net);
        let old_out = before.layers[0].out_dim;
        let new_out = net.layers[0].out_dim;
        assert!(new_out > old_out && new_out <= 40 && new_out <= old_out + 4);
        assert_eq!(net.layers[1].in_dim, new_out);
        // every old weight and bias kept its place
        for j in 0..before.layers[0].w.len() {
            assert_eq!(net.layers[0].w[j], before.layers[0].w[j]);
        }
        for q in 0..old_out {
            assert_eq!(net.layers[0].b[q], before.layers[0].b[q]);
        }
        for o in 0..before.layers[1].out_dim {
            for c in 0..before.layers[1].in_dim {
                assert_eq!(
                    net.layers[1].w[o * new_out + c],
                    before.layers[1].w[o * old_out + c]
                );
            }
        }
        assert_eq!(net.layers[1].b, before.layers[1].b);
    }
}

#[test]
fn width_growth_at_cap_is_a_no_op() {
    let mut net = Net::from_hidden_sizes(&vec![40], &mut rng(5));
    let w_before = net.layers[0].w.clone();
    add_neurons(&mut net, 0, &mut rng(6));
    assert_eq!(net.layers[0].out_dim, 40);
    assert_eq!(net.layers[0].w, w_before);
    assert_eq!(net.layers[1].in_dim, 40);
}

#[test]
fn depth_growth_dims_and_bound() {
    for pos in 0..2 {
        let mut net = Net::from_hidden_sizes(&vec![20, 30], &mut rng(50 + pos as u64));
        let before_out = net.layers[pos].out_dim;
        let before_b = net.layers[pos].b.clone();
        let prev_out = if pos == 0 { 16 } else { net.layers[pos - 1].out_dim };
        add_hidden_layer(&mut net, pos, &mut rng(77));
        check_invariants(&net);
        assert_eq!(net.layers.len(), 4);
        assert!(net.layers.len() - 1 <= 4);
        let inserted = &net.layers[pos];
        assert_eq!(inserted.in_dim, prev_out);
        assert!((8..=40).contains(&inserted.out_dim));
        let displaced = &net.layers[pos + 1];
        assert_eq!(displaced.in_dim, inserted.out_dim);
        assert_eq!(displaced.out_dim, before_out);
        assert_eq!(displaced.b, before_b);
    }
}

#[test]
fn forward_exact_two_layer_with_relu() {
    let net = Net::from_hidden_sizes(&vec![8], &mut rng(123));
    let x: Vec<u32> = (0..16).map(|i| ((i as f32 - 8.0) * 0.5).to_bits()).collect();
    let y = net.forward(&x);
    // recompute in plain f32, matching the fold order
    let mut a: Vec<f32> = x.iter().map(|&v| f32::from_bits(v)).collect();
    for (li, l) in net.layers.iter().enumerate() {
        let mut z = vec![0.0f32; l.out_dim];
        for o in 0..l.out_dim {
            let mut acc = f32::from_bits(l.b[o]);
            for i in 0..l.in_dim {
                acc += f32::from_bits(l.w[o * l.in_dim + i]) * a[i];
            }
            z[o] = if li + 1 == net.layers.len() {
                acc
            } else if acc < 0.0 {
                0.0
            } else {
                acc
            };
        }
        a = z;
    }
    for o in 0..5 {
        assert_eq!(y[o], a[o].to_bits(), "output unit {o}");
    }
}

#[test]
fn certain_structural_growth() {
    let dad = Net::from_hidden_sizes(&vec![20], &mut rng(8));
    let mom = Net::from_hidden_sizes(&vec![12, 16], &mut rng(9));
    let zero = 0.0f32.to_bits();
    let one = 1.0f32.to_bits();
    for seed in 0..50 {
        // depth growth always fires below the layer cap
        let child =
            crossover_mutate(&dad, &mom, &mut rng(seed), zero, 0.1f32.to_bits(), zero, one);
        check_invariants(&child);
        let hidden = child.layers.len() - 1;
        assert!(hidden == 2 || hidden == 3);
    }
    for seed in 0..50 {
        // width growth always fires: exactly one hidden layer grew by 1 to 4
        let child =
            crossover_mutate(&dad, &mom, &mut rng(seed), zero, 0.1f32.to_bits(), one, zero);
        check_invariants(&child);
        let widths: Vec<usize> =
            child.layers[..child.layers.len() - 1].iter().map(|l| l.out_dim).collect();
        if child.layers.len() == 2 {
            assert!(widths[0] > 20 && widths[0] <= 24);
        } else {
            assert!(
                (widths[0] > 12 && widths[0] <= 16 && widths[1] == 16)
                    || (widths[0] == 12 && widths[1] > 16 && widths[1] <= 20)
            );
        }
    }
}

#[test]
fn recombine_scenario_thousand_children() {
    let dad = Net::from_hidden_sizes(&vec![20], &mut rng(1));
    let mom = Net::from_hidden_sizes(&vec![12, 16], &mut rng(2));
    for seed in 0..1000 {
        let child = crossover_mutate(
            &dad,
            &mom,
            &mut rng(seed),
            0.05f32.to_bits(),
            0.1f32.to_bits(),
            0.3f32.to_bits(),
            0.2f32.to_bits(),
        );
        check_invariants(&child);
        let hidden = child.layers.len() - 1;
        assert!((1..=3).contains(&hidden), "hidden count {hidden}");
    }
}
