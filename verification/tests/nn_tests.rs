use rand::Rng;
use snake_tui::nn::{strikes, struck, Layer, Net, Node};

fn accumulate(sum: u64, weight: u64, input: u64) -> u64 {
    (f64::from_bits(sum) + f64::from_bits(weight) * f64::from_bits(input)).to_bits()
}

fn relu(sum: u64) -> u64 {
    f64::from_bits(sum).max(0.0).to_bits()
}

fn draw() -> u64 {
    let value: f64 = rand::thread_rng().gen_range(-1.0..1.0);
    value.to_bits()
}

fn perturb(parameter: u64, magnitude: u32) -> u64 {
    let m = magnitude as f64 / 100.0;
    if m == 0.0 {
        return parameter;
    }
    let delta: f64 = rand::thread_rng().gen_range(-m..=m);
    (f64::from_bits(parameter) + delta).to_bits()
}

fn numbers(values: &[u64]) -> Vec<f64> {
    values.iter().map(|&v| f64::from_bits(v)).collect()
}

fn parameters(net: &Net) -> Vec<f64> {
    let mut all = Vec::new();
    for layer in net.layers() {
        for n in &layer.nodes {
            all.extend(numbers(&n.weights));
            all.push(f64::from_bits(n.bias));
        }
    }
    all
}

fn bits(values: &[f64]) -> Vec<u64> {
    values.iter().map(|v| v.to_bits()).collect()
}

fn node(weights: &[f64], bias: f64) -> Node {
    Node { weights: bits(weights), bias: bias.to_bits() }
}

fn filled(sizes: &[usize], value: f64) -> Net {
    let mut layers = Vec::new();
    for l in 1..sizes.len() {
        let mut nodes = Vec::new();
        for _ in 0..sizes[l] {
            nodes.push(node(&vec![value; sizes[l - 1]], value));
        }
        layers.push(Layer { nodes });
    }
    Net::from_layers(sizes[0], layers).unwrap()
}

fn sample_net() -> Net {
    let layers = vec![
        Layer { nodes: vec![node(&[0.1, -1.5], 0.25), node(&[f64::MIN_POSITIVE, 1e300], -0.0)] },
        Layer { nodes: vec![node(&[std::f64::consts::PI, -7.0e-9], 1.0 / 3.0)] },
    ];
    Net::from_layers(2, layers).unwrap()
}

#[test]
fn zeroed_network_has_the_topology_and_only_zeros() {
    let net = Net::zeroed(&[24, 16, 8, 4]);
    assert_eq!(net.n_inputs(), 24);
    assert_eq!(net.layer_sizes(), vec![24, 16, 8, 4]);
    assert_eq!(net.layers().len(), 3);
    let widths = [24, 16, 8];
    for (l, layer) in net.layers().iter().enumerate() {
        for n in &layer.nodes {
            assert_eq!(n.weights, vec![0u64; widths[l]]);
            assert_eq!(n.bias, 0);
            assert_eq!(f64::from_bits(n.bias), 0.0);
        }
    }
    assert_eq!(net.get_bias(0), vec![0u64; 16]);
    assert_eq!(net.get_bias(2), vec![0u64; 4]);
}

#[test]
fn smallest_topology() {
    let net = Net::zeroed(&[1, 1]);
    assert_eq!(net.layer_sizes(), vec![1, 1]);
    assert_eq!(net.layers()[0].nodes[0].weights, vec![0]);
}

#[test]
fn assembling_accepts_a_well_shaped_network() {
    let net = sample_net();
    assert_eq!(net.n_inputs(), 2);
    assert_eq!(net.layer_sizes(), vec![2, 2, 1]);
    assert_eq!(net.get_bias(0), bits(&[0.25, -0.0]));
    assert_eq!(net.get_bias(1), bits(&[1.0 / 3.0]));
}

#[test]
fn assembling_refuses_broken_shapes() {
    assert!(Net::from_layers(0, vec![Layer { nodes: vec![node(&[], 0.0)] }]).is_none());
    assert!(Net::from_layers(2, vec![]).is_none());
    assert!(Net::from_layers(2, vec![Layer { nodes: vec![] }]).is_none());
    assert!(Net::from_layers(2, vec![Layer { nodes: vec![node(&[1.0], 0.0)] }]).is_none());
    assert!(Net::from_layers(
        2,
        vec![Layer { nodes: vec![node(&[1.0, 1.0], 0.0), node(&[1.0, 1.0, 1.0], 0.0)] }]
    )
    .is_none());
    assert!(Net::from_layers(
        2,
        vec![
            Layer { nodes: vec![node(&[1.0, 1.0], 0.0), node(&[1.0, 1.0], 0.0)] },
            Layer { nodes: vec![node(&[1.0], 0.0)] },
        ]
    )
    .is_none());
    assert!(Net::from_layers(
        2,
        vec![
            Layer { nodes: vec![node(&[1.0, 1.0], 0.0)] },
            Layer { nodes: vec![] },
        ]
    )
    .is_none());
}

#[test]
fn taking_apart_and_assembling_round_trips_exactly() {
    let net = sample_net();
    let again = Net::from_layers(net.n_inputs(), net.layers().clone()).unwrap();
    assert_eq!(again, net);
    assert_eq!(again.layer_sizes(), net.layer_sizes());
    let first = &again.layers()[0].nodes;
    assert_eq!(f64::from_bits(first[0].weights[0]), 0.1);
    assert_eq!(f64::from_bits(first[0].weights[1]), -1.5);
    assert_eq!(f64::from_bits(first[1].weights[0]), f64::MIN_POSITIVE);
    assert_eq!(f64::from_bits(first[1].weights[1]), 1e300);
    assert!(f64::from_bits(first[1].bias).is_sign_negative());
    assert_eq!(f64::from_bits(again.layers()[1].nodes[0].bias), 1.0 / 3.0);

    let big = filled(&[24, 16, 8, 4], -0.123456789012345678);
    assert_eq!(Net::from_layers(big.n_inputs(), big.layers().clone()).unwrap(), big);
}

#[test]
fn merging_identical_networks_changes_nothing() {
    let a = sample_net();
    let b = sample_net();
    for _ in 0..20 {
        let child = a.merge(&b);
        assert_eq!(child, a);
        assert_eq!(child, b);
    }
    let c = filled(&[24, 16, 8, 4], 0.75);
    assert_eq!(c.merge(&c.clone()), c);
}

#[test]
fn merging_takes_every_parameter_from_a_parent() {
    let a = filled(&[24, 16, 8, 4], 1.0);
    let b = filled(&[24, 16, 8, 4], -2.0);
    let child = a.merge(&b);
    assert_eq!(child.layer_sizes(), vec![24, 16, 8, 4]);
    let (one, two) = (1.0f64.to_bits(), (-2.0f64).to_bits());
    let mut from_a = 0;
    let mut from_b = 0;
    let mut bias_from_a = 0;
    let mut bias_from_b = 0;
    for (l, layer) in child.layers().iter().enumerate() {
        assert_eq!(layer.nodes.len(), a.layers()[l].nodes.len());
        for (j, n) in layer.nodes.iter().enumerate() {
            assert_eq!(n.weights.len(), a.layers()[l].nodes[j].weights.len());
            for &w in &n.weights {
                assert!(w == one || w == two);
                if w == one {
                    from_a += 1;
                } else {
                    from_b += 1;
                }
            }
            assert!(n.bias == one || n.bias == two);
            if n.bias == one {
                bias_from_a += 1;
            } else {
                bias_from_b += 1;
            }
        }
    }
    assert_eq!(from_a + from_b, 24 * 16 + 16 * 8 + 8 * 4);
    assert!(from_a > 0 && from_b > 0);
    assert_eq!(bias_from_a + bias_from_b, 28);
    assert!(bias_from_a > 0 && bias_from_b > 0);
}

#[test]
fn merging_works_position_by_position() {
    let a = Net::from_layers(2, vec![Layer { nodes: vec![node(&[1.0, 2.0], 3.0)] }]).unwrap();
    let b = Net::from_layers(2, vec![Layer { nodes: vec![node(&[10.0, 20.0], 30.0)] }]).unwrap();
    for _ in 0..50 {
        let child = a.merge(&b);
        let n = &child.layers()[0].nodes[0];
        let w0 = f64::from_bits(n.weights[0]);
        let w1 = f64::from_bits(n.weights[1]);
        let bias = f64::from_bits(n.bias);
        assert!(w0 == 1.0 || w0 == 10.0);
        assert!(w1 == 2.0 || w1 == 20.0);
        assert!(bias == 3.0 || bias == 30.0);
    }
}

#[test]
fn node_and_layer_crossover() {
    let a = node(&[1.0, 2.0, 3.0], 4.0);
    let child = a.merge(&node(&[1.0, 2.0, 3.0], 4.0));
    assert_eq!(child, a);
    let la = Layer { nodes: vec![node(&[1.0], 2.0), node(&[3.0], 4.0)] };
    let lb = Layer { nodes: vec![node(&[1.0], 2.0), node(&[3.0], 4.0)] };
    assert_eq!(la.merge(&lb), la);
    assert_eq!(Node::zeroed(3), Node { weights: vec![0, 0, 0], bias: 0 });
    assert_eq!(Layer::zeroed(2, 1).nodes, vec![Node::zeroed(1), Node::zeroed(1)]);
    assert!(la.fits(1));
    assert!(!la.fits(2));
    assert!(!Layer { nodes: vec![] }.fits(0));
}

#[test]
fn topologies_are_compared() {
    let a = Net::zeroed(&[3, 2, 1]);
    let b = filled(&[3, 2, 1], 0.5);
    let c = Net::zeroed(&[3, 3, 1]);
    let d = Net::zeroed(&[3, 2]);
    let e = Net::zeroed(&[4, 2, 1]);
    assert!(a.same_topology(&b));
    assert!(!a.same_topology(&c));
    assert!(!a.same_topology(&d));
    assert!(!a.same_topology(&e));
    assert!(a.has_topology(&[3, 2, 1]));
    assert!(!a.has_topology(&[3, 2]));
    assert!(!a.has_topology(&[3, 2, 2]));
    assert!(!a.has_topology(&[2, 2, 1]));
}

#[test]
fn biases_come_out_in_node_order() {
    let net = Net::from_layers(
        1,
        vec![Layer { nodes: vec![node(&[0.0], 1.0), node(&[0.0], 2.0), node(&[0.0], 3.0)] }],
    )
    .unwrap();
    let biases: Vec<f64> = net.get_bias(0).into_iter().map(f64::from_bits).collect();
    assert_eq!(biases, vec![1.0, 2.0, 3.0]);
}

#[test]
fn a_cloned_network_is_equal() {
    let net = sample_net();
    assert_eq!(net.clone(), net);
}

#[test]
fn new_network_has_the_topology_and_drawn_parameters() {
    let net = Net::new(&[24, 16, 8, 4], &draw);
    assert_eq!(net.layer_sizes(), vec![24, 16, 8, 4]);
    assert_eq!(net.n_inputs(), 24);
    let widths = [24, 16, 8];
    for (l, layer) in net.layers().iter().enumerate() {
        for n in &layer.nodes {
            assert_eq!(n.weights.len(), widths[l]);
        }
    }
    let all = parameters(&net);
    assert_eq!(all.len(), 24 * 16 + 16 + 16 * 8 + 8 + 8 * 4 + 4);
    assert!(all.iter().all(|v| (-1.0..1.0).contains(v)));
    assert!(all.iter().any(|&v| v > 0.0));
    assert!(all.iter().any(|&v| v < 0.0));
    let other = Net::new(&[24, 16, 8, 4], &draw);
    assert!(other != net);
}

#[test]
fn new_network_takes_every_parameter_from_the_draw() {
    let seven = || 7u64;
    let net = Net::new(&[3, 2, 1], &seven);
    assert_eq!(net.layer_sizes(), vec![3, 2, 1]);
    for layer in net.layers() {
        for n in &layer.nodes {
            assert!(n.weights.iter().all(|&w| w == 7));
            assert_eq!(n.bias, 7);
        }
    }
    assert_eq!(Node::new(2, &seven), Node { weights: vec![7, 7], bias: 7 });
    assert_eq!(Layer::new(2, 1, &seven).nodes.len(), 2);
}

#[test]
fn zero_network_answers_zero_input_with_zeros() {
    let topologies: [&[usize]; 5] = [&[1, 1], &[2, 2, 1], &[24, 16, 8, 4], &[3, 7, 5, 2, 9], &[5, 1]];
    for sizes in topologies {
        let net = Net::zeroed(sizes);
        let out = net.predict(vec![0.0f64.to_bits(); sizes[0]], &accumulate, &relu);
        assert_eq!(out, vec![0u64; sizes[sizes.len() - 1]]);
        let trace = net.activations(vec![0.0f64.to_bits(); sizes[0]], &accumulate, &relu);
        assert_eq!(trace.len(), sizes.len());
        for (l, values) in trace.iter().enumerate() {
            assert_eq!(values.len(), sizes[l]);
            assert!(values.iter().all(|&v| v == 0));
        }
    }
}

#[test]
fn two_two_one_network_of_ones() {
    let one = node(&[1.0, 1.0], 0.0);
    assert_eq!(one.predict(&bits(&[1.0, 1.0]), &accumulate, &relu), 2.0f64.to_bits());
    let net = Net::from_layers(
        2,
        vec![
            Layer { nodes: vec![node(&[1.0, 1.0], 0.0), node(&[1.0, 1.0], 0.0)] },
            Layer { nodes: vec![node(&[1.0, 1.0], 0.0)] },
        ],
    )
    .unwrap();
    assert_eq!(numbers(&net.predict(bits(&[1.0, 1.0]), &accumulate, &relu)), vec![4.0]);
    let trace = net.activations(bits(&[1.0, 1.0]), &accumulate, &relu);
    assert_eq!(trace.len(), 3);
    assert_eq!(numbers(&trace[0]), vec![1.0, 1.0]);
    assert_eq!(numbers(&trace[1]), vec![2.0, 2.0]);
    assert_eq!(numbers(&trace[2]), vec![4.0]);
}

#[test]
fn prediction_weighs_each_input_and_clips_at_zero() {
    let net = Net::from_layers(
        3,
        vec![
            Layer { nodes: vec![node(&[1.0, 2.0, 3.0], 0.5), node(&[-1.0, 0.0, 0.25], -10.0)] },
            Layer { nodes: vec![node(&[2.0, 100.0], -1.0), node(&[-1.0, 1.0], 0.0), node(&[0.0, 0.0], 7.0)] },
        ],
    )
    .unwrap();
    let out = net.predict(bits(&[1.0, 10.0, 100.0]), &accumulate, &relu);
    assert_eq!(numbers(&out), vec![2042.0, 0.0, 7.0]);
    let trace = net.activations(bits(&[1.0, 10.0, 100.0]), &accumulate, &relu);
    assert_eq!(numbers(&trace[0]), vec![1.0, 10.0, 100.0]);
    assert_eq!(numbers(&trace[1]), vec![321.5, 14.0]);
    assert_eq!(numbers(&trace[2]), vec![2042.0, 0.0, 7.0]);
    let layer = &net.layers()[0];
    assert_eq!(numbers(&layer.predict(&bits(&[1.0, 10.0, 100.0]), &accumulate, &relu)), vec![321.5, 14.0]);
    assert_eq!(numbers(&layer.predict(&bits(&[1.0, 1.0, 1.0]), &accumulate, &relu)), vec![6.5, 0.0]);
}

#[test]
fn prediction_adds_the_terms_in_order() {
    // In doubles 1e16 + 1 is 1e16, so the order of the sum shows.
    let n = node(&[1.0, 1.0, -1.0], 1e16);
    let out = n.predict(&bits(&[1.0, 1.0, 1e16]), &accumulate, &relu);
    assert_eq!(f64::from_bits(out), 0.0);
    let m = node(&[-1.0, 1.0, 1.0], 1e16);
    let out = m.predict(&bits(&[1e16, 1.0, 1.0]), &accumulate, &relu);
    assert_eq!(f64::from_bits(out), 2.0);
}

#[test]
fn prediction_is_repeatable() {
    let net = Net::new(&[24, 16, 8, 4], &draw);
    let input: Vec<u64> = (0..24).map(|i| (i as f64 / 24.0).to_bits()).collect();
    let a = net.activations(input.clone(), &accumulate, &relu);
    let b = net.activations(input.clone(), &accumulate, &relu);
    assert_eq!(a, b);
    assert_eq!(a[3].len(), 4);
    assert!(numbers(&a[3]).iter().all(|&v| v >= 0.0));
    assert_eq!(net.predict(input, &accumulate, &relu), a[3]);
}

#[test]
fn mutation_at_rate_zero_changes_nothing() {
    let net = Net::new(&[24, 16, 8, 4], &draw);
    let mut copy = net.clone();
    copy.mutate(0, 50, &perturb);
    assert_eq!(copy, net);
    let mut sample = sample_net();
    sample.mutate(0, u32::MAX, &|_, _| 99u64);
    assert_eq!(sample, sample_net());
}

#[test]
fn mutation_at_magnitude_zero_changes_nothing() {
    let net = Net::new(&[24, 16, 8, 4], &draw);
    let mut copy = net.clone();
    copy.mutate(100, 0, &perturb);
    assert_eq!(copy, net);
    copy.mutate(37, 0, &perturb);
    assert_eq!(copy, net);
}

#[test]
fn mutation_at_full_rate_moves_every_parameter_within_the_magnitude() {
    let net = Net::new(&[24, 16, 8, 4], &draw);
    let mut copy = net.clone();
    copy.mutate(100, 10, &perturb);
    assert_eq!(copy.layer_sizes(), net.layer_sizes());
    let (before, after) = (parameters(&net), parameters(&copy));
    assert_eq!(before.len(), after.len());
    let mut moved = 0;
    for (b, a) in before.iter().zip(&after) {
        assert!((a - b).abs() <= 0.1 + 1e-12);
        if a != b {
            moved += 1;
        }
    }
    assert!(moved > before.len() * 9 / 10);

    let mut marked = net.clone();
    marked.mutate(100, 3, &|_, magnitude| magnitude as u64);
    assert!(marked.layers().iter().all(|l| l
        .nodes
        .iter()
        .all(|n| n.bias == 3 && n.weights.iter().all(|&w| w == 3))));
    let mut beyond = net.clone();
    beyond.mutate(250, 3, &|_, _| 1u64);
    assert!(parameters(&beyond).iter().all(|&v| v == f64::from_bits(1)));
}

#[test]
fn mutation_at_a_partial_rate_moves_some_parameters() {
    let net = Net::zeroed(&[24, 16, 8, 4]);
    let mut copy = net.clone();
    copy.mutate(15, 50, &|_, _| 1u64);
    assert_eq!(copy.layer_sizes(), vec![24, 16, 8, 4]);
    let total = 24 * 16 + 16 + 16 * 8 + 8 + 8 * 4 + 4;
    let mut moved = 0;
    for layer in copy.layers() {
        for n in &layer.nodes {
            for &w in &n.weights {
                assert!(w == 0 || w == 1);
                moved += w as usize;
            }
            assert!(n.bias == 0 || n.bias == 1);
            moved += n.bias as usize;
        }
    }
    assert!(moved > 0 && moved < total / 2);
}

#[test]
fn node_and_layer_mutation() {
    let mut n = node(&[1.0, 2.0], 3.0);
    n.mutate(0, 10, &perturb);
    assert_eq!(n, node(&[1.0, 2.0], 3.0));
    n.mutate(100, 10, &|b, _| b + 1);
    assert_eq!(n, Node { weights: vec![1.0f64.to_bits() + 1, 2.0f64.to_bits() + 1], bias: 3.0f64.to_bits() + 1 });
    let mut l = Layer { nodes: vec![node(&[1.0], 2.0), node(&[3.0], 4.0)] };
    l.mutate(100, 10, &|_, _| 0u64);
    assert_eq!(l, Layer::zeroed(2, 1));
}

#[test]
fn the_chance_of_a_perturbation_follows_the_rate() {
    for _ in 0..200 {
        assert!(!strikes(0));
        assert!(strikes(100));
        assert!(strikes(101));
        assert!(strikes(u32::MAX));
    }
    let hits = (0..20000).filter(|_| strikes(25)).count();
    assert!(hits > 4000 && hits < 6000);
    assert!((0..2000).any(|_| strikes(1)));
    assert!((0..2000).any(|_| !strikes(99)));
}

#[test]
fn a_roll_below_the_rate_hits() {
    assert!(struck(15, 0));
    assert!(struck(15, 14));
    assert!(!struck(15, 15));
    assert!(!struck(15, 99));
    assert!(!struck(0, 0));
    assert!(struck(100, 99));
    assert!(struck(1, 0));
    assert!(!struck(1, 1));
    assert!(!struck(u32::MAX, u32::MAX));
}

#[test]
fn node_crossover_follows_the_picks() {
    let a = node(&[1.0, 2.0, 3.0], 4.0);
    let b = node(&[10.0, 20.0, 30.0], 40.0);
    assert_eq!(a.merge_by(&b, &vec![true, true, true, true]), a);
    assert_eq!(a.merge_by(&b, &vec![false, false, false, false]), b);
    assert_eq!(a.merge_by(&b, &vec![true, false, true, false]), node(&[1.0, 20.0, 3.0], 40.0));
    assert_eq!(a.merge_by(&b, &vec![false, true, false, true]), node(&[10.0, 2.0, 30.0], 4.0));
    let lone = node(&[], 1.0);
    assert_eq!(lone.merge_by(&node(&[], 2.0), &vec![false]), node(&[], 2.0));
}

#[test]
fn layer_crossover_follows_the_picks() {
    let a = Layer { nodes: vec![node(&[1.0], 2.0), node(&[3.0], 4.0)] };
    let b = Layer { nodes: vec![node(&[10.0], 20.0), node(&[30.0], 40.0)] };
    let child = a.merge_by(&b, &vec![vec![true, false], vec![false, true]]);
    assert_eq!(child, Layer { nodes: vec![node(&[1.0], 20.0), node(&[30.0], 4.0)] });
}

#[test]
fn network_crossover_follows_the_picks() {
    let a = filled(&[2, 2, 1], 1.0);
    let b = filled(&[2, 2, 1], -2.0);
    let all = |pick: bool| vec![vec![vec![pick; 3], vec![pick; 3]], vec![vec![pick; 3]]];
    assert_eq!(a.merge_by(&b, &all(true)), a);
    assert_eq!(a.merge_by(&b, &all(false)), b);
    let picks = vec![
        vec![vec![true, false, true], vec![false, false, true]],
        vec![vec![false, true, false]],
    ];
    let child = a.merge_by(&b, &picks);
    let expected = Net::from_layers(
        2,
        vec![
            Layer { nodes: vec![node(&[1.0, -2.0], 1.0), node(&[-2.0, -2.0], 1.0)] },
            Layer { nodes: vec![node(&[-2.0, 1.0], -2.0)] },
        ],
    )
    .unwrap();
    assert_eq!(child, expected);
}

#[test]
fn node_mutation_follows_the_hits() {
    let add = |parameter: u64, magnitude: u32| {
        (f64::from_bits(parameter) + magnitude as f64).to_bits()
    };
    let mut n = node(&[1.0, 2.0, 3.0], 4.0);
    n.mutate_by(&vec![false, true, false, true], 10, &add);
    assert_eq!(n, node(&[1.0, 12.0, 3.0], 14.0));
    n.mutate_by(&vec![true, false, true, false], 5, &add);
    assert_eq!(n, node(&[6.0, 12.0, 8.0], 14.0));
    n.mutate_by(&vec![false, false, false, false], 5, &add);
    assert_eq!(n, node(&[6.0, 12.0, 8.0], 14.0));
}

#[test]
fn layer_and_network_mutation_follow_the_hits() {
    let mark = |_: u64, magnitude: u32| (magnitude as f64).to_bits();
    let mut l = Layer { nodes: vec![node(&[1.0], 2.0), node(&[3.0], 4.0)] };
    l.mutate_by(&vec![vec![true, false], vec![false, true]], 7, &mark);
    assert_eq!(l, Layer { nodes: vec![node(&[7.0], 2.0), node(&[3.0], 7.0)] });

    let mut net = filled(&[2, 2, 1], 1.0);
    let hits = vec![
        vec![vec![true, false, false], vec![false, false, true]],
        vec![vec![false, true, false]],
    ];
    net.mutate_by(&hits, 9, &mark);
    let expected = Net::from_layers(
        2,
        vec![
            Layer { nodes: vec![node(&[9.0, 1.0], 1.0), node(&[1.0, 1.0], 9.0)] },
            Layer { nodes: vec![node(&[1.0, 9.0], 1.0)] },
        ],
    )
    .unwrap();
    assert_eq!(net, expected);
    assert_eq!(net.layer_sizes(), vec![2, 2, 1]);
}

#[test]
fn a_magnitude_of_zero_never_asks_for_a_perturbation() {
    let never = |_: u64, _: u32| -> u64 { panic!("asked to perturb at magnitude zero") };
    let net = Net::new(&[24, 16, 8, 4], &draw);
    let mut copy = net.clone();
    copy.mutate(100, 0, &never);
    assert_eq!(copy, net);
    copy.mutate(40, 0, &never);
    assert_eq!(copy, net);
    let mut n = node(&[1.0, 2.0], 3.0);
    n.mutate_by(&vec![true, true, true], 0, &never);
    assert_eq!(n, node(&[1.0, 2.0], 3.0));
    let mut small = filled(&[1, 1], 0.5);
    small.mutate_by(&vec![vec![vec![true, true]]], 0, &never);
    assert_eq!(small, filled(&[1, 1], 0.5));
}
