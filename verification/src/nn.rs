//! A fixed-topology feed-forward network: its shape, the flow of values
//! through it, and its genetic operators.
//!
//! A parameter is the bit pattern of an IEEE-754 double, so the all-zero
//! pattern is the number zero. The library moves, selects and recombines
//! parameters and decides where arithmetic is applied; the arithmetic
//! itself is handed in by the caller as functions on bit patterns:
//!
//! - `draw()` gives a fresh random parameter;
//! - `accumulate(sum, weight, input)` gives `sum + weight * input`;
//! - `activate(sum)` gives the activation of a weighted sum;
//! - `perturb(parameter, magnitude)` gives the parameter moved by a random
//!   amount of at most `magnitude` hundredths.
//!
//! Contracts speak of these functions through what they can return. A
//! magnitude of zero moves nothing, so `perturb` is never asked at it.
//!
//! Crossover and mutation decide by chance which parameter comes from
//! which parent and which parameter is perturbed. Each has a twin that
//! takes these decisions as flags, one for each parameter in the nesting
//! of layers and nodes, and does the rest: `merge_by`, `mutate_by`.

use crate::rng::{random_bool, random_range};
use vstd::prelude::*;

verus! {

/// One node: a weight for each output of the layer before, and a bias.
#[derive(Debug, PartialEq, Eq)]
pub struct Node {
    pub weights: Vec<u64>,
    pub bias: u64,
}

/// One layer: its nodes in order.
#[derive(Debug, PartialEq, Eq)]
pub struct Layer {
    pub nodes: Vec<Node>,
}

/// A network: the width of its input and its layers in order. Every node of
/// a layer has one weight per node of the layer before it (per input, in
/// the first layer); no layer is empty.
#[derive(Debug, PartialEq, Eq)]
pub struct Net {
    n_inputs: usize,
    layers: Vec<Layer>,
}

/// The mathematical value of a node.
pub struct NodeView {
    pub weights: Seq<u64>,
    pub bias: u64,
}

/// The mathematical value of a network.
pub struct NetView {
    pub n_inputs: nat,
    pub layers: Seq<Seq<NodeView>>,
}

impl View for Node {
    type V = NodeView;

    open spec fn view(&self) -> NodeView {
        NodeView { weights: self.weights@, bias: self.bias }
    }
}

impl View for Layer {
    type V = Seq<NodeView>;

    open spec fn view(&self) -> Seq<NodeView> {
        self.nodes@.map_values(|n: Node| n@)
    }
}

/// The values of a sequence of layers.
pub open spec fn layers_view(layers: Seq<Layer>) -> Seq<Seq<NodeView>> {
    layers.map_values(|l: Layer| l@)
}

impl View for Net {
    type V = NetView;

    closed spec fn view(&self) -> NetView {
        NetView { n_inputs: self.n_inputs as nat, layers: layers_view(self.layers@) }
    }
}

impl NodeView {
    /// Every parameter is taken from `a` or from `b`, at the same position.
    pub open spec fn is_crossover_of(self, a: NodeView, b: NodeView) -> bool {
        &&& self.weights.len() == a.weights.len()
        &&& forall|k: int|
            0 <= k < self.weights.len() ==> #[trigger] self.weights[k] == a.weights[k]
                || self.weights[k] == b.weights[k]
        &&& self.bias == a.bias || self.bias == b.bias
    }

    /// The node of `width` weights whose parameters are all zero.
    pub open spec fn blank(width: nat) -> NodeView {
        NodeView { weights: Seq::new(width, |k: int| 0u64), bias: 0 }
    }

    /// Every parameter is a value that `draw` can return.
    pub open spec fn is_drawn<D: Fn() -> u64>(self, draw: D) -> bool {
        &&& forall|k: int|
            0 <= k < self.weights.len() ==> call_ensures(draw, (), #[trigger] self.weights[k])
        &&& call_ensures(draw, (), self.bias)
    }

    /// Every parameter is that of `base` at the same position, kept or
    /// perturbed: kept only where the rate is below a hundred, perturbed
    /// only where the rate is above zero.
    pub open spec fn is_mutation_of<P: Fn(u64, u32) -> u64>(
        self,
        base: NodeView,
        rate: u32,
        magnitude: u32,
        perturb: P,
    ) -> bool {
        &&& self.weights.len() == base.weights.len()
        &&& forall|k: int|
            0 <= k < self.weights.len() ==> mutates(
                base.weights[k],
                #[trigger] self.weights[k],
                rate,
                magnitude,
                perturb,
            )
        &&& mutates(base.bias, self.bias, rate, magnitude, perturb)
    }

    /// There is one flag for each parameter: one for each weight, then one
    /// for the bias.
    pub open spec fn takes(self, flags: Seq<bool>) -> bool {
        flags.len() == self.weights.len() + 1
    }

    /// The crossover of `a` and `b` by given picks: each weight, and at
    /// last the bias, is that of `a` where its pick is set and that of `b`
    /// where it is not.
    pub open spec fn crossed(a: NodeView, b: NodeView, picks: Seq<bool>) -> NodeView {
        NodeView {
            weights: Seq::new(
                a.weights.len(),
                |k: int|
                    if picks[k] {
                        a.weights[k]
                    } else {
                        b.weights[k]
                    },
            ),
            bias: if picks[a.weights.len() as int] {
                a.bias
            } else {
                b.bias
            },
        }
    }

    /// The mutation of `base` by given hits: each weight, and at last the
    /// bias, is perturbed where its flag is set and kept where it is not.
    pub open spec fn is_mutation_by<P: Fn(u64, u32) -> u64>(
        self,
        base: NodeView,
        hits: Seq<bool>,
        magnitude: u32,
        perturb: P,
    ) -> bool {
        &&& self.weights.len() == base.weights.len()
        &&& forall|k: int|
            0 <= k < self.weights.len() ==> moved(
                base.weights[k],
                #[trigger] self.weights[k],
                hits[k],
                magnitude,
                perturb,
            )
        &&& moved(base.bias, self.bias, hits[base.weights.len() as int], magnitude, perturb)
    }

    /// `sums` are the weighted sums of the node as they build up: the
    /// bias first, then one more term of `weight * input` at each step.
    pub open spec fn is_running_sum<A: Fn(u64, u64, u64) -> u64>(
        self,
        inputs: Seq<u64>,
        sums: Seq<u64>,
        accumulate: A,
    ) -> bool {
        &&& sums.len() == self.weights.len() + 1
        &&& sums[0] == self.bias
        &&& forall|k: int|
            1 <= k < sums.len() ==> call_ensures(
                accumulate,
                (sums[k - 1], self.weights[k - 1], inputs[k - 1]),
                #[trigger] sums[k],
            )
    }

    /// `out` is what the node computes from `inputs`: the activation of
    /// the bias plus the sum of each weight times its input, the terms
    /// added in order.
    pub open spec fn computes<A: Fn(u64, u64, u64) -> u64, R: Fn(u64) -> u64>(
        self,
        inputs: Seq<u64>,
        out: u64,
        accumulate: A,
        activate: R,
    ) -> bool {
        exists|sums: Seq<u64>| #[trigger]
            self.is_running_sum(inputs, sums, accumulate) && call_ensures(
                activate,
                (sums.last(),),
                out,
            )
    }
}

/// One parameter under mutation: `after` is `before`, kept or perturbed.
/// It is kept only where the rate is below a hundred or the magnitude is
/// zero, and perturbed only where both are above zero.
pub open spec fn mutates<P: Fn(u64, u32) -> u64>(
    before: u64,
    after: u64,
    rate: u32,
    magnitude: u32,
    perturb: P,
) -> bool {
    ||| (rate < 100 || magnitude == 0) && after == before
    ||| rate > 0 && magnitude > 0 && call_ensures(perturb, (before, magnitude), after)
}

/// One parameter under mutation, once it is decided whether it is hit: a
/// parameter that is hit becomes what `perturb` makes of it, any other
/// stays. A magnitude of zero moves nothing, so nothing is hit then.
pub open spec fn moved<P: Fn(u64, u32) -> u64>(
    before: u64,
    after: u64,
    hit: bool,
    magnitude: u32,
    perturb: P,
) -> bool {
    if hit && magnitude > 0 {
        call_ensures(perturb, (before, magnitude), after)
    } else {
        after == before
    }
}

/// Flags that agree with a rate: none is set at a rate of zero, all are
/// set from a rate of a hundred on.
pub open spec fn rated(flags: Seq<bool>, rate: u32) -> bool {
    forall|k: int|
        0 <= k < flags.len() ==> (#[trigger] flags[k] ==> rate > 0) && (!flags[k] ==> rate < 100)
}

/// The flags of a layer, node by node.
pub open spec fn flags_view(flags: Seq<Vec<bool>>) -> Seq<Seq<bool>> {
    flags.map_values(|f: Vec<bool>| f@)
}

/// The flags of a network, layer by layer and node by node.
pub open spec fn layered_flags_view(flags: Seq<Vec<Vec<bool>>>) -> Seq<Seq<Seq<bool>>> {
    flags.map_values(|f: Vec<Vec<bool>>| flags_view(f@))
}

/// There is one sequence of flags for each node of the layer, with one
/// flag for each of its parameters.
pub open spec fn layer_takes(layer: Seq<NodeView>, flags: Seq<Seq<bool>>) -> bool {
    &&& flags.len() == layer.len()
    &&& forall|j: int| 0 <= j < layer.len() ==> #[trigger] layer[j].takes(flags[j])
}

/// The flags of every node of a layer agree with the rate.
pub open spec fn layer_rated(flags: Seq<Seq<bool>>, rate: u32) -> bool {
    forall|j: int| 0 <= j < flags.len() ==> rated(#[trigger] flags[j], rate)
}

/// The crossover of two layers by given picks, node by node.
pub open spec fn crossed_layer(
    a: Seq<NodeView>,
    b: Seq<NodeView>,
    picks: Seq<Seq<bool>>,
) -> Seq<NodeView> {
    Seq::new(a.len(), |j: int| NodeView::crossed(a[j], b[j], picks[j]))
}

/// Each node of `after` is the mutation of the node of `before` at the
/// same position by the flags at that position.
pub open spec fn layer_is_mutation_by<P: Fn(u64, u32) -> u64>(
    after: Seq<NodeView>,
    before: Seq<NodeView>,
    hits: Seq<Seq<bool>>,
    magnitude: u32,
    perturb: P,
) -> bool {
    &&& after.len() == before.len()
    &&& forall|j: int|
        0 <= j < after.len() ==> (#[trigger] after[j]).is_mutation_by(
            before[j],
            hits[j],
            magnitude,
            perturb,
        )
}

impl NetView {
    /// The number of inputs that a node of layer `l` reads.
    pub open spec fn width_before(self, l: int) -> nat {
        if l == 0 {
            self.n_inputs
        } else {
            self.layers[l - 1].len()
        }
    }

    /// The shape rule of a network.
    pub open spec fn wf(self) -> bool {
        &&& self.n_inputs >= 1
        &&& self.layers.len() >= 1
        &&& forall|l: int| 0 <= l < self.layers.len() ==> (#[trigger] self.layers[l]).len() >= 1
        &&& forall|l: int, j: int|
            0 <= l < self.layers.len() && 0 <= j < self.layers[l].len() ==> (
            #[trigger] self.layers[l][j]).weights.len() == self.width_before(l)
    }

    /// The topology: the input width, then the node count of each layer.
    pub open spec fn layer_sizes(self) -> Seq<nat> {
        seq![self.n_inputs] + self.layers.map_values(|l: Seq<NodeView>| l.len())
    }

    /// The two networks have the same number of inputs, of layers, of nodes
    /// in each layer and of weights in each node.
    pub open spec fn same_shape(self, other: NetView) -> bool {
        &&& self.n_inputs == other.n_inputs
        &&& self.layers.len() == other.layers.len()
        &&& forall|l: int|
            0 <= l < self.layers.len() ==> (#[trigger] self.layers[l]).len()
                == other.layers[l].len()
        &&& forall|l: int, j: int|
            0 <= l < self.layers.len() && 0 <= j < self.layers[l].len() ==> (
            #[trigger] self.layers[l][j]).weights.len() == other.layers[l][j].weights.len()
    }

    /// Uniform crossover as a relation: the network has the shape of `a`,
    /// and each of its parameters is that of `a` or that of `b` at the same
    /// position.
    pub open spec fn is_crossover_of(self, a: NetView, b: NetView) -> bool {
        &&& self.n_inputs == a.n_inputs
        &&& self.layers.len() == a.layers.len()
        &&& forall|l: int|
            0 <= l < self.layers.len() ==> (#[trigger] self.layers[l]).len() == a.layers[l].len()
        &&& forall|l: int, j: int|
            0 <= l < self.layers.len() && 0 <= j < self.layers[l].len() ==> (
            #[trigger] self.layers[l][j]).is_crossover_of(a.layers[l][j], b.layers[l][j])
    }

    /// The network of the given topology whose parameters are all zero.
    pub open spec fn blank(sizes: Seq<usize>) -> NetView {
        NetView {
            n_inputs: sizes[0] as nat,
            layers: Seq::new(
                (sizes.len() - 1) as nat,
                |l: int| Seq::new(sizes[l + 1] as nat, |j: int| NodeView::blank(sizes[l] as nat)),
            ),
        }
    }

    /// Every parameter of the network is zero.
    pub open spec fn is_zero(self) -> bool {
        forall|l: int, j: int|
            0 <= l < self.layers.len() && 0 <= j < self.layers[l].len() ==> (
            #[trigger] self.layers[l][j]).bias == 0 && forall|k: int|
                0 <= k < self.layers[l][j].weights.len() ==> #[trigger] self.layers[l][j].weights[k]
                    == 0
    }

    /// Every parameter is a value that `draw` can return.
    pub open spec fn is_drawn<D: Fn() -> u64>(self, draw: D) -> bool {
        forall|l: int, j: int|
            0 <= l < self.layers.len() && 0 <= j < self.layers[l].len() ==> (
            #[trigger] self.layers[l][j]).is_drawn(draw)
    }

    /// Mutation as a relation: the network has the shape of `base`, and
    /// each of its parameters is that of `base` at the same position, kept
    /// or perturbed.
    pub open spec fn is_mutation_of<P: Fn(u64, u32) -> u64>(
        self,
        base: NetView,
        rate: u32,
        magnitude: u32,
        perturb: P,
    ) -> bool {
        &&& self.n_inputs == base.n_inputs
        &&& self.layers.len() == base.layers.len()
        &&& forall|l: int|
            0 <= l < self.layers.len() ==> (#[trigger] self.layers[l]).len()
                == base.layers[l].len()
        &&& forall|l: int, j: int|
            0 <= l < self.layers.len() && 0 <= j < self.layers[l].len() ==> (
            #[trigger] self.layers[l][j]).is_mutation_of(
                base.layers[l][j],
                rate,
                magnitude,
                perturb,
            )
    }

    /// There is one sequence of flags for each layer, with one flag for
    /// each parameter of each of its nodes.
    pub open spec fn takes(self, flags: Seq<Seq<Seq<bool>>>) -> bool {
        &&& flags.len() == self.layers.len()
        &&& forall|l: int|
            0 <= l < self.layers.len() ==> layer_takes(#[trigger] self.layers[l], flags[l])
    }

    /// The flags of every node agree with the rate.
    pub open spec fn rated(flags: Seq<Seq<Seq<bool>>>, rate: u32) -> bool {
        forall|l: int| 0 <= l < flags.len() ==> layer_rated(#[trigger] flags[l], rate)
    }

    /// The crossover of `a` and `b` by given picks: every parameter is
    /// that of `a` where its pick is set and that of `b` where it is not.
    pub open spec fn crossed(a: NetView, b: NetView, picks: Seq<Seq<Seq<bool>>>) -> NetView {
        NetView {
            n_inputs: a.n_inputs,
            layers: Seq::new(
                a.layers.len(),
                |l: int| crossed_layer(a.layers[l], b.layers[l], picks[l]),
            ),
        }
    }

    /// The mutation of `base` by given hits: every parameter is perturbed
    /// where its flag is set and kept where it is not.
    pub open spec fn is_mutation_by<P: Fn(u64, u32) -> u64>(
        self,
        base: NetView,
        hits: Seq<Seq<Seq<bool>>>,
        magnitude: u32,
        perturb: P,
    ) -> bool {
        &&& self.n_inputs == base.n_inputs
        &&& self.layers.len() == base.layers.len()
        &&& forall|l: int|
            0 <= l < self.layers.len() ==> layer_is_mutation_by(
                #[trigger] self.layers[l],
                base.layers[l],
                hits[l],
                magnitude,
                perturb,
            )
    }

    /// `trace` is what the network computes from `inputs`: the inputs
    /// first, then the outputs of each layer in turn, every node reading
    /// the outputs of the layer before.
    pub open spec fn is_trace<A: Fn(u64, u64, u64) -> u64, R: Fn(u64) -> u64>(
        self,
        inputs: Seq<u64>,
        trace: Seq<Seq<u64>>,
        accumulate: A,
        activate: R,
    ) -> bool {
        &&& trace.len() == self.layers.len() + 1
        &&& trace[0] == inputs
        &&& forall|l: int|
            1 <= l < trace.len() ==> (#[trigger] trace[l]).len() == self.layers[l - 1].len()
        &&& forall|l: int, j: int|
            1 <= l < trace.len() && 0 <= j < trace[l].len() ==> self.layers[l - 1][j].computes(
                trace[l - 1],
                #[trigger] trace[l][j],
                accumulate,
                activate,
            )
    }

    /// What `Net::from_layers` accepts: the network of these parts, where
    /// they obey the shape rule.
    pub open spec fn assemble(n_inputs: nat, layers: Seq<Seq<NodeView>>) -> Option<NetView> {
        let v = NetView { n_inputs, layers };
        if v.wf() {
            Some(v)
        } else {
            None
        }
    }
}

/// What a topology must satisfy: at least an input width and one layer, and
/// no width of zero.
pub open spec fn valid_sizes(sizes: Seq<usize>) -> bool {
    &&& sizes.len() >= 2
    &&& forall|i: int| 0 <= i < sizes.len() ==> sizes[i] > 0
}

/// Crossover of a network with itself changes nothing.
pub proof fn lemma_crossover_of_identical(a: NetView, c: NetView)
    requires
        c.is_crossover_of(a, a),
    ensures
        c == a,
{
    assert forall|l: int| 0 <= l < c.layers.len() implies c.layers[l] == a.layers[l] by {
        assert(c.layers[l].len() == a.layers[l].len());
        assert forall|j: int| 0 <= j < c.layers[l].len() implies c.layers[l][j]
            == a.layers[l][j] by {
            let x = c.layers[l][j];
            let y = a.layers[l][j];
            assert(x.is_crossover_of(y, y));
            assert(x.weights =~= y.weights);
        }
        assert(c.layers[l] =~= a.layers[l]);
    }
    assert(c.layers =~= a.layers);
}

/// Taking a network apart and assembling it again gives the same network.
pub proof fn lemma_assemble_round_trip(v: NetView)
    requires
        v.wf(),
    ensures
        NetView::assemble(v.n_inputs, v.layers) == Some(v),
{
}

/// A blank network of a valid topology obeys the shape rule and has that
/// topology.
pub proof fn lemma_blank_wf(sizes: Seq<usize>)
    requires
        valid_sizes(sizes),
    ensures
        NetView::blank(sizes).wf(),
        NetView::blank(sizes).is_zero(),
        NetView::blank(sizes).layer_sizes() == sizes.map_values(|s: usize| s as nat),
{
    let v = NetView::blank(sizes);
    assert(v.layer_sizes() =~= sizes.map_values(|s: usize| s as nat));
}

/// Whether a roll of the hundred-sided die hits at the given rate: the
/// rolls below the rate do.
pub fn struck(rate: u32, roll: u32) -> (hit: bool)
    ensures
        hit == (roll < rate),
{
    roll < rate
}

/// Decides whether a parameter is perturbed: rolls a number below a hundred
/// and hits with the rolls below `rate`, so never at a rate of zero and
/// always from a hundred on.
pub fn strikes(rate: u32) -> (hit: bool)
    ensures
        rate == 0 ==> !hit,
        rate >= 100 ==> hit,
{
    let roll: i32 = random_range(0, 100);
    struck(rate, roll as u32)
}

impl Clone for Node {
    fn clone(&self) -> (copy: Self)
        ensures
            copy@ == self@,
    {
        Node { weights: self.weights.clone(), bias: self.bias }
    }
}

impl Node {
    /// Uniform crossover of two nodes: each weight, then the bias, is taken
    /// from `self` or from `other` on the flip of a coin.
    pub fn merge(&self, other: &Node) -> (child: Node)
        requires
            self.weights.len() == other.weights.len(),
        ensures
            child@.is_crossover_of(self@, other@),
    {
        let picks = self.draw_picks();
        let child = self.merge_by(other, &picks);
        proof {
            lemma_crossed_node(self@, other@, picks@);
        }
        child
    }

    /// Crossover of two nodes by given picks: each weight, and at last the
    /// bias, is taken from `self` where its pick is set and from `other`
    /// where it is not.
    pub fn merge_by(&self, other: &Node, picks: &Vec<bool>) -> (child: Node)
        requires
            self.weights.len() == other.weights.len(),
            self@.takes(picks@),
        ensures
            child@ == NodeView::crossed(self@, other@, picks@),
    {
        let mut merged_weights: Vec<u64> = Vec::new();
        let mut k: usize = 0;
        while k < self.weights.len()
            invariant
                k <= self.weights.len(),
                self.weights.len() == other.weights.len(),
                picks.len() == self.weights.len() + 1,
                merged_weights.len() == k,
                forall|i: int|
                    0 <= i < k ==> #[trigger] merged_weights[i] == (if picks[i] {
                        self.weights[i]
                    } else {
                        other.weights[i]
                    }),
            decreases self.weights.len() - k,
        {
            let selected = if picks[k] {
                self.weights[k]
            } else {
                other.weights[k]
            };
            merged_weights.push(selected);
            k += 1;
        }
        let merged_bias = if picks[self.weights.len()] {
            self.bias
        } else {
            other.bias
        };
        assert(merged_weights@ =~= NodeView::crossed(self@, other@, picks@).weights);
        Node { weights: merged_weights, bias: merged_bias }
    }

    /// Flips one coin for each parameter of the node.
    fn draw_picks(&self) -> (picks: Vec<bool>)
        ensures
            self@.takes(picks@),
    {
        let mut picks: Vec<bool> = Vec::new();
        let mut k: usize = 0;
        while k < self.weights.len()
            invariant
                k <= self.weights.len(),
                picks.len() == k,
            decreases self.weights.len() - k,
        {
            picks.push(random_bool());
            k += 1;
        }
        picks.push(random_bool());
        picks
    }

    /// Decides for each parameter of the node whether it is hit at the
    /// given rate.
    fn draw_hits(&self, rate: u32) -> (hits: Vec<bool>)
        ensures
            self@.takes(hits@),
            rated(hits@, rate),
    {
        let mut hits: Vec<bool> = Vec::new();
        let mut k: usize = 0;
        while k < self.weights.len()
            invariant
                k <= self.weights.len(),
                hits.len() == k,
                rated(hits@, rate),
            decreases self.weights.len() - k,
        {
            hits.push(strikes(rate));
            k += 1;
        }
        hits.push(strikes(rate));
        hits
    }

    /// A node of `width` weights, each parameter drawn afresh.
    pub fn new<D: Fn() -> u64>(width: usize, draw: &D) -> (node: Node)
        requires
            call_requires(*draw, ()),
        ensures
            node@.weights.len() == width,
            node@.is_drawn(*draw),
    {
        let mut weights: Vec<u64> = Vec::new();
        let mut k: usize = 0;
        while k < width
            invariant
                k <= width,
                call_requires(*draw, ()),
                weights.len() == k,
                forall|i: int| 0 <= i < k ==> call_ensures(*draw, (), #[trigger] weights[i]),
            decreases width - k,
        {
            let random_weight = draw();
            weights.push(random_weight);
            k += 1;
        }
        let bias = draw();
        Node { weights, bias }
    }

    /// What the node computes from `inputs`: the activation of the bias
    /// plus the sum of each weight times its input.
    pub fn predict<A: Fn(u64, u64, u64) -> u64, R: Fn(u64) -> u64>(
        &self,
        inputs: &Vec<u64>,
        accumulate: &A,
        activate: &R,
    ) -> (out: u64)
        requires
            self.weights.len() == inputs.len(),
            forall|s: u64, w: u64, x: u64| call_requires(*accumulate, (s, w, x)),
            forall|s: u64| call_requires(*activate, (s,)),
        ensures
            self@.computes(inputs@, out, *accumulate, *activate),
    {
        let mut weighted_sum = self.bias;
        let ghost mut sums: Seq<u64> = seq![self.bias];
        let mut k: usize = 0;
        while k < self.weights.len()
            invariant
                k <= self.weights.len(),
                self.weights.len() == inputs.len(),
                forall|s: u64, w: u64, x: u64| call_requires(*accumulate, (s, w, x)),
                sums.len() == k + 1,
                sums[0] == self.bias,
                sums.last() == weighted_sum,
                forall|i: int|
                    1 <= i < sums.len() ==> call_ensures(
                        *accumulate,
                        (sums[i - 1], self.weights[i - 1], inputs[i - 1]),
                        #[trigger] sums[i],
                    ),
            decreases self.weights.len() - k,
        {
            weighted_sum = accumulate(weighted_sum, self.weights[k], inputs[k]);
            proof {
                sums = sums.push(weighted_sum);
            }
            k += 1;
        }
        let out = activate(weighted_sum);
        assert(self@.is_running_sum(inputs@, sums, *accumulate));
        out
    }

    /// Mutates the node in place: each weight, then the bias, is perturbed
    /// with a chance of `rate` in a hundred. A magnitude of zero moves
    /// nothing.
    pub fn mutate<P: Fn(u64, u32) -> u64>(&mut self, rate: u32, magnitude: u32, perturb: &P)
        requires
            forall|b: u64, m: u32| call_requires(*perturb, (b, m)),
        ensures
            final(self)@.is_mutation_of(old(self)@, rate, magnitude, *perturb),
    {
        let hits = self.draw_hits(rate);
        self.mutate_by(&hits, magnitude, perturb);
        proof {
            lemma_rated_node(old(self)@, self@, hits@, rate, magnitude, *perturb);
        }
    }

    /// Mutates the node in place by given hits: each weight, and at last
    /// the bias, is replaced by what `perturb` makes of it where its flag
    /// is set, and kept where it is not. A magnitude of zero moves nothing,
    /// and `perturb` is then not asked.
    pub fn mutate_by<P: Fn(u64, u32) -> u64>(
        &mut self,
        hits: &Vec<bool>,
        magnitude: u32,
        perturb: &P,
    )
        requires
            old(self)@.takes(hits@),
            forall|b: u64, m: u32| call_requires(*perturb, (b, m)),
        ensures
            final(self)@.is_mutation_by(old(self)@, hits@, magnitude, *perturb),
    {
        let ghost before = self@;
        let mut k: usize = 0;
        while k < self.weights.len()
            invariant
                k <= self.weights.len(),
                forall|b: u64, m: u32| call_requires(*perturb, (b, m)),
                before == old(self)@,
                hits.len() == before.weights.len() + 1,
                self.weights.len() == before.weights.len(),
                self.bias == before.bias,
                forall|i: int| k <= i < self.weights.len() ==> self.weights[i] == before.weights[i],
                forall|i: int|
                    0 <= i < k ==> moved(
                        before.weights[i],
                        #[trigger] self.weights[i],
                        hits[i],
                        magnitude,
                        *perturb,
                    ),
            decreases self.weights.len() - k,
        {
            if hits[k] && magnitude > 0 {
                let moved_weight = perturb(self.weights[k], magnitude);
                self.weights[k] = moved_weight;
            }
            k += 1;
        }
        if hits[self.weights.len()] && magnitude > 0 {
            self.bias = perturb(self.bias, magnitude);
        }
    }

    /// The node of `width` weights whose parameters are all zero.
    pub fn zeroed(width: usize) -> (node: Node)
        ensures
            node@ == NodeView::blank(width as nat),
    {
        let mut weights: Vec<u64> = Vec::new();
        let mut k: usize = 0;
        while k < width
            invariant
                k <= width,
                weights.len() == k,
                forall|i: int| 0 <= i < k ==> weights[i] == 0,
            decreases width - k,
        {
            weights.push(0);
            k += 1;
        }
        assert(weights@ =~= NodeView::blank(width as nat).weights);
        Node { weights, bias: 0 }
    }
}

impl Clone for Layer {
    fn clone(&self) -> (copy: Self)
        ensures
            copy@ == self@,
    {
        let mut nodes: Vec<Node> = Vec::new();
        let mut j: usize = 0;
        while j < self.nodes.len()
            invariant
                j <= self.nodes.len(),
                nodes.len() == j,
                forall|i: int| 0 <= i < j ==> nodes[i]@ == self.nodes[i]@,
            decreases self.nodes.len() - j,
        {
            nodes.push(self.nodes[j].clone());
            j += 1;
        }
        let copy = Layer { nodes };
        assert(copy@ =~= self@);
        copy
    }
}

impl Layer {
    /// Uniform crossover of two layers, node by node.
    pub fn merge(&self, other: &Layer) -> (child: Layer)
        requires
            self@.len() == other@.len(),
            forall|j: int|
                0 <= j < self@.len() ==> (#[trigger] self@[j]).weights.len()
                    == other@[j].weights.len(),
        ensures
            child@.len() == self@.len(),
            forall|j: int|
                0 <= j < self@.len() ==> (#[trigger] child@[j]).is_crossover_of(
                    self@[j],
                    other@[j],
                ),
    {
        let picks = self.draw_picks();
        let child = self.merge_by(other, &picks);
        proof {
            assert forall|j: int| 0 <= j < self@.len() implies (
            #[trigger] child@[j]).is_crossover_of(self@[j], other@[j]) by {
                lemma_crossed_node(self@[j], other@[j], flags_view(picks@)[j]);
            }
        }
        child
    }

    /// Crossover of two layers by given picks, node by node.
    pub fn merge_by(&self, other: &Layer, picks: &Vec<Vec<bool>>) -> (child: Layer)
        requires
            self@.len() == other@.len(),
            forall|j: int|
                0 <= j < self@.len() ==> (#[trigger] self@[j]).weights.len()
                    == other@[j].weights.len(),
            layer_takes(self@, flags_view(picks@)),
        ensures
            child@ == crossed_layer(self@, other@, flags_view(picks@)),
    {
        let mut nodes: Vec<Node> = Vec::new();
        let mut j: usize = 0;
        while j < self.nodes.len()
            invariant
                j <= self.nodes.len(),
                self@.len() == other@.len(),
                self@.len() == self.nodes.len(),
                other@.len() == other.nodes.len(),
                forall|i: int|
                    0 <= i < self@.len() ==> (#[trigger] self@[i]).weights.len()
                        == other@[i].weights.len(),
                layer_takes(self@, flags_view(picks@)),
                nodes.len() == j,
                forall|i: int|
                    0 <= i < j ==> (#[trigger] nodes[i])@ == NodeView::crossed(
                        self@[i],
                        other@[i],
                        picks[i]@,
                    ),
            decreases self.nodes.len() - j,
        {
            assert(self@[j as int] == self.nodes[j as int]@);
            assert(other@[j as int] == other.nodes[j as int]@);
            assert(self@[j as int].takes(flags_view(picks@)[j as int]));
            assert(flags_view(picks@)[j as int] == picks[j as int]@);
            let merged = self.nodes[j].merge_by(&other.nodes[j], &picks[j]);
            nodes.push(merged);
            j += 1;
        }
        let child = Layer { nodes };
        assert(child@ =~= crossed_layer(self@, other@, flags_view(picks@))) by {
            assert forall|i: int| 0 <= i < child@.len() implies child@[i] == crossed_layer(
                self@,
                other@,
                flags_view(picks@),
            )[i] by {
                assert(child@[i] == child.nodes[i]@);
                assert(flags_view(picks@)[i] == picks[i]@);
            }
        }
        child
    }

    /// Flips one coin for each parameter of the layer.
    fn draw_picks(&self) -> (picks: Vec<Vec<bool>>)
        ensures
            layer_takes(self@, flags_view(picks@)),
    {
        let mut picks: Vec<Vec<bool>> = Vec::new();
        let mut j: usize = 0;
        while j < self.nodes.len()
            invariant
                j <= self.nodes.len(),
                picks.len() == j,
                forall|i: int| 0 <= i < j ==> self.nodes[i]@.takes(#[trigger] picks[i]@),
            decreases self.nodes.len() - j,
        {
            picks.push(self.nodes[j].draw_picks());
            j += 1;
        }
        assert forall|i: int| 0 <= i < self@.len() implies #[trigger] self@[i].takes(
            flags_view(picks@)[i],
        ) by {
            assert(self@[i] == self.nodes[i]@);
            assert(flags_view(picks@)[i] == picks[i]@);
        }
        picks
    }

    /// Decides for each parameter of the layer whether it is hit at the
    /// given rate.
    fn draw_hits(&self, rate: u32) -> (hits: Vec<Vec<bool>>)
        ensures
            layer_takes(self@, flags_view(hits@)),
            layer_rated(flags_view(hits@), rate),
    {
        let mut hits: Vec<Vec<bool>> = Vec::new();
        let mut j: usize = 0;
        while j < self.nodes.len()
            invariant
                j <= self.nodes.len(),
                hits.len() == j,
                forall|i: int|
                    0 <= i < j ==> self.nodes[i]@.takes(#[trigger] hits[i]@) && rated(
                        hits[i]@,
                        rate,
                    ),
            decreases self.nodes.len() - j,
        {
            hits.push(self.nodes[j].draw_hits(rate));
            j += 1;
        }
        assert forall|i: int| 0 <= i < self@.len() implies #[trigger] self@[i].takes(
            flags_view(hits@)[i],
        ) by {
            assert(self@[i] == self.nodes[i]@);
            assert(flags_view(hits@)[i] == hits[i]@);
        }
        assert forall|i: int| 0 <= i < flags_view(hits@).len() implies rated(
            #[trigger] flags_view(hits@)[i],
            rate,
        ) by {
            assert(flags_view(hits@)[i] == hits[i]@);
        }
        hits
    }

    /// A layer of `layer_size` nodes, each of `prev_layer_size` weights,
    /// every parameter drawn afresh.
    pub fn new<D: Fn() -> u64>(layer_size: usize, prev_layer_size: usize, draw: &D) -> (layer:
        Layer)
        requires
            call_requires(*draw, ()),
        ensures
            layer@.len() == layer_size,
            forall|j: int|
                0 <= j < layer_size ==> (#[trigger] layer@[j]).weights.len() == prev_layer_size
                    && layer@[j].is_drawn(*draw),
    {
        let mut nodes: Vec<Node> = Vec::new();
        let mut j: usize = 0;
        while j < layer_size
            invariant
                j <= layer_size,
                call_requires(*draw, ()),
                nodes.len() == j,
                forall|i: int|
                    0 <= i < j ==> (#[trigger] nodes[i])@.weights.len() == prev_layer_size
                        && nodes[i]@.is_drawn(*draw),
            decreases layer_size - j,
        {
            nodes.push(Node::new(prev_layer_size, draw));
            j += 1;
        }
        let layer = Layer { nodes };
        assert forall|j: int| 0 <= j < layer_size implies (#[trigger] layer@[j]).weights.len()
            == prev_layer_size && layer@[j].is_drawn(*draw) by {
            assert(layer@[j] == layer.nodes[j]@);
        }
        layer
    }

    /// What the layer computes from `inputs`: the output of each node, in
    /// order.
    pub fn predict<A: Fn(u64, u64, u64) -> u64, R: Fn(u64) -> u64>(
        &self,
        inputs: &Vec<u64>,
        accumulate: &A,
        activate: &R,
    ) -> (layer_results: Vec<u64>)
        requires
            forall|j: int|
                0 <= j < self@.len() ==> (#[trigger] self@[j]).weights.len() == inputs.len(),
            forall|s: u64, w: u64, x: u64| call_requires(*accumulate, (s, w, x)),
            forall|s: u64| call_requires(*activate, (s,)),
        ensures
            layer_results.len() == self@.len(),
            forall|j: int|
                0 <= j < self@.len() ==> self@[j].computes(
                    inputs@,
                    #[trigger] layer_results[j],
                    *accumulate,
                    *activate,
                ),
    {
        let mut layer_results: Vec<u64> = Vec::new();
        let mut j: usize = 0;
        while j < self.nodes.len()
            invariant
                j <= self.nodes.len(),
                self@.len() == self.nodes.len(),
                forall|i: int|
                    0 <= i < self@.len() ==> (#[trigger] self@[i]).weights.len() == inputs.len(),
                forall|s: u64, w: u64, x: u64| call_requires(*accumulate, (s, w, x)),
                forall|s: u64| call_requires(*activate, (s,)),
                layer_results.len() == j,
                forall|i: int|
                    0 <= i < j ==> self@[i].computes(
                        inputs@,
                        #[trigger] layer_results[i],
                        *accumulate,
                        *activate,
                    ),
            decreases self.nodes.len() - j,
        {
            assert(self@[j as int] == self.nodes[j as int]@);
            let out = self.nodes[j].predict(inputs, accumulate, activate);
            layer_results.push(out);
            j += 1;
        }
        layer_results
    }

    /// Mutates the layer in place, node by node.
    pub fn mutate<P: Fn(u64, u32) -> u64>(&mut self, rate: u32, magnitude: u32, perturb: &P)
        requires
            forall|b: u64, m: u32| call_requires(*perturb, (b, m)),
        ensures
            final(self)@.len() == old(self)@.len(),
            forall|j: int|
                0 <= j < old(self)@.len() ==> (#[trigger] final(self)@[j]).is_mutation_of(
                    old(self)@[j],
                    rate,
                    magnitude,
                    *perturb,
                ),
    {
        let hits = self.draw_hits(rate);
        self.mutate_by(&hits, magnitude, perturb);
        proof {
            lemma_rated_layer(old(self)@, self@, flags_view(hits@), rate, magnitude, *perturb);
        }
    }

    /// Mutates the layer in place by given hits, node by node.
    pub fn mutate_by<P: Fn(u64, u32) -> u64>(
        &mut self,
        hits: &Vec<Vec<bool>>,
        magnitude: u32,
        perturb: &P,
    )
        requires
            layer_takes(old(self)@, flags_view(hits@)),
            forall|b: u64, m: u32| call_requires(*perturb, (b, m)),
        ensures
            layer_is_mutation_by(
                final(self)@,
                old(self)@,
                flags_view(hits@),
                magnitude,
                *perturb,
            ),
    {
        let ghost before = self@;
        let n = self.nodes.len();
        let mut j: usize = 0;
        while j < n
            invariant
                j <= n,
                n == self.nodes.len(),
                forall|b: u64, m: u32| call_requires(*perturb, (b, m)),
                before == old(self)@,
                before.len() == n,
                layer_takes(before, flags_view(hits@)),
                forall|i: int| j <= i < n ==> (#[trigger] self.nodes[i])@ == before[i],
                forall|i: int|
                    0 <= i < j ==> (#[trigger] self.nodes[i])@.is_mutation_by(
                        before[i],
                        hits[i]@,
                        magnitude,
                        *perturb,
                    ),
            decreases n - j,
        {
            let ghost nodes_before = self.nodes@;
            assert(before[j as int].takes(flags_view(hits@)[j as int]));
            assert(flags_view(hits@)[j as int] == hits[j as int]@);
            self.nodes[j].mutate_by(&hits[j], magnitude, perturb);
            assert(forall|i: int| 0 <= i < n && i != j ==> self.nodes[i] == nodes_before[i]);
            j += 1;
        }
        assert forall|j: int| 0 <= j < before.len() implies (
        #[trigger] self@[j]).is_mutation_by(
            before[j],
            flags_view(hits@)[j],
            magnitude,
            *perturb,
        ) by {
            assert(self@[j] == self.nodes[j]@);
            assert(flags_view(hits@)[j] == hits[j]@);
        }
    }

    /// The layer of `size` nodes, each of `width` weights, whose parameters
    /// are all zero.
    pub fn zeroed(size: usize, width: usize) -> (layer: Layer)
        ensures
            layer@ == Seq::new(size as nat, |j: int| NodeView::blank(width as nat)),
    {
        let mut nodes: Vec<Node> = Vec::new();
        let mut j: usize = 0;
        while j < size
            invariant
                j <= size,
                nodes.len() == j,
                forall|i: int| 0 <= i < j ==> nodes[i]@ == NodeView::blank(width as nat),
            decreases size - j,
        {
            nodes.push(Node::zeroed(width));
            j += 1;
        }
        let layer = Layer { nodes };
        assert(layer@ =~= Seq::new(size as nat, |j: int| NodeView::blank(width as nat)));
        layer
    }

    /// Whether the layer is not empty and each of its nodes has `width`
    /// weights.
    pub fn fits(&self, width: usize) -> (ok: bool)
        ensures
            ok == (self@.len() >= 1 && forall|j: int|
                0 <= j < self@.len() ==> (#[trigger] self@[j]).weights.len() == width),
    {
        if self.nodes.len() == 0 {
            return false;
        }
        let mut j: usize = 0;
        while j < self.nodes.len()
            invariant
                j <= self.nodes.len(),
                self@.len() == self.nodes.len(),
                forall|i: int| 0 <= i < j ==> (#[trigger] self@[i]).weights.len() == width,
            decreases self.nodes.len() - j,
        {
            assert(self@[j as int] == self.nodes[j as int]@);
            if self.nodes[j].weights.len() != width {
                return false;
            }
            j += 1;
        }
        true
    }
}

impl Clone for Net {
    fn clone(&self) -> (copy: Self)
        ensures
            copy@ == self@,
            copy@.wf(),
    {
        proof {
            use_type_invariant(self);
        }
        let mut layers: Vec<Layer> = Vec::new();
        let mut l: usize = 0;
        while l < self.layers.len()
            invariant
                l <= self.layers.len(),
                layers.len() == l,
                forall|i: int| 0 <= i < l ==> layers[i]@ == self.layers[i]@,
            decreases self.layers.len() - l,
        {
            layers.push(self.layers[l].clone());
            l += 1;
        }
        assert(layers_view(layers@) =~= layers_view(self.layers@));
        Net { n_inputs: self.n_inputs, layers }
    }
}

impl Net {
    #[verifier::type_invariant]
    spec fn shape_rule(self) -> bool {
        self@.wf()
    }

    /// Assembles a network from its input width and its layers. Refuses
    /// parts that break the shape rule: no input, no layer, an empty layer,
    /// or a node whose number of weights is not the width of the layer
    /// before it.
    pub fn from_layers(n_inputs: usize, layers: Vec<Layer>) -> (made: Option<Net>)
        ensures
            match made {
                Some(net) => NetView::assemble(n_inputs as nat, layers_view(layers@)) == Some(
                    net@,
                ),
                None => NetView::assemble(n_inputs as nat, layers_view(layers@)) is None,
            },
    {
        let ghost v = NetView { n_inputs: n_inputs as nat, layers: layers_view(layers@) };
        if n_inputs == 0 || layers.len() == 0 {
            return None;
        }
        let mut width: usize = n_inputs;
        let mut l: usize = 0;
        while l < layers.len()
            invariant
                l <= layers.len(),
                v == (NetView { n_inputs: n_inputs as nat, layers: layers_view(layers@) }),
                width == v.width_before(l as int),
                forall|i: int| 0 <= i < l ==> (#[trigger] v.layers[i]).len() >= 1,
                forall|i: int, j: int|
                    0 <= i < l && 0 <= j < v.layers[i].len() ==> (
                    #[trigger] v.layers[i][j]).weights.len() == v.width_before(i),
            decreases layers.len() - l,
        {
            assert(v.layers[l as int] == layers[l as int]@);
            if !layers[l].fits(width) {
                proof {
                    if v.layers[l as int].len() >= 1 {
                        let j = choose|j: int|
                            0 <= j < v.layers[l as int].len() && (
                            #[trigger] v.layers[l as int][j]).weights.len() != width;
                        assert(v.layers[l as int][j].weights.len() != v.width_before(l as int));
                    }
                    assert(!v.wf());
                }
                return None;
            }
            width = layers[l].nodes.len();
            l += 1;
        }
        assert(v.wf());
        Some(Net { n_inputs, layers })
    }

    /// A network of the topology `layer_sizes` (the input width, then the
    /// node count of each layer), every weight and bias drawn afresh.
    pub fn new<D: Fn() -> u64>(layer_sizes: &[usize], draw: &D) -> (net: Net)
        requires
            valid_sizes(layer_sizes@),
            call_requires(*draw, ()),
        ensures
            net@.wf(),
            net@.layer_sizes() == layer_sizes@.map_values(|s: usize| s as nat),
            net@.is_drawn(*draw),
    {
        let mut layers: Vec<Layer> = Vec::new();
        let first_layer_size = layer_sizes[0];
        let mut prev_layer_size = first_layer_size;
        let mut l: usize = 1;
        while l < layer_sizes.len()
            invariant
                1 <= l <= layer_sizes.len(),
                valid_sizes(layer_sizes@),
                call_requires(*draw, ()),
                prev_layer_size == layer_sizes[l - 1],
                layers.len() == l - 1,
                forall|i: int|
                    0 <= i < l - 1 ==> (#[trigger] layers[i])@.len() == layer_sizes[i + 1],
                forall|i: int, j: int|
                    0 <= i < l - 1 && 0 <= j < layers[i]@.len() ==> (
                    #[trigger] layers[i]@[j]).weights.len() == layer_sizes[i]
                        && layers[i]@[j].is_drawn(*draw),
            decreases layer_sizes.len() - l,
        {
            let layer_size = layer_sizes[l];
            layers.push(Layer::new(layer_size, prev_layer_size, draw));
            prev_layer_size = layer_size;
            l += 1;
        }
        let ghost v = NetView { n_inputs: first_layer_size as nat, layers: layers_view(layers@) };
        proof {
            assert forall|i: int| 0 <= i < v.layers.len() implies (#[trigger] v.layers[i]).len()
                == layer_sizes[i + 1] by {
                assert(v.layers[i] == layers[i]@);
            }
            assert forall|i: int, j: int|
                0 <= i < v.layers.len() && 0 <= j < v.layers[i].len() implies (
            #[trigger] v.layers[i][j]).weights.len() == v.width_before(i)
                && v.layers[i][j].is_drawn(*draw) by {
                assert(v.layers[i] == layers[i]@);
                if i > 0 {
                    assert(v.layers[i - 1] == layers[i - 1]@);
                }
            }
            assert(v.layer_sizes() =~= layer_sizes@.map_values(|s: usize| s as nat));
        }
        Net { n_inputs: first_layer_size, layers }
    }

    /// Runs the network on `inputs` and returns the outputs of its last
    /// layer.
    pub fn predict<A: Fn(u64, u64, u64) -> u64, R: Fn(u64) -> u64>(
        &self,
        inputs: Vec<u64>,
        accumulate: &A,
        activate: &R,
    ) -> (outputs: Vec<u64>)
        requires
            inputs.len() == self@.n_inputs,
            forall|s: u64, w: u64, x: u64| call_requires(*accumulate, (s, w, x)),
            forall|s: u64| call_requires(*activate, (s,)),
        ensures
            exists|trace: Seq<Seq<u64>>| #[trigger]
                self@.is_trace(inputs@, trace, *accumulate, *activate) && outputs@ == trace.last(),
            self@.is_zero() && all_zero(inputs@) && rests_at_zero(*accumulate, *activate)
                ==> all_zero(outputs@),
    {
        let mut all = self.activations(inputs, accumulate, activate);
        let ghost trace = trace_view(all@);
        let outputs = all.pop();
        match outputs {
            Some(outputs) => {
                assert(self@.is_trace(inputs@, trace, *accumulate, *activate) && outputs@
                    == trace.last());
                outputs
            },
            None => Vec::new(),
        }
    }

    /// Runs the network on `inputs` and returns the values of every layer:
    /// the inputs first, the outputs of the last layer at the end.
    pub fn activations<A: Fn(u64, u64, u64) -> u64, R: Fn(u64) -> u64>(
        &self,
        inputs: Vec<u64>,
        accumulate: &A,
        activate: &R,
    ) -> (outputs: Vec<Vec<u64>>)
        requires
            inputs.len() == self@.n_inputs,
            forall|s: u64, w: u64, x: u64| call_requires(*accumulate, (s, w, x)),
            forall|s: u64| call_requires(*activate, (s,)),
        ensures
            self@.is_trace(inputs@, trace_view(outputs@), *accumulate, *activate),
            self@.is_zero() && all_zero(inputs@) && rests_at_zero(*accumulate, *activate)
                ==> forall|l: int| 0 <= l < outputs.len() ==> all_zero(#[trigger] outputs[l]@),
    {
        proof {
            use_type_invariant(self);
        }
        let ghost v = self@;
        let ghost first = inputs@;
        let mut outputs: Vec<Vec<u64>> = Vec::new();
        outputs.push(inputs);
        let mut layer_index: usize = 0;
        while layer_index < self.layers.len()
            invariant
                layer_index <= self.layers.len(),
                v == self@,
                v.wf(),
                v.layers == layers_view(self.layers@),
                first.len() == v.n_inputs,
                forall|s: u64, w: u64, x: u64| call_requires(*accumulate, (s, w, x)),
                forall|s: u64| call_requires(*activate, (s,)),
                outputs.len() == layer_index + 1,
                outputs[0]@ == first,
                forall|l: int|
                    1 <= l < outputs.len() ==> (#[trigger] outputs[l])@.len()
                        == v.layers[l - 1].len(),
                forall|l: int, j: int|
                    1 <= l < outputs.len() && 0 <= j < outputs[l]@.len()
                        ==> v.layers[l - 1][j].computes(
                        outputs[l - 1]@,
                        #[trigger] outputs[l]@[j],
                        *accumulate,
                        *activate,
                    ),
            decreases self.layers.len() - layer_index,
        {
            let layer = &self.layers[layer_index];
            assert(v.layers[layer_index as int] == layer@);
            assert(outputs[layer_index as int]@.len() == v.width_before(layer_index as int));
            assert forall|j: int| 0 <= j < layer@.len() implies (#[trigger] layer@[j]).weights.len()
                == outputs[layer_index as int]@.len() by {
                assert(v.layers[layer_index as int][j].weights.len() == v.width_before(
                    layer_index as int,
                ));
            }
            let layer_results = layer.predict(&outputs[layer_index], accumulate, activate);
            outputs.push(layer_results);
            layer_index += 1;
        }
        proof {
            let trace = trace_view(outputs@);
            assert(trace[0] == first);
            assert forall|l: int| 1 <= l < trace.len() implies (#[trigger] trace[l]).len()
                == v.layers[l - 1].len() by {
                assert(trace[l] == outputs[l]@);
            }
            assert forall|l: int, j: int|
                1 <= l < trace.len() && 0 <= j < trace[l].len() implies v.layers[l - 1][j].computes(
                trace[l - 1],
                #[trigger] trace[l][j],
                *accumulate,
                *activate,
            ) by {
                assert(trace[l] == outputs[l]@);
                assert(trace[l - 1] == outputs[l - 1]@);
                assert(v.layers[l - 1][j].computes(
                    outputs[l - 1]@,
                    outputs[l]@[j],
                    *accumulate,
                    *activate,
                ));
            }
            if v.is_zero() && all_zero(first) && rests_at_zero(*accumulate, *activate) {
                lemma_zero_in_zero_out(v, first, trace, *accumulate, *activate);
                assert forall|l: int| 0 <= l < outputs.len() implies all_zero(
                    #[trigger] outputs[l]@,
                ) by {
                    assert(trace[l] == outputs[l]@);
                }
            }
        }
        outputs
    }

    /// Mutates the network in place: every weight and every bias is,
    /// with a chance of `rate` in a hundred, replaced by what `perturb`
    /// makes of it at the given magnitude. A magnitude of zero moves
    /// nothing. The topology stays.
    pub fn mutate<P: Fn(u64, u32) -> u64>(&mut self, rate: u32, magnitude: u32, perturb: &P)
        requires
            forall|b: u64, m: u32| call_requires(*perturb, (b, m)),
        ensures
            final(self)@.is_mutation_of(old(self)@, rate, magnitude, *perturb),
            final(self)@.wf(),
            final(self)@.layer_sizes() == old(self)@.layer_sizes(),
            rate == 0 ==> final(self)@ == old(self)@,
            magnitude == 0 ==> final(self)@ == old(self)@,
            (forall|b: u64, r: u64| call_ensures(*perturb, (b, magnitude), r) ==> r == b)
                ==> final(self)@ == old(self)@,
    {
        let hits = self.draw_hits(rate);
        self.mutate_by(&hits, magnitude, perturb);
        proof {
            lemma_rated(old(self)@, self@, layered_flags_view(hits@), rate, magnitude, *perturb);
            if rate == 0 || magnitude == 0 || (forall|b: u64, r: u64|
                call_ensures(*perturb, (b, magnitude), r) ==> r == b) {
                lemma_mutation_identity(old(self)@, self@, rate, magnitude, *perturb);
            }
        }
    }

    /// Mutates the network in place by given hits: every weight and every
    /// bias is replaced by what `perturb` makes of it where its flag is
    /// set, and kept where it is not. A magnitude of zero moves nothing.
    /// The topology stays.
    pub fn mutate_by<P: Fn(u64, u32) -> u64>(
        &mut self,
        hits: &Vec<Vec<Vec<bool>>>,
        magnitude: u32,
        perturb: &P,
    )
        requires
            old(self)@.takes(layered_flags_view(hits@)),
            forall|b: u64, m: u32| call_requires(*perturb, (b, m)),
        ensures
            final(self)@.is_mutation_by(
                old(self)@,
                layered_flags_view(hits@),
                magnitude,
                *perturb,
            ),
            final(self)@.wf(),
            final(self)@.layer_sizes() == old(self)@.layer_sizes(),
    {
        proof {
            use_type_invariant(&*self);
        }
        let ghost before = self@;
        let ghost flags = layered_flags_view(hits@);
        let mut layers: Vec<Layer> = Vec::new();
        let mut l: usize = 0;
        while l < self.layers.len()
            invariant
                l <= self.layers.len(),
                forall|b: u64, m: u32| call_requires(*perturb, (b, m)),
                before == self@,
                before.layers == layers_view(self.layers@),
                flags == layered_flags_view(hits@),
                before.takes(flags),
                layers.len() == l,
                forall|i: int|
                    0 <= i < l ==> layer_is_mutation_by(
                        (#[trigger] layers[i])@,
                        before.layers[i],
                        flags[i],
                        magnitude,
                        *perturb,
                    ),
            decreases self.layers.len() - l,
        {
            let mut layer = self.layers[l].clone();
            assert(before.layers[l as int] == self.layers[l as int]@);
            assert(layer_takes(before.layers[l as int], flags[l as int]));
            assert(flags[l as int] == flags_view(hits[l as int]@));
            layer.mutate_by(&hits[l], magnitude, perturb);
            layers.push(layer);
            l += 1;
        }
        let ghost v = NetView { n_inputs: self.n_inputs as nat, layers: layers_view(layers@) };
        proof {
            assert forall|i: int| 0 <= i < v.layers.len() implies layer_is_mutation_by(
                #[trigger] v.layers[i],
                before.layers[i],
                flags[i],
                magnitude,
                *perturb,
            ) by {
                assert(v.layers[i] == layers[i]@);
            }
            assert(v.is_mutation_by(before, flags, magnitude, *perturb));
            lemma_mutation_by_is_mutation(before, v, flags, magnitude, *perturb);
            lemma_mutation_keeps_shape(before, v, 50, magnitude, *perturb);
        }
        self.layers = layers;
    }

    /// Decides for each parameter of the network whether it is hit at the
    /// given rate.
    fn draw_hits(&self, rate: u32) -> (hits: Vec<Vec<Vec<bool>>>)
        ensures
            self@.takes(layered_flags_view(hits@)),
            NetView::rated(layered_flags_view(hits@), rate),
    {
        let mut hits: Vec<Vec<Vec<bool>>> = Vec::new();
        let mut l: usize = 0;
        while l < self.layers.len()
            invariant
                l <= self.layers.len(),
                hits.len() == l,
                forall|i: int|
                    0 <= i < l ==> layer_takes(
                        self.layers[i]@,
                        flags_view((#[trigger] hits[i])@),
                    ) && layer_rated(flags_view(hits[i]@), rate),
            decreases self.layers.len() - l,
        {
            hits.push(self.layers[l].draw_hits(rate));
            l += 1;
        }
        proof {
            let flags = layered_flags_view(hits@);
            assert forall|i: int| 0 <= i < self@.layers.len() implies layer_takes(
                #[trigger] self@.layers[i],
                flags[i],
            ) by {
                assert(self@.layers[i] == self.layers[i]@);
                assert(flags[i] == flags_view(hits[i]@));
            }
            assert forall|i: int| 0 <= i < flags.len() implies layer_rated(
                #[trigger] flags[i],
                rate,
            ) by {
                assert(flags[i] == flags_view(hits[i]@));
            }
        }
        hits
    }

    /// Flips one coin for each parameter of the network.
    fn draw_picks(&self) -> (picks: Vec<Vec<Vec<bool>>>)
        ensures
            self@.takes(layered_flags_view(picks@)),
    {
        let mut picks: Vec<Vec<Vec<bool>>> = Vec::new();
        let mut l: usize = 0;
        while l < self.layers.len()
            invariant
                l <= self.layers.len(),
                picks.len() == l,
                forall|i: int|
                    0 <= i < l ==> layer_takes(
                        self.layers[i]@,
                        flags_view((#[trigger] picks[i])@),
                    ),
            decreases self.layers.len() - l,
        {
            picks.push(self.layers[l].draw_picks());
            l += 1;
        }
        proof {
            let flags = layered_flags_view(picks@);
            assert forall|i: int| 0 <= i < self@.layers.len() implies layer_takes(
                #[trigger] self@.layers[i],
                flags[i],
            ) by {
                assert(self@.layers[i] == self.layers[i]@);
                assert(flags[i] == flags_view(picks[i]@));
            }
        }
        picks
    }

    /// The network of the topology `layer_sizes` (the input width, then
    /// the node count of each layer) whose parameters are all zero.
    pub fn zeroed(layer_sizes: &[usize]) -> (net: Net)
        requires
            valid_sizes(layer_sizes@),
        ensures
            net@ == NetView::blank(layer_sizes@),
            net@.wf(),
            net@.is_zero(),
            net@.layer_sizes() == layer_sizes@.map_values(|s: usize| s as nat),
    {
        let mut layers: Vec<Layer> = Vec::new();
        let mut l: usize = 1;
        while l < layer_sizes.len()
            invariant
                1 <= l <= layer_sizes.len(),
                layers.len() == l - 1,
                forall|i: int|
                    0 <= i < l - 1 ==> (#[trigger] layers[i])@ == Seq::new(
                        layer_sizes@[i + 1] as nat,
                        |j: int| NodeView::blank(layer_sizes@[i] as nat),
                    ),
            decreases layer_sizes.len() - l,
        {
            layers.push(Layer::zeroed(layer_sizes[l], layer_sizes[l - 1]));
            l += 1;
        }
        proof {
            assert(layers_view(layers@) =~= NetView::blank(layer_sizes@).layers);
            lemma_blank_wf(layer_sizes@);
        }
        Net { n_inputs: layer_sizes[0], layers }
    }

    /// Uniform crossover: a new network in which each weight and each bias
    /// is taken from `self` or from `other` on the flip of a coin.
    pub fn merge(&self, other: &Net) -> (child: Net)
        requires
            self@.same_shape(other@),
        ensures
            child@.is_crossover_of(self@, other@),
            child@.wf(),
            self@ == other@ ==> child@ == self@,
    {
        let picks = self.draw_picks();
        let child = self.merge_by(other, &picks);
        proof {
            lemma_crossed(self@, other@, layered_flags_view(picks@));
            if self@ == other@ {
                lemma_crossover_of_identical(self@, child@);
            }
        }
        child
    }

    /// Crossover by given picks: a new network in which each weight and
    /// each bias is taken from `self` where its pick is set and from
    /// `other` where it is not.
    pub fn merge_by(&self, other: &Net, picks: &Vec<Vec<Vec<bool>>>) -> (child: Net)
        requires
            self@.same_shape(other@),
            self@.takes(layered_flags_view(picks@)),
        ensures
            child@ == NetView::crossed(self@, other@, layered_flags_view(picks@)),
            child@.wf(),
    {
        proof {
            use_type_invariant(self);
        }
        let ghost flags = layered_flags_view(picks@);
        let mut merged_layers: Vec<Layer> = Vec::new();
        let mut l: usize = 0;
        while l < self.layers.len()
            invariant
                l <= self.layers.len(),
                self@.same_shape(other@),
                self@.layers == layers_view(self.layers@),
                other@.layers == layers_view(other.layers@),
                flags == layered_flags_view(picks@),
                self@.takes(flags),
                merged_layers.len() == l,
                forall|i: int|
                    0 <= i < l ==> (#[trigger] merged_layers[i])@ == crossed_layer(
                        self@.layers[i],
                        other@.layers[i],
                        flags[i],
                    ),
            decreases self.layers.len() - l,
        {
            assert(self@.layers[l as int] == self.layers[l as int]@);
            assert(other@.layers[l as int] == other.layers[l as int]@);
            assert forall|j: int| 0 <= j < self.layers[l as int]@.len() implies (
            #[trigger] self.layers[l as int]@[j]).weights.len()
                == other.layers[l as int]@[j].weights.len() by {
                assert(self@.layers[l as int][j].weights.len()
                    == other@.layers[l as int][j].weights.len());
            }
            assert(layer_takes(self@.layers[l as int], flags[l as int]));
            assert(flags[l as int] == flags_view(picks[l as int]@));
            let merged_layer = self.layers[l].merge_by(&other.layers[l], &picks[l]);
            merged_layers.push(merged_layer);
            l += 1;
        }
        let ghost v = NetView {
            n_inputs: self.n_inputs as nat,
            layers: layers_view(merged_layers@),
        };
        proof {
            let want = NetView::crossed(self@, other@, flags);
            assert(v.layers =~= want.layers) by {
                assert forall|i: int| 0 <= i < v.layers.len() implies v.layers[i]
                    == want.layers[i] by {
                    assert(v.layers[i] == merged_layers[i]@);
                }
            }
            lemma_crossed(self@, other@, flags);
            lemma_crossover_keeps_shape(self@, other@, v);
        }
        Net { n_inputs: self.n_inputs, layers: merged_layers }
    }

    /// The biases of the nodes of layer `layer_idx`, in order.
    pub fn get_bias(&self, layer_idx: usize) -> (biases: Vec<u64>)
        requires
            layer_idx < self@.layers.len(),
        ensures
            biases@ == self@.layers[layer_idx as int].map_values(|n: NodeView| n.bias),
    {
        let mut res: Vec<u64> = Vec::new();
        let layer = &self.layers[layer_idx];
        let mut j: usize = 0;
        while j < layer.nodes.len()
            invariant
                j <= layer.nodes.len(),
                res.len() == j,
                forall|i: int| 0 <= i < j ==> res[i] == layer.nodes[i].bias,
            decreases layer.nodes.len() - j,
        {
            res.push(layer.nodes[j].bias);
            j += 1;
        }
        assert(self@.layers[layer_idx as int] == layer@);
        assert(res@ =~= layer@.map_values(|n: NodeView| n.bias));
        res
    }

    /// The width of the input.
    pub fn n_inputs(&self) -> (n: usize)
        ensures
            n == self@.n_inputs,
            self@.wf(),
    {
        proof {
            use_type_invariant(self);
        }
        self.n_inputs
    }

    /// The layers, in order.
    pub fn layers(&self) -> (layers: &Vec<Layer>)
        ensures
            layers_view(layers@) == self@.layers,
            self@.wf(),
    {
        proof {
            use_type_invariant(self);
        }
        &self.layers
    }

    /// The topology: the input width, then the node count of each layer.
    pub fn layer_sizes(&self) -> (sizes: Vec<usize>)
        ensures
            sizes@.map_values(|s: usize| s as nat) == self@.layer_sizes(),
    {
        let mut sizes: Vec<usize> = Vec::new();
        sizes.push(self.n_inputs);
        let mut l: usize = 0;
        while l < self.layers.len()
            invariant
                l <= self.layers.len(),
                sizes.len() == l + 1,
                sizes[0] == self.n_inputs,
                forall|i: int| 0 <= i < l ==> sizes[i + 1] == self.layers[i]@.len(),
            decreases self.layers.len() - l,
        {
            sizes.push(self.layers[l].nodes.len());
            l += 1;
        }
        assert(sizes@.map_values(|s: usize| s as nat) =~= self@.layer_sizes());
        sizes
    }

    /// Whether the network has the topology `sizes`.
    pub fn has_topology(&self, sizes: &[usize]) -> (same: bool)
        ensures
            same == (self@.layer_sizes() == sizes@.map_values(|s: usize| s as nat)),
            self@.wf(),
    {
        proof {
            use_type_invariant(self);
        }
        let own = self.layer_sizes();
        let ghost a = own@.map_values(|s: usize| s as nat);
        let ghost b = sizes@.map_values(|s: usize| s as nat);
        if own.len() != sizes.len() {
            assert(a.len() != b.len());
            return false;
        }
        let mut i: usize = 0;
        while i < own.len()
            invariant
                i <= own.len(),
                own.len() == sizes.len(),
                self@.wf(),
                a == own@.map_values(|s: usize| s as nat),
                b == sizes@.map_values(|s: usize| s as nat),
                a == self@.layer_sizes(),
                forall|k: int| 0 <= k < i ==> own[k] == sizes[k],
            decreases own.len() - i,
        {
            if own[i] != sizes[i] {
                assert(a[i as int] != b[i as int]);
                return false;
            }
            i += 1;
        }
        assert(a =~= b);
        true
    }

    /// Whether the two networks have the same topology.
    pub fn same_topology(&self, other: &Net) -> (same: bool)
        ensures
            same == self@.same_shape(other@),
            same == (self@.layer_sizes() == other@.layer_sizes()),
    {
        proof {
            use_type_invariant(self);
            use_type_invariant(other);
            lemma_same_sizes_same_shape(self@, other@);
        }
        if self.n_inputs != other.n_inputs || self.layers.len() != other.layers.len() {
            proof {
                let a = self@.layer_sizes();
                let b = other@.layer_sizes();
                assert(a.len() == self@.layers.len() + 1);
                assert(b.len() == other@.layers.len() + 1);
                assert(a[0] == self@.n_inputs);
                assert(b[0] == other@.n_inputs);
            }
            return false;
        }
        let mut l: usize = 0;
        while l < self.layers.len()
            invariant
                l <= self.layers.len(),
                self.layers.len() == other.layers.len(),
                forall|i: int| 0 <= i < l ==> self.layers[i]@.len() == other.layers[i]@.len(),
            decreases self.layers.len() - l,
        {
            if self.layers[l].nodes.len() != other.layers[l].nodes.len() {
                proof {
                    let a = self@.layer_sizes();
                    let b = other@.layer_sizes();
                    assert(a[l + 1] == self.layers[l as int]@.len());
                    assert(b[l + 1] == other.layers[l as int]@.len());
                }
                return false;
            }
            l += 1;
        }
        proof {
            assert(self@.layer_sizes() =~= other@.layer_sizes());
        }
        true
    }
}

/// A crossover of two networks of one shape has that shape, and obeys the
/// shape rule where the first parent does.
pub proof fn lemma_crossover_keeps_shape(a: NetView, b: NetView, c: NetView)
    requires
        c.is_crossover_of(a, b),
    ensures
        c.same_shape(a),
        c.layer_sizes() == a.layer_sizes(),
        a.wf() ==> c.wf(),
{
    assert forall|l: int, j: int|
        0 <= l < c.layers.len() && 0 <= j < c.layers[l].len() implies (
    #[trigger] c.layers[l][j]).weights.len() == a.layers[l][j].weights.len() by {
        assert(c.layers[l][j].is_crossover_of(a.layers[l][j], b.layers[l][j]));
    }
    assert(c.layer_sizes() =~= a.layer_sizes());
    if a.wf() {
        assert forall|l: int, j: int|
            0 <= l < c.layers.len() && 0 <= j < c.layers[l].len() implies (
        #[trigger] c.layers[l][j]).weights.len() == c.width_before(l) by {
            assert(c.layers[l][j].weights.len() == a.layers[l][j].weights.len());
            if l > 0 {
                assert(c.layers[l - 1].len() == a.layers[l - 1].len());
            }
        }
    }
}

/// Two networks that obey the shape rule have the same shape exactly when
/// they have the same topology.
pub proof fn lemma_same_sizes_same_shape(a: NetView, b: NetView)
    requires
        a.wf(),
        b.wf(),
    ensures
        a.same_shape(b) <==> a.layer_sizes() == b.layer_sizes(),
{
    let sa = a.layer_sizes();
    let sb = b.layer_sizes();
    if a.same_shape(b) {
        assert(sa =~= sb);
    }
    if sa == sb {
        assert(sa.len() == a.layers.len() + 1);
        assert(sb.len() == b.layers.len() + 1);
        assert(sa[0] == a.n_inputs);
        assert(sb[0] == b.n_inputs);
        assert forall|l: int| 0 <= l < a.layers.len() implies (#[trigger] a.layers[l]).len()
            == b.layers[l].len() by {
            assert(sa[l + 1] == a.layers[l].len());
            assert(sb[l + 1] == b.layers[l].len());
        }
        assert forall|l: int, j: int|
            0 <= l < a.layers.len() && 0 <= j < a.layers[l].len() implies (
        #[trigger] a.layers[l][j]).weights.len() == b.layers[l][j].weights.len() by {
            assert(a.layers[l].len() == b.layers[l].len());
            if l > 0 {
                assert(a.layers[l - 1].len() == b.layers[l - 1].len());
            }
            assert(b.layers[l][j].weights.len() == b.width_before(l));
        }
    }
}

/// The values of a sequence of vectors.
pub open spec fn trace_view(trace: Seq<Vec<u64>>) -> Seq<Seq<u64>> {
    trace.map_values(|v: Vec<u64>| v@)
}

/// A mutation of a network has its shape and topology, and obeys the shape
/// rule where the network does.
pub proof fn lemma_mutation_keeps_shape<P: Fn(u64, u32) -> u64>(
    base: NetView,
    mutant: NetView,
    rate: u32,
    magnitude: u32,
    perturb: P,
)
    requires
        mutant.is_mutation_of(base, rate, magnitude, perturb),
    ensures
        mutant.same_shape(base),
        mutant.layer_sizes() == base.layer_sizes(),
        base.wf() ==> mutant.wf(),
{
    assert forall|l: int, j: int|
        0 <= l < mutant.layers.len() && 0 <= j < mutant.layers[l].len() implies (
    #[trigger] mutant.layers[l][j]).weights.len() == base.layers[l][j].weights.len() by {
        assert(mutant.layers[l][j].is_mutation_of(base.layers[l][j], rate, magnitude, perturb));
    }
    assert(mutant.layer_sizes() =~= base.layer_sizes());
    if base.wf() {
        assert forall|l: int, j: int|
            0 <= l < mutant.layers.len() && 0 <= j < mutant.layers[l].len() implies (
        #[trigger] mutant.layers[l][j]).weights.len() == mutant.width_before(l) by {
            assert(mutant.layers[l][j].weights.len() == base.layers[l][j].weights.len());
            if l > 0 {
                assert(mutant.layers[l - 1].len() == base.layers[l - 1].len());
            }
        }
    }
}

/// Mutation changes nothing at a rate of zero or a magnitude of zero, and
/// nothing where `perturb` at this magnitude hands every parameter back as
/// it is.
pub proof fn lemma_mutation_identity<P: Fn(u64, u32) -> u64>(
    base: NetView,
    mutant: NetView,
    rate: u32,
    magnitude: u32,
    perturb: P,
)
    requires
        mutant.is_mutation_of(base, rate, magnitude, perturb),
        rate == 0 || magnitude == 0 || (forall|b: u64, r: u64|
            call_ensures(perturb, (b, magnitude), r) ==> r == b),
    ensures
        mutant == base,
{
    assert forall|l: int| 0 <= l < mutant.layers.len() implies mutant.layers[l]
        == base.layers[l] by {
        assert(mutant.layers[l].len() == base.layers[l].len());
        assert forall|j: int| 0 <= j < mutant.layers[l].len() implies mutant.layers[l][j]
            == base.layers[l][j] by {
            let x = mutant.layers[l][j];
            let y = base.layers[l][j];
            assert(x.is_mutation_of(y, rate, magnitude, perturb));
            assert forall|k: int| 0 <= k < x.weights.len() implies x.weights[k] == y.weights[k] by {
                assert(mutates(y.weights[k], x.weights[k], rate, magnitude, perturb));
            }
            assert(x.weights =~= y.weights);
        }
        assert(mutant.layers[l] =~= base.layers[l]);
    }
    assert(mutant.layers =~= base.layers);
}

/// A crossover of two nodes by picks takes every parameter from one of
/// the two, whatever the picks.
pub proof fn lemma_crossed_node(a: NodeView, b: NodeView, picks: Seq<bool>)
    ensures
        NodeView::crossed(a, b, picks).is_crossover_of(a, b),
{
}

/// A crossover of two networks by picks is a crossover of the two,
/// whatever the picks.
pub proof fn lemma_crossed(a: NetView, b: NetView, picks: Seq<Seq<Seq<bool>>>)
    ensures
        NetView::crossed(a, b, picks).is_crossover_of(a, b),
{
    let c = NetView::crossed(a, b, picks);
    assert forall|l: int, j: int|
        0 <= l < c.layers.len() && 0 <= j < c.layers[l].len() implies (
    #[trigger] c.layers[l][j]).is_crossover_of(a.layers[l][j], b.layers[l][j]) by {
        lemma_crossed_node(a.layers[l][j], b.layers[l][j], picks[l][j]);
    }
}

/// A mutation of a node by hits that agree with a rate is a mutation at
/// that rate.
pub proof fn lemma_rated_node<P: Fn(u64, u32) -> u64>(
    base: NodeView,
    mutant: NodeView,
    hits: Seq<bool>,
    rate: u32,
    magnitude: u32,
    perturb: P,
)
    requires
        mutant.is_mutation_by(base, hits, magnitude, perturb),
        base.takes(hits),
        rated(hits, rate),
    ensures
        mutant.is_mutation_of(base, rate, magnitude, perturb),
{
    assert forall|k: int| 0 <= k < mutant.weights.len() implies mutates(
        base.weights[k],
        #[trigger] mutant.weights[k],
        rate,
        magnitude,
        perturb,
    ) by {
        assert(moved(base.weights[k], mutant.weights[k], hits[k], magnitude, perturb));
    }
    let last = base.weights.len() as int;
    assert(hits[last] ==> rate > 0);
}

/// A mutation of a layer by hits that agree with a rate is a mutation at
/// that rate.
pub proof fn lemma_rated_layer<P: Fn(u64, u32) -> u64>(
    base: Seq<NodeView>,
    mutant: Seq<NodeView>,
    hits: Seq<Seq<bool>>,
    rate: u32,
    magnitude: u32,
    perturb: P,
)
    requires
        layer_is_mutation_by(mutant, base, hits, magnitude, perturb),
        layer_takes(base, hits),
        layer_rated(hits, rate),
    ensures
        mutant.len() == base.len(),
        forall|j: int|
            0 <= j < base.len() ==> (#[trigger] mutant[j]).is_mutation_of(
                base[j],
                rate,
                magnitude,
                perturb,
            ),
{
    assert forall|j: int| 0 <= j < base.len() implies (#[trigger] mutant[j]).is_mutation_of(
        base[j],
        rate,
        magnitude,
        perturb,
    ) by {
        assert(base[j].takes(hits[j]));
        assert(rated(hits[j], rate));
        lemma_rated_node(base[j], mutant[j], hits[j], rate, magnitude, perturb);
    }
}

/// A mutation of a network by hits that agree with a rate is a mutation
/// at that rate.
pub proof fn lemma_rated<P: Fn(u64, u32) -> u64>(
    base: NetView,
    mutant: NetView,
    hits: Seq<Seq<Seq<bool>>>,
    rate: u32,
    magnitude: u32,
    perturb: P,
)
    requires
        mutant.is_mutation_by(base, hits, magnitude, perturb),
        base.takes(hits),
        NetView::rated(hits, rate),
    ensures
        mutant.is_mutation_of(base, rate, magnitude, perturb),
{
    assert forall|l: int| 0 <= l < mutant.layers.len() implies (#[trigger] mutant.layers[l]).len()
        == base.layers[l].len() by {
        assert(layer_is_mutation_by(
            mutant.layers[l],
            base.layers[l],
            hits[l],
            magnitude,
            perturb,
        ));
    }
    assert forall|l: int, j: int|
        0 <= l < mutant.layers.len() && 0 <= j < mutant.layers[l].len() implies (
    #[trigger] mutant.layers[l][j]).is_mutation_of(
        base.layers[l][j],
        rate,
        magnitude,
        perturb,
    ) by {
        assert(layer_is_mutation_by(
            mutant.layers[l],
            base.layers[l],
            hits[l],
            magnitude,
            perturb,
        ));
        assert(layer_takes(base.layers[l], hits[l]));
        assert(layer_rated(hits[l], rate));
        lemma_rated_layer(base.layers[l], mutant.layers[l], hits[l], rate, magnitude, perturb);
    }
}

/// A mutation by hits, whatever they are, is a mutation at a rate at
/// which a parameter may be kept and may be perturbed.
pub proof fn lemma_mutation_by_is_mutation<P: Fn(u64, u32) -> u64>(
    base: NetView,
    mutant: NetView,
    hits: Seq<Seq<Seq<bool>>>,
    magnitude: u32,
    perturb: P,
)
    requires
        mutant.is_mutation_by(base, hits, magnitude, perturb),
    ensures
        mutant.is_mutation_of(base, 50, magnitude, perturb),
{
    assert forall|l: int| 0 <= l < mutant.layers.len() implies (#[trigger] mutant.layers[l]).len()
        == base.layers[l].len() by {
        assert(layer_is_mutation_by(
            mutant.layers[l],
            base.layers[l],
            hits[l],
            magnitude,
            perturb,
        ));
    }
    assert forall|l: int, j: int|
        0 <= l < mutant.layers.len() && 0 <= j < mutant.layers[l].len() implies (
    #[trigger] mutant.layers[l][j]).is_mutation_of(
        base.layers[l][j],
        50,
        magnitude,
        perturb,
    ) by {
        assert(layer_is_mutation_by(
            mutant.layers[l],
            base.layers[l],
            hits[l],
            magnitude,
            perturb,
        ));
        let x = mutant.layers[l][j];
        let y = base.layers[l][j];
        assert(x.is_mutation_by(y, hits[l][j], magnitude, perturb));
        assert forall|k: int| 0 <= k < x.weights.len() implies mutates(
            y.weights[k],
            #[trigger] x.weights[k],
            50,
            magnitude,
            perturb,
        ) by {
            assert(moved(y.weights[k], x.weights[k], hits[l][j][k], magnitude, perturb));
        }
    }
}

/// Every value is zero.
pub open spec fn all_zero(values: Seq<u64>) -> bool {
    forall|i: int| 0 <= i < values.len() ==> values[i] == 0
}

/// The arithmetic rests at zero: adding the product of zero and zero to
/// zero gives zero, and the activation of zero is zero.
pub open spec fn rests_at_zero<A: Fn(u64, u64, u64) -> u64, R: Fn(u64) -> u64>(
    accumulate: A,
    activate: R,
) -> bool {
    &&& forall|r: u64| call_ensures(accumulate, (0u64, 0u64, 0u64), r) ==> r == 0
    &&& forall|r: u64| call_ensures(activate, (0u64,), r) ==> r == 0
}

/// A network whose parameters are all zero answers an all-zero input with
/// zeros throughout, under any arithmetic that rests at zero.
pub proof fn lemma_zero_in_zero_out<A: Fn(u64, u64, u64) -> u64, R: Fn(u64) -> u64>(
    net: NetView,
    inputs: Seq<u64>,
    trace: Seq<Seq<u64>>,
    accumulate: A,
    activate: R,
)
    requires
        net.wf(),
        net.is_zero(),
        inputs.len() == net.n_inputs,
        all_zero(inputs),
        net.is_trace(inputs, trace, accumulate, activate),
        rests_at_zero(accumulate, activate),
    ensures
        forall|l: int, j: int|
            0 <= l < trace.len() && 0 <= j < trace[l].len() ==> #[trigger] trace[l][j] == 0,
{
    lemma_zero_layers(net, inputs, trace, accumulate, activate, trace.len() as int - 1);
}

proof fn lemma_zero_layers<A: Fn(u64, u64, u64) -> u64, R: Fn(u64) -> u64>(
    net: NetView,
    inputs: Seq<u64>,
    trace: Seq<Seq<u64>>,
    accumulate: A,
    activate: R,
    upto: int,
)
    requires
        net.wf(),
        net.is_zero(),
        inputs.len() == net.n_inputs,
        all_zero(inputs),
        net.is_trace(inputs, trace, accumulate, activate),
        rests_at_zero(accumulate, activate),
        0 <= upto < trace.len(),
    ensures
        forall|l: int, j: int|
            0 <= l <= upto && 0 <= j < trace[l].len() ==> #[trigger] trace[l][j] == 0,
    decreases upto,
{
    if upto > 0 {
        lemma_zero_layers(net, inputs, trace, accumulate, activate, upto - 1);
        assert forall|j: int| 0 <= j < trace[upto].len() implies #[trigger] trace[upto][j] == 0 by {
            let node = net.layers[upto - 1][j];
            let before = trace[upto - 1];
            assert(node.computes(before, trace[upto][j], accumulate, activate));
            let sums = choose|sums: Seq<u64>| #[trigger]
                node.is_running_sum(before, sums, accumulate) && call_ensures(
                    activate,
                    (sums.last(),),
                    trace[upto][j],
                );
            assert(node.weights.len() == net.width_before(upto - 1));
            assert(before.len() == node.weights.len()) by {
                if upto - 1 > 0 {
                    assert(trace[upto - 1].len() == net.layers[upto - 2].len());
                }
            }
            lemma_zero_sums(node, before, sums, accumulate, sums.len() as int - 1);
        }
    }
}

proof fn lemma_zero_sums<A: Fn(u64, u64, u64) -> u64>(
    node: NodeView,
    inputs: Seq<u64>,
    sums: Seq<u64>,
    accumulate: A,
    upto: int,
)
    requires
        node.bias == 0,
        forall|k: int| 0 <= k < node.weights.len() ==> node.weights[k] == 0,
        inputs.len() == node.weights.len(),
        forall|i: int| 0 <= i < inputs.len() ==> inputs[i] == 0,
        node.is_running_sum(inputs, sums, accumulate),
        forall|r: u64| call_ensures(accumulate, (0u64, 0u64, 0u64), r) ==> r == 0,
        0 <= upto < sums.len(),
    ensures
        sums[upto] == 0,
    decreases upto,
{
    if upto > 0 {
        lemma_zero_sums(node, inputs, sums, accumulate, upto - 1);
        assert(call_ensures(
            accumulate,
            (sums[upto - 1], node.weights[upto - 1], inputs[upto - 1]),
            sums[upto],
        ));
    }
}

} // verus!
