//! The genome: an ordered chain of dense affine layers, 16 inputs to 5
//! outputs, together with its factories.

use crate::fp32::{
    add_bits, avg_bits, f32_add, f32_avg, f32_lt, f32_mul, f32_relu, mul_bits, relu_bits,
    HALF_BITS, QUARTER_BITS, TENTH_BITS,
};
use crate::rng::{rand_range_usize, rand_scalar, rand_unit};
use rand::rngs::StdRng;
use vstd::prelude::*;

verus! {

/// Fixed width of the input vector.
pub const INPUT_DIM: usize = 16;

/// Fixed width of the output vector.
pub const OUTPUT_DIM: usize = 5;

/// Fewest units a hidden layer may have.
pub const MIN_HIDDEN_UNITS: usize = 8;

/// Most units a hidden layer may have.
pub const MAX_HIDDEN_UNITS: usize = 40;

/// Most hidden layers a net may have.
pub const MAX_HIDDEN_LAYERS: usize = 4;

/// One dense affine layer: `out_dim x in_dim` weights, row-major, and
/// `out_dim` biases, all single-precision bit patterns.
#[derive(Clone)]
pub struct Layer {
    pub in_dim: usize,
    pub out_dim: usize,
    pub w: Vec<u32>,
    pub b: Vec<u32>,
}

/// The mathematical image of a layer.
#[verifier::ext_equal]
pub struct LayerModel {
    pub in_dim: nat,
    pub out_dim: nat,
    pub w: Seq<u32>,
    pub b: Seq<u32>,
}

impl View for Layer {
    type V = LayerModel;

    open spec fn view(&self) -> LayerModel {
        LayerModel {
            in_dim: self.in_dim as nat,
            out_dim: self.out_dim as nat,
            w: self.w@,
            b: self.b@,
        }
    }
}

/// A net: the chain of layers, the last one being the output layer.
#[derive(Clone)]
pub struct Net {
    pub layers: Vec<Layer>,
}

impl View for Net {
    type V = Seq<LayerModel>;

    open spec fn view(&self) -> Seq<LayerModel> {
        self.layers@.map_values(|l: Layer| l@)
    }
}

/// A layer's storage agrees with its recorded dimensions.
pub open spec fn layer_wf(l: LayerModel) -> bool {
    &&& l.in_dim >= 1
    &&& l.out_dim >= 1
    &&& l.w.len() == l.out_dim * l.in_dim
    &&& l.b.len() == l.out_dim
}

/// The dimension chain: 16 in, 5 out, and every adjacent pair agrees.
pub open spec fn chain_ok(n: Seq<LayerModel>) -> bool {
    &&& n.len() >= 1
    &&& forall|i: int| 0 <= i < n.len() ==> layer_wf(#[trigger] n[i])
    &&& n[0].in_dim == INPUT_DIM
    &&& n[n.len() - 1].out_dim == OUTPUT_DIM
    &&& forall|i: int| 1 <= i < n.len() ==> (#[trigger] n[i].in_dim) == n[i - 1].out_dim
}

/// Hidden-layer bounds: at most 4 hidden layers, widths in [8, 40].
pub open spec fn hidden_ok(n: Seq<LayerModel>) -> bool {
    &&& n.len() - 1 <= MAX_HIDDEN_LAYERS
    &&& forall|i: int| 0 <= i < n.len() - 1 ==>
        MIN_HIDDEN_UNITS <= (#[trigger] n[i].out_dim) <= MAX_HIDDEN_UNITS
}

/// The full genome invariant: a well-formed chain with 1 to 4 hidden layers.
pub open spec fn net_wf(n: Seq<LayerModel>) -> bool {
    &&& chain_ok(n)
    &&& hidden_ok(n)
    &&& n.len() >= 2
}

/// A copy of a vector of scalars.
fn copy_vec_u32(v: &Vec<u32>) -> (r: Vec<u32>)
    ensures
        r@ == v@,
{
    let mut r: Vec<u32> = Vec::new();
    let mut i: usize = 0;
    while i < v.len()
        invariant
            i <= v@.len(),
            r@ == v@.subrange(0, i as int),
        decreases v@.len() - i,
    {
        r.push(v[i]);
        i = i + 1;
    }
    proof {
        assert(r@ =~= v@);
    }
    r
}

/// The accumulator of one output unit after its first `n` inputs:
/// `b[o] + sum of w[o, i] * a[i]`, folded left in IEEE arithmetic.
pub open spec fn row_eval(l: LayerModel, a: Seq<u32>, o: int, n: int) -> u32
    decreases n,
{
    if n <= 0 {
        l.b[o]
    } else {
        add_bits(row_eval(l, a, o, n - 1), mul_bits(l.w[o * l.in_dim + (n - 1)], a[n - 1]))
    }
}

/// One layer's output vector: affine in the input, rectified unless the
/// layer is the final, linear one.
pub open spec fn layer_out(l: LayerModel, a: Seq<u32>, linear: bool) -> Seq<u32> {
    Seq::new(
        l.out_dim,
        |o: int|
            if linear {
                row_eval(l, a, o, l.in_dim as int)
            } else {
                relu_bits(row_eval(l, a, o, l.in_dim as int))
            },
    )
}

/// The activations after running layers `i..` on `a`; the final layer is
/// the linear one.
pub open spec fn run_from(n: Seq<LayerModel>, i: int, a: Seq<u32>) -> Seq<u32>
    decreases n.len() - i,
{
    if i >= n.len() {
        a
    } else {
        run_from(n, i + 1, layer_out(n[i], a, i == n.len() - 1))
    }
}

/// What the whole net computes on an input vector.
pub open spec fn net_eval(n: Seq<LayerModel>, x: Seq<u32>) -> Seq<u32> {
    run_from(n, 0, x)
}

proof fn lemma_run_from_len(n: Seq<LayerModel>, i: int, a: Seq<u32>)
    requires
        0 <= i < n.len(),
    ensures
        run_from(n, i, a).len() == n[n.len() - 1].out_dim,
    decreases n.len() - i,
{
    if i < n.len() - 1 {
        lemma_run_from_len(n, i + 1, layer_out(n[i], a, false));
    } else {
        let z = layer_out(n[i], a, true);
        assert(run_from(n, i, a) == run_from(n, i + 1, z));
        assert(run_from(n, i + 1, z) == z);
    }
}

/// Evaluation is deterministic: the output is a function of the genome's
/// image and the input alone, so equal genomes and equal inputs always give
/// the same output.
pub proof fn lemma_forward_deterministic(
    n1: Seq<LayerModel>,
    n2: Seq<LayerModel>,
    x1: Seq<u32>,
    x2: Seq<u32>,
)
    requires
        n1 == n2,
        x1 == x2,
    ensures
        net_eval(n1, x1) == net_eval(n2, x2),
{
}

impl Layer {
    /// A freshly initialised layer: every weight and bias drawn from
    /// [-scale, scale), weights first, row by row.
    pub fn new_random(in_dim: usize, out_dim: usize, scale: u32, rng: &mut StdRng) -> (r: Layer)
        requires
            1 <= in_dim,
            1 <= out_dim,
            out_dim * in_dim <= usize::MAX,
        ensures
            r@.in_dim == in_dim,
            r@.out_dim == out_dim,
            layer_wf(r@),
    {
        let n = out_dim * in_dim;
        let mut w: Vec<u32> = Vec::new();
        while w.len() < n
            invariant
                w@.len() <= n,
            decreases n - w@.len(),
        {
            w.push(rand_scalar(rng, scale));
        }
        let mut b: Vec<u32> = Vec::new();
        while b.len() < out_dim
            invariant
                b@.len() <= out_dim,
            decreases out_dim - b@.len(),
        {
            b.push(rand_scalar(rng, scale));
        }
        Layer { in_dim, out_dim, w, b }
    }
}

/// One hidden width drawn uniformly from [8, 40].
pub fn rand_hidden_units(rng: &mut StdRng) -> (r: usize)
    ensures
        MIN_HIDDEN_UNITS <= r <= MAX_HIDDEN_UNITS,
{
    rand_range_usize(rng, MIN_HIDDEN_UNITS, MAX_HIDDEN_UNITS)
}

impl Net {
    /// A random net: one hidden layer, with probability 0.25 a second one,
    /// every transition freshly initialised at scale 0.1.
    pub fn new_random(rng: &mut StdRng) -> (r: Net)
        ensures
            net_wf(r@),
            2 <= r@.len() <= 3,
    {
        let mut sizes: Vec<usize> = Vec::new();
        sizes.push(rand_hidden_units(rng));
        let coin = rand_unit(rng);
        if f32_lt(coin, QUARTER_BITS) {
            sizes.push(rand_hidden_units(rng));
        }
        assert(forall|i: int| 0 <= i < sizes@.len() ==>
            MIN_HIDDEN_UNITS <= (#[trigger] sizes@[i]) <= MAX_HIDDEN_UNITS);
        Net::from_hidden_sizes(&sizes, rng)
    }

    /// The chain 16 -> sizes[0] -> ... -> sizes[k-1] -> 5, every transition
    /// freshly initialised at scale 0.1. With no sizes the net is the single
    /// direct 16 -> 5 layer.
    pub fn from_hidden_sizes(sizes: &Vec<usize>, rng: &mut StdRng) -> (r: Net)
        requires
            sizes@.len() <= MAX_HIDDEN_LAYERS,
            forall|i: int| 0 <= i < sizes@.len() ==>
                MIN_HIDDEN_UNITS <= (#[trigger] sizes@[i]) <= MAX_HIDDEN_UNITS,
        ensures
            r@.len() == sizes@.len() + 1,
            chain_ok(r@),
            hidden_ok(r@),
            forall|i: int| 0 <= i < sizes@.len() ==> (#[trigger] r@[i].out_dim) == sizes@[i],
            sizes@.len() >= 1 ==> net_wf(r@),
    {
        let mut layers: Vec<Layer> = Vec::new();
        let mut in_dim: usize = INPUT_DIM;
        let mut i: usize = 0;
        while i < sizes.len()
            invariant
                i <= sizes@.len(),
                sizes@.len() <= MAX_HIDDEN_LAYERS,
                forall|k: int| 0 <= k < sizes@.len() ==>
                    MIN_HIDDEN_UNITS <= (#[trigger] sizes@[k]) <= MAX_HIDDEN_UNITS,
                layers@.len() == i,
                in_dim == if i == 0 { INPUT_DIM as int } else { sizes@[i - 1] as int },
                forall|k: int| 0 <= k < i ==> layer_wf((#[trigger] layers@[k])@),
                forall|k: int| 0 <= k < i ==> ((#[trigger] layers@[k])@).out_dim == sizes@[k],
                forall|k: int| 0 <= k < i ==> ((#[trigger] layers@[k])@).in_dim
                    == if k == 0 { INPUT_DIM as int } else { sizes@[k - 1] as int },
            decreases sizes@.len() - i,
        {
            let h = sizes[i];
            proof {
                assert(in_dim <= 40);
                assert(h * in_dim <= 1600) by (nonlinear_arith)
                    requires in_dim <= 40, h <= 40;
            }
            layers.push(Layer::new_random(in_dim, h, TENTH_BITS, rng));
            in_dim = h;
            i = i + 1;
        }
        proof {
            assert(in_dim <= 40);
            assert(OUTPUT_DIM * in_dim <= 1600) by (nonlinear_arith)
                requires in_dim <= 40, OUTPUT_DIM == 5;
        }
        layers.push(Layer::new_random(in_dim, OUTPUT_DIM, TENTH_BITS, rng));
        let r = Net { layers };
        proof {
            let v = r@;
            assert(v.len() == sizes@.len() + 1);
        }
        r
    }

    /// The forward pass: propagate the 16 input scalars through every
    /// layer, rectifying after each hidden layer and leaving the final,
    /// linear layer's 5 outputs unclamped.
    pub fn forward(&self, x: &Vec<u32>) -> (r: Vec<u32>)
        requires
            chain_ok(self@),
            x@.len() == INPUT_DIM,
        ensures
            r@ == net_eval(self@, x@),
            r@.len() == OUTPUT_DIM,
    {
        let ghost v = self@;
        let mut a = copy_vec_u32(x);
        let mut li: usize = 0;
        while li < self.layers.len()
            invariant
                chain_ok(v),
                v == self@,
                li <= v.len(),
                a@.len() == if li == 0 { INPUT_DIM as int } else { v[li - 1].out_dim as int },
                run_from(v, li as int, a@) == net_eval(v, x@),
            decreases v.len() - li,
        {
            let ghost a_in = a@;
            let l = &self.layers[li];
            proof {
                assert(l@ == v[li as int]);
                assert(layer_wf(l@));
                assert(a@.len() == l@.in_dim);
            }
            let is_last = li + 1 == self.layers.len();
            let mut z: Vec<u32> = Vec::new();
            let mut o: usize = 0;
            while o < l.out_dim
                invariant
                    layer_wf(l@),
                    a@ == a_in,
                    a@.len() == l@.in_dim,
                    o <= l@.out_dim,
                    z@.len() == o,
                    forall|q: int| 0 <= q < o ==> (#[trigger] z@[q]) == layer_out(l@, a_in, is_last)[q],
                decreases l@.out_dim - o,
            {
                let wl = l.w.len();
                proof {
                    assert(o * l@.in_dim + l@.in_dim <= l@.out_dim * l@.in_dim) by (nonlinear_arith)
                        requires o < l@.out_dim, l@.in_dim >= 0;
                    assert(o * l@.in_dim + l@.in_dim <= wl);
                }
                let base = o * l.in_dim;
                let mut acc: u32 = l.b[o];
                let mut i: usize = 0;
                while i < l.in_dim
                    invariant
                        layer_wf(l@),
                        a@ == a_in,
                        a@.len() == l@.in_dim,
                        o < l@.out_dim,
                        base == o * l@.in_dim,
                        base + l@.in_dim <= l@.w.len(),
                        l@.w.len() <= usize::MAX,
                        i <= l@.in_dim,
                        acc == row_eval(l@, a_in, o as int, i as int),
                    decreases l@.in_dim - i,
                {
                    acc = f32_add(acc, f32_mul(l.w[base + i], a[i]));
                    i = i + 1;
                }
                let zo = if is_last {
                    acc
                } else {
                    f32_relu(acc)
                };
                z.push(zo);
                o = o + 1;
            }
            proof {
                assert(z@ =~= layer_out(l@, a_in, is_last));
                assert(run_from(v, li as int, a_in)
                    == run_from(v, li as int + 1, layer_out(v[li as int], a_in, li as int == v.len() - 1)));
            }
            a = z;
            li = li + 1;
        }
        proof {
            lemma_run_from_len(v, 0, x@);
        }
        a
    }
}

/// A copy of a layer.
fn copy_layer(l: &Layer) -> (r: Layer)
    ensures
        r@ == l@,
{
    Layer { in_dim: l.in_dim, out_dim: l.out_dim, w: copy_vec_u32(&l.w), b: copy_vec_u32(&l.b) }
}

/// One blended layer: the template's shape, and inside the block that the
/// two parents share (rows below both out-widths, columns below both
/// in-widths) every weight and bias is the IEEE mean of the two parents'
/// values; outside that block the template's value is kept.
pub open spec fn blend_layer(t: LayerModel, o: LayerModel) -> LayerModel {
    LayerModel {
        in_dim: t.in_dim,
        out_dim: t.out_dim,
        w: Seq::new(
            t.w.len(),
            |j: int|
                {
                    let row = j / (t.in_dim as int);
                    let col = j % (t.in_dim as int);
                    if row < o.out_dim && col < o.in_dim {
                        avg_bits(t.w[j], o.w[row * (o.in_dim as int) + col])
                    } else {
                        t.w[j]
                    }
                },
        ),
        b: Seq::new(
            t.b.len(),
            |j: int| if j < o.out_dim { avg_bits(t.b[j], o.b[j]) } else { t.b[j] },
        ),
    }
}

/// The blended net: layer by layer where the other parent has a layer too,
/// pure template copies beyond the other parent's depth.
pub open spec fn blend_net(t: Seq<LayerModel>, o: Seq<LayerModel>) -> Seq<LayerModel> {
    Seq::new(t.len(), |i: int| if i < o.len() { blend_layer(t[i], o[i]) } else { t[i] })
}

/// Blending keeps the template's whole shape, so it keeps the template's
/// chain and hidden-width invariants.
pub proof fn lemma_blend_shape(t: Seq<LayerModel>, o: Seq<LayerModel>)
    ensures
        blend_net(t, o).len() == t.len(),
        forall|i: int| 0 <= i < t.len() ==> (#[trigger] blend_net(t, o)[i]).in_dim == t[i].in_dim,
        forall|i: int| 0 <= i < t.len() ==> (#[trigger] blend_net(t, o)[i]).out_dim == t[i].out_dim,
        forall|i: int| 0 <= i < t.len() ==> (#[trigger] blend_net(t, o)[i]).w.len() == t[i].w.len(),
        forall|i: int| 0 <= i < t.len() ==> (#[trigger] blend_net(t, o)[i]).b.len() == t[i].b.len(),
        chain_ok(t) ==> chain_ok(blend_net(t, o)),
        hidden_ok(t) ==> hidden_ok(blend_net(t, o)),
{
    let r = blend_net(t, o);
    assert forall|i: int| 0 <= i < t.len() implies (#[trigger] r[i]).in_dim == t[i].in_dim
        && r[i].out_dim == t[i].out_dim && r[i].w.len() == t[i].w.len() && r[i].b.len()
        == t[i].b.len() by {
        if i < o.len() {
            assert(r[i] == blend_layer(t[i], o[i]));
        }
    }
    if chain_ok(t) {
        assert forall|i: int| 0 <= i < r.len() implies layer_wf(#[trigger] r[i]) by {
            assert(layer_wf(t[i]));
        }
    }
}

fn blend_layer_exec(t: &Layer, o: &Layer) -> (r: Layer)
    requires
        layer_wf(t@),
        layer_wf(o@),
    ensures
        r@ == blend_layer(t@, o@),
{
    let ghost spec_r = blend_layer(t@, o@);
    let owl = o.w.len();
    let mut w: Vec<u32> = Vec::new();
    let mut j: usize = 0;
    while j < t.w.len()
        invariant
            layer_wf(t@),
            layer_wf(o@),
            owl == o@.w.len(),
            spec_r == blend_layer(t@, o@),
            j <= t@.w.len(),
            w@.len() == j,
            forall|q: int| 0 <= q < j ==> (#[trigger] w@[q]) == spec_r.w[q],
        decreases t@.w.len() - j,
    {
        let row = j / t.in_dim;
        let col = j % t.in_dim;
        proof {
            vstd::arithmetic::div_mod::lemma_fundamental_div_mod(j as int, t@.in_dim as int);
        }
        let val = if row < o.out_dim && col < o.in_dim {
            proof {
                assert(row * o@.in_dim + col < o@.out_dim * o@.in_dim) by (nonlinear_arith)
                    requires
                        row < o@.out_dim,
                        0 <= col < o@.in_dim,
                        0 <= row,
                ;
                assert(row * o@.in_dim + col < owl);
            }
            f32_avg(t.w[j], o.w[row * o.in_dim + col])
        } else {
            t.w[j]
        };
        w.push(val);
        j = j + 1;
    }
    let mut b: Vec<u32> = Vec::new();
    let mut q: usize = 0;
    while q < t.b.len()
        invariant
            layer_wf(t@),
            layer_wf(o@),
            spec_r == blend_layer(t@, o@),
            q <= t@.b.len(),
            b@.len() == q,
            forall|p: int| 0 <= p < q ==> (#[trigger] b@[p]) == spec_r.b[p],
        decreases t@.b.len() - q,
    {
        let val = if q < o.out_dim {
            f32_avg(t.b[q], o.b[q])
        } else {
            t.b[q]
        };
        b.push(val);
        q = q + 1;
    }
    let r = Layer { in_dim: t.in_dim, out_dim: t.out_dim, w, b };
    proof {
        assert(r@ =~= spec_r);
    }
    r
}

/// The child as it stands after weight blending: the template's full
/// topology, with the other parent's overlapping block averaged in.
fn blend_with(tpl: &Net, other: &Net) -> (r: Net)
    requires
        forall|i: int| 0 <= i < tpl@.len() ==> layer_wf(#[trigger] tpl@[i]),
        forall|i: int| 0 <= i < other@.len() ==> layer_wf(#[trigger] other@[i]),
    ensures
        r@ == blend_net(tpl@, other@),
{
    let mut layers: Vec<Layer> = Vec::new();
    let mut i: usize = 0;
    while i < tpl.layers.len()
        invariant
            forall|k: int| 0 <= k < tpl@.len() ==> layer_wf(#[trigger] tpl@[k]),
            forall|k: int| 0 <= k < other@.len() ==> layer_wf(#[trigger] other@[k]),
            i <= tpl@.len(),
            layers@.len() == i,
            forall|k: int| 0 <= k < i ==> ((#[trigger] layers@[k])@) == blend_net(tpl@, other@)[k],
        decreases tpl@.len() - i,
    {
        proof {
            assert(tpl.layers@[i as int]@ == tpl@[i as int]);
            if i < other.layers@.len() {
                assert(other.layers@[i as int]@ == other@[i as int]);
            }
        }
        let next = if i < other.layers.len() {
            blend_layer_exec(&tpl.layers[i], &other.layers[i])
        } else {
            copy_layer(&tpl.layers[i])
        };
        layers.push(next);
        i = i + 1;
    }
    let r = Net { layers };
    proof {
        assert(r@ =~= blend_net(tpl@, other@));
    }
    r
}

/// Whether two nets have exactly the same topology: depth, every recorded
/// dimension, and every storage length.
pub open spec fn same_shape(a: Seq<LayerModel>, b: Seq<LayerModel>) -> bool {
    &&& a.len() == b.len()
    &&& forall|i: int| 0 <= i < a.len() ==> (#[trigger] a[i]).in_dim == b[i].in_dim
        && a[i].out_dim == b[i].out_dim && a[i].w.len() == b[i].w.len() && a[i].b.len()
        == b[i].b.len()
}

/// The point-mutation pass: every scalar of the net is independently left
/// alone or, with probability `mutation_rate`, perturbed by a fresh noise
/// value from [-mutation_mag, mutation_mag). The topology is untouched, and
/// a zero rate leaves the net bit-identical.
fn point_mutate(net: Net, rng: &mut StdRng, mutation_rate: u32, mutation_mag: u32) -> (r: Net)
    ensures
        same_shape(r@, net@),
        mutation_rate == 0 ==> r@ == net@,
{
    let mut layers: Vec<Layer> = Vec::new();
    let mut i: usize = 0;
    while i < net.layers.len()
        invariant
            i <= net@.len(),
            layers@.len() == i,
            forall|k: int| 0 <= k < i ==> (#[trigger] layers@[k])@.in_dim == net@[k].in_dim
                && layers@[k]@.out_dim == net@[k].out_dim
                && layers@[k]@.w.len() == net@[k].w.len()
                && layers@[k]@.b.len() == net@[k].b.len(),
            mutation_rate == 0 ==> forall|k: int| 0 <= k < i ==> ((#[trigger] layers@[k])@)
                == net@[k],
        decreases net@.len() - i,
    {
        let l = &net.layers[i];
        let mut w: Vec<u32> = Vec::new();
        let mut j: usize = 0;
        while j < l.w.len()
            invariant
                j <= l@.w.len(),
                w@.len() == j,
                mutation_rate == 0 ==> w@ == l@.w.subrange(0, j as int),
            decreases l@.w.len() - j,
        {
            let coin = rand_unit(rng);
            let val = if f32_lt(coin, mutation_rate) {
                f32_add(l.w[j], rand_scalar(rng, mutation_mag))
            } else {
                l.w[j]
            };
            w.push(val);
            proof {
                if mutation_rate == 0 {
                    assert(w@ =~= l@.w.subrange(0, j + 1));
                }
            }
            j = j + 1;
        }
        let mut b: Vec<u32> = Vec::new();
        let mut q: usize = 0;
        while q < l.b.len()
            invariant
                q <= l@.b.len(),
                b@.len() == q,
                mutation_rate == 0 ==> b@ == l@.b.subrange(0, q as int),
            decreases l@.b.len() - q,
        {
            let coin = rand_unit(rng);
            let val = if f32_lt(coin, mutation_rate) {
                f32_add(l.b[q], rand_scalar(rng, mutation_mag))
            } else {
                l.b[q]
            };
            b.push(val);
            proof {
                if mutation_rate == 0 {
                    assert(b@ =~= l@.b.subrange(0, q + 1));
                }
            }
            q = q + 1;
        }
        let nl = Layer { in_dim: l.in_dim, out_dim: l.out_dim, w, b };
        proof {
            if mutation_rate == 0 {
                assert(l@.w.subrange(0, l@.w.len() as int) =~= l@.w);
                assert(l@.b.subrange(0, l@.b.len() as int) =~= l@.b);
                assert(nl@ =~= l@);
            }
        }
        layers.push(nl);
        i = i + 1;
    }
    let r = Net { layers };
    proof {
        if mutation_rate == 0 {
            assert(r@ =~= net@);
        }
    }
    r
}

/// Width growth: add between 1 and 4 output units to the hidden layer at
/// `hid_idx`, capped at 40 units. New weight rows and bias entries are
/// freshly randomised; every existing value of the grown layer keeps its
/// place. The following layer accepts the new width: its weight block gains
/// freshly randomised input columns while every existing weight stays at
/// its `(output, input)` position, and its biases are untouched. A layer
/// already at the cap is left entirely unchanged.
pub fn add_neurons(net: &mut Net, hid_idx: usize, rng: &mut StdRng)
    requires
        chain_ok(old(net)@),
        hidden_ok(old(net)@),
        hid_idx + 1 < old(net)@.len(),
    ensures
        final(net)@.len() == old(net)@.len(),
        forall|k: int| 0 <= k < old(net)@.len() && k != hid_idx && k != hid_idx + 1 ==>
            (#[trigger] final(net)@[k]) == old(net)@[k],
        chain_ok(final(net)@),
        hidden_ok(final(net)@),
        final(net)@[hid_idx as int].in_dim == old(net)@[hid_idx as int].in_dim,
        old(net)@[hid_idx as int].out_dim <= final(net)@[hid_idx as int].out_dim,
        final(net)@[hid_idx as int].out_dim <= MAX_HIDDEN_UNITS,
        final(net)@[hid_idx as int].out_dim <= old(net)@[hid_idx as int].out_dim + 4,
        old(net)@[hid_idx as int].out_dim < MAX_HIDDEN_UNITS ==>
            old(net)@[hid_idx as int].out_dim < final(net)@[hid_idx as int].out_dim,
        old(net)@[hid_idx as int].out_dim == MAX_HIDDEN_UNITS ==> final(net)@ == old(net)@,
        forall|j: int| 0 <= j < old(net)@[hid_idx as int].w.len() ==>
            (#[trigger] final(net)@[hid_idx as int].w[j]) == old(net)@[hid_idx as int].w[j],
        forall|q: int| 0 <= q < old(net)@[hid_idx as int].b.len() ==>
            (#[trigger] final(net)@[hid_idx as int].b[q]) == old(net)@[hid_idx as int].b[q],
        final(net)@[hid_idx + 1].in_dim == final(net)@[hid_idx as int].out_dim,
        final(net)@[hid_idx + 1].out_dim == old(net)@[hid_idx + 1].out_dim,
        final(net)@[hid_idx + 1].b == old(net)@[hid_idx + 1].b,
        forall|o: int, c: int|
            0 <= o < old(net)@[hid_idx + 1].out_dim && 0 <= c < old(net)@[hid_idx + 1].in_dim ==>
                final(net)@[hid_idx + 1].w[o * final(net)@[hid_idx + 1].in_dim + c]
                    == old(net)@[hid_idx + 1].w[#[trigger] (o * old(net)@[hid_idx + 1].in_dim + c)],
    {
        let ghost v0 = net@;
        let h = hid_idx;
        let len0 = net.layers.len();
        proof {
            assert(len0 == v0.len());
            assert(v0[h as int].out_dim <= MAX_HIDDEN_UNITS);
            assert(layer_wf(v0[h as int]));
            assert(layer_wf(v0[h + 1]));
            if h > 0 {
                assert(v0[h as int].in_dim == v0[h - 1].out_dim);
            }
            assert(v0[h as int].in_dim <= 40);
            assert(v0[h + 1].in_dim == v0[h as int].out_dim);
        }
        let l_in = net.layers[h].in_dim;
        let l_out = net.layers[h].out_dim;
        let add = rand_range_usize(rng, 1, 4);
        let mut new_out = l_out + add;
        if new_out > MAX_HIDDEN_UNITS {
            new_out = MAX_HIDDEN_UNITS;
        }
        if new_out == l_out {
            return ;
        }
        // grow the hidden layer: keep every old row, append fresh ones
        let ghost w0 = v0[h as int].w;
        let ghost b0 = v0[h as int].b;
        let mut w = copy_vec_u32(&net.layers[h].w);
        proof {
            assert(new_out * l_in <= 1600) by (nonlinear_arith)
                requires new_out <= 40, l_in <= 40;
            assert(w0.len() == l_out * l_in);
            assert(l_out * l_in <= new_out * l_in) by (nonlinear_arith)
                requires l_out <= new_out, l_in >= 0;
        }
        let target_w = new_out * l_in;
        while w.len() < target_w
            invariant
                w0.len() <= w@.len() <= target_w,
                forall|j: int| 0 <= j < w0.len() ==> (#[trigger] w@[j]) == w0[j],
            decreases target_w - w@.len(),
        {
            w.push(rand_scalar(rng, TENTH_BITS));
        }
        let mut b = copy_vec_u32(&net.layers[h].b);
        while b.len() < new_out
            invariant
                b0.len() <= b@.len() <= new_out,
                forall|q: int| 0 <= q < b0.len() ==> (#[trigger] b@[q]) == b0[q],
            decreases new_out - b@.len(),
        {
            b.push(rand_scalar(rng, TENTH_BITS));
        }
        let gl = Layer { in_dim: l_in, out_dim: new_out, w, b };
        proof {
            assert(layer_wf(gl@));
        }
        // rewire the following layer: same rows, new randomised columns
        let ghost nw0 = v0[h + 1].w;
        let n_in_old = net.layers[h + 1].in_dim;
        let n_out = net.layers[h + 1].out_dim;
        proof {
            assert(n_in_old == l_out);
            assert(n_out * new_out <= 1600) by (nonlinear_arith)
                requires n_out <= 40, new_out <= 40;
            assert(v0[h + 1].out_dim <= 40);
        }
        let nwl = net.layers[h + 1].w.len();
        let mut nw: Vec<u32> = Vec::new();
        let mut o: usize = 0;
        while o < n_out
            invariant
                net@ == v0,
                h + 1 < v0.len(),
                v0.len() == len0,
                layer_wf(v0[h + 1]),
                nw0 == v0[h + 1].w,
                nwl == nw0.len(),
                n_in_old == v0[h + 1].in_dim,
                n_out == v0[h + 1].out_dim,
                n_in_old < new_out <= 40,
                n_out <= 40,
                o <= n_out,
                nw@.len() == o * new_out,
                forall|p: int, c: int| 0 <= p < o && 0 <= c < n_in_old ==>
                    (#[trigger] nw@[p * new_out + c]) == nw0[p * n_in_old + c],
            decreases n_out - o,
        {
            proof {
                assert(o * new_out + new_out == (o + 1) * new_out) by (nonlinear_arith);
                assert((o + 1) * new_out <= n_out * new_out) by (nonlinear_arith)
                    requires o < n_out, new_out >= 0;
                assert(o * n_in_old + n_in_old <= n_out * n_in_old) by (nonlinear_arith)
                    requires o < n_out, n_in_old >= 0;
            }
            let mut c: usize = 0;
            while c < new_out
                invariant
                    net@ == v0,
                    h + 1 < v0.len(),
                    v0.len() == len0,
                    layer_wf(v0[h + 1]),
                    nw0 == v0[h + 1].w,
                    nwl == nw0.len(),
                    n_in_old == v0[h + 1].in_dim,
                    n_out == v0[h + 1].out_dim,
                    n_in_old < new_out <= 40,
                    o < n_out,
                    c <= new_out,
                    o * new_out + new_out == (o + 1) * new_out,
                    (o + 1) * new_out <= n_out * new_out,
                    o * n_in_old + n_in_old <= n_out * n_in_old,
                    nw@.len() == o * new_out + c,
                    forall|p: int, cc: int| 0 <= p < o && 0 <= cc < n_in_old ==>
                        (#[trigger] nw@[p * new_out + cc]) == nw0[p * n_in_old + cc],
                    forall|cc: int| 0 <= cc < c && cc < n_in_old ==>
                        (#[trigger] nw@[o * new_out + cc]) == nw0[o * n_in_old + cc],
                decreases new_out - c,
            {
                let ghost len_before = nw@.len();
                let val = if c < n_in_old {
                    proof {
                        assert(nw0.len() == n_out * n_in_old);
                    }
                    net.layers[h + 1].w[o * n_in_old + c]
                } else {
                    rand_scalar(rng, TENTH_BITS)
                };
                nw.push(val);
                proof {
                    assert forall|p: int, cc: int| 0 <= p < o && 0 <= cc < n_in_old implies
                        (#[trigger] nw@[p * new_out + cc]) == nw0[p * n_in_old + cc] by {
                        assert(p * new_out + cc < o * new_out) by (nonlinear_arith)
                            requires 0 <= p < o, 0 <= cc < new_out;
                    }
                    assert forall|cc: int| 0 <= cc < c + 1 && cc < n_in_old implies
                        (#[trigger] nw@[o * new_out + cc]) == nw0[o * n_in_old + cc] by {
                        if cc < c {
                            assert(nw@[o * new_out + cc] == nw0[o * n_in_old + cc]);
                        } else {
                            assert(o * new_out + cc == len_before);
                        }
                    }
                }
                c = c + 1;
            }
            proof {
                assert forall|p: int, cc: int| 0 <= p < o + 1 && 0 <= cc < n_in_old implies
                    (#[trigger] nw@[p * new_out + cc]) == nw0[p * n_in_old + cc] by {
                    if p < o {
                        assert(p * new_out + cc < o * new_out) by (nonlinear_arith)
                            requires 0 <= p < o, 0 <= cc < new_out;
                    }
                }
            }
            o = o + 1;
        }
        let nb = copy_vec_u32(&net.layers[h + 1].b);
        let nl = Layer { in_dim: new_out, out_dim: n_out, w: nw, b: nb };
        proof {
            assert(nl@.w.len() == n_out * new_out);
            assert(layer_wf(nl@));
        }
        // reassemble the chain
        let mut out_layers: Vec<Layer> = Vec::new();
        let mut k: usize = 0;
        while k < h
            invariant
                k <= h,
                h + 1 < v0.len(),
                v0 == old(net)@,
                net@ == v0,
                out_layers@.len() == k,
                forall|p: int| 0 <= p < k ==> ((#[trigger] out_layers@[p])@) == v0[p],
            decreases h - k,
        {
            proof {
                assert(net.layers@[k as int]@ == v0[k as int]);
            }
            out_layers.push(copy_layer(&net.layers[k]));
            k = k + 1;
        }
        out_layers.push(gl);
        out_layers.push(nl);
        let mut k2: usize = h + 2;
        while k2 < net.layers.len()
            invariant
                h + 2 <= k2 <= v0.len(),
                v0 == old(net)@,
                net@ == v0,
                out_layers@.len() == k2,
                forall|p: int| 0 <= p < h ==> ((#[trigger] out_layers@[p])@) == v0[p],
                out_layers@[h as int]@ == gl@,
                out_layers@[h + 1]@ == nl@,
                forall|p: int| h + 2 <= p < k2 ==> ((#[trigger] out_layers@[p])@) == v0[p],
            decreases v0.len() - k2,
        {
            proof {
                assert(net.layers@[k2 as int]@ == v0[k2 as int]);
            }
            out_layers.push(copy_layer(&net.layers[k2]));
            k2 = k2 + 1;
        }
        net.layers = out_layers;
        proof {
            let vf = net@;
            assert(vf.len() == v0.len());
            assert(vf[h as int] == gl@);
            assert(vf[h + 1] == nl@);
            assert forall|p: int| 0 <= p < v0.len() && p != h && p != h + 1 implies
                (#[trigger] vf[p]) == v0[p] by {}
            assert forall|i: int| 0 <= i < vf.len() implies layer_wf(#[trigger] vf[i]) by {
                if i != h && i != h + 1 {
                    assert(vf[i] == v0[i]);
                }
            }
            assert forall|i: int| 1 <= i < vf.len() implies (#[trigger] vf[i].in_dim)
                == vf[i - 1].out_dim by {
                if i != h && i != h + 1 && i - 1 != h + 1 {
                    assert(vf[i] == v0[i]);
                }
            }
            assert(chain_ok(vf));
            assert forall|i: int| 0 <= i < vf.len() - 1 implies
                MIN_HIDDEN_UNITS <= (#[trigger] vf[i].out_dim) <= MAX_HIDDEN_UNITS by {
                if i != h && i != h + 1 {
                    assert(vf[i] == v0[i]);
                }
            }
            assert(hidden_ok(vf));
        }
    }

/// Depth growth: insert a freshly initialised hidden layer, with a width
/// drawn from [8, 40], before the layer at `pos`; its input width equals
/// its predecessor's output width (16 when inserted first). The displaced
/// layer keeps its output width and biases, but its weight block is
/// discarded and freshly randomised at the new input width.
pub fn add_hidden_layer(net: &mut Net, pos: usize, rng: &mut StdRng)
    requires
        chain_ok(old(net)@),
        hidden_ok(old(net)@),
        pos < old(net)@.len(),
        old(net)@.len() <= MAX_HIDDEN_LAYERS,
    ensures
        final(net)@.len() == old(net)@.len() + 1,
        forall|k: int| 0 <= k < pos ==> (#[trigger] final(net)@[k]) == old(net)@[k],
        forall|k: int| pos + 1 < k < final(net)@.len() ==> (#[trigger] final(net)@[k])
            == old(net)@[k - 1],
        final(net)@[pos as int].in_dim == if pos == 0 {
            INPUT_DIM as nat
        } else {
            old(net)@[pos - 1].out_dim
        },
        MIN_HIDDEN_UNITS <= final(net)@[pos as int].out_dim <= MAX_HIDDEN_UNITS,
        final(net)@[pos + 1].in_dim == final(net)@[pos as int].out_dim,
        final(net)@[pos + 1].out_dim == old(net)@[pos as int].out_dim,
        final(net)@[pos + 1].b == old(net)@[pos as int].b,
        chain_ok(final(net)@),
        hidden_ok(final(net)@),
{
    let ghost v0 = net@;
    let len0 = net.layers.len();
    proof {
        assert(len0 == v0.len());
        assert(layer_wf(v0[pos as int]));
        if pos > 0 {
            assert(v0[pos as int].in_dim == v0[pos - 1].out_dim);
        }
    }
    let new_units = rand_hidden_units(rng);
    let prev_in = if pos == 0 {
        INPUT_DIM
    } else {
        net.layers[pos - 1].out_dim
    };
    proof {
        assert(prev_in <= 40);
        assert(new_units * prev_in <= 1600) by (nonlinear_arith)
            requires new_units <= 40, prev_in <= 40;
    }
    let new_layer = Layer::new_random(prev_in, new_units, TENTH_BITS, rng);
    // the displaced layer: fresh weights at the new input width
    let d_out = net.layers[pos].out_dim;
    proof {
        assert(d_out * new_units <= 1600) by (nonlinear_arith)
            requires d_out <= 40, new_units <= 40;
        assert(d_out <= 40);
    }
    let dw_len = d_out * new_units;
    let mut dw: Vec<u32> = Vec::new();
    while dw.len() < dw_len
        invariant
            dw@.len() <= dw_len,
        decreases dw_len - dw@.len(),
    {
        dw.push(rand_scalar(rng, TENTH_BITS));
    }
    let db = copy_vec_u32(&net.layers[pos].b);
    let dl = Layer { in_dim: new_units, out_dim: d_out, w: dw, b: db };
    proof {
        assert(layer_wf(dl@));
    }
    // reassemble the chain with the insertion
    let mut out_layers: Vec<Layer> = Vec::new();
    let mut k: usize = 0;
    while k < pos
        invariant
            k <= pos,
            pos < v0.len(),
            v0.len() == len0,
            v0 == old(net)@,
            net@ == v0,
            out_layers@.len() == k,
            forall|p: int| 0 <= p < k ==> ((#[trigger] out_layers@[p])@) == v0[p],
        decreases pos - k,
    {
        proof {
            assert(net.layers@[k as int]@ == v0[k as int]);
        }
        out_layers.push(copy_layer(&net.layers[k]));
        k = k + 1;
    }
    out_layers.push(new_layer);
    out_layers.push(dl);
    let mut k2: usize = pos + 1;
    while k2 < net.layers.len()
        invariant
            pos + 1 <= k2 <= v0.len(),
            pos < v0.len(),
            v0.len() == len0,
            v0 == old(net)@,
            net@ == v0,
            out_layers@.len() == k2 + 1,
            forall|p: int| 0 <= p < pos ==> ((#[trigger] out_layers@[p])@) == v0[p],
            layer_wf(out_layers@[pos as int]@),
            out_layers@[pos as int]@.in_dim == prev_in,
            out_layers@[pos as int]@.out_dim == new_units,
            out_layers@[pos + 1]@ == dl@,
            forall|p: int| pos + 1 < p < k2 + 1 ==> ((#[trigger] out_layers@[p])@) == v0[p - 1],
        decreases v0.len() - k2,
    {
        proof {
            assert(net.layers@[k2 as int]@ == v0[k2 as int]);
        }
        out_layers.push(copy_layer(&net.layers[k2]));
        k2 = k2 + 1;
    }
    net.layers = out_layers;
    proof {
        let vf = net@;
        assert(vf.len() == v0.len() + 1);
        assert(vf[pos + 1] == dl@);
        assert forall|i: int| 0 <= i < vf.len() implies layer_wf(#[trigger] vf[i]) by {
            if i < pos {
                assert(vf[i] == v0[i]);
            } else if i > pos + 1 {
                assert(vf[i] == v0[i - 1]);
            }
        }
        assert forall|i: int| 1 <= i < vf.len() implies (#[trigger] vf[i].in_dim)
            == vf[i - 1].out_dim by {
            if i < pos {
                assert(vf[i] == v0[i]);
                assert(vf[i - 1] == v0[i - 1]);
            } else if i > pos + 2 {
                assert(vf[i] == v0[i - 1]);
                assert(vf[i - 1] == v0[i - 2]);
            } else if i == pos + 2 {
                assert(vf[i] == v0[i - 1]);
                assert(v0[pos + 1].in_dim == v0[pos as int].out_dim);
            }
        }
        assert(vf[0].in_dim == INPUT_DIM);
        assert(vf[vf.len() - 1].out_dim == OUTPUT_DIM);
        assert(chain_ok(vf));
        assert forall|i: int| 0 <= i < vf.len() - 1 implies
            MIN_HIDDEN_UNITS <= (#[trigger] vf[i].out_dim) <= MAX_HIDDEN_UNITS by {
            if i < pos {
                assert(vf[i] == v0[i]);
            } else if i == pos + 1 {
                assert(vf[i].out_dim == v0[pos as int].out_dim);
            } else if i > pos + 1 {
                assert(vf[i] == v0[i - 1]);
            }
        }
        assert(hidden_ok(vf));
    }
}

/// A net shaped exactly like a well-formed one is well-formed itself.
pub proof fn lemma_same_shape_wf(a: Seq<LayerModel>, b: Seq<LayerModel>)
    requires
        same_shape(a, b),
    ensures
        chain_ok(b) ==> chain_ok(a),
        hidden_ok(b) ==> hidden_ok(a),
{
    if chain_ok(b) {
        assert forall|i: int| 0 <= i < a.len() implies layer_wf(#[trigger] a[i]) by {
            assert(layer_wf(b[i]));
        }
        assert forall|i: int| 1 <= i < a.len() implies (#[trigger] a[i].in_dim)
            == a[i - 1].out_dim by {
            assert(b[i].in_dim == b[i - 1].out_dim);
        }
    }
}

/// Recombination: pick one parent as the template with probability 0.5,
/// copy its full topology, average the weight block the parents share,
/// apply point mutation, and then, each with its own probability, width
/// growth of one random hidden layer followed by depth growth at one random
/// position. The child always satisfies the genome invariant, its depth is
/// one parent's depth or one more, and with the rate and both structural
/// probabilities at +0.0 it is exactly the blend of the two parents.
pub fn crossover_mutate(
    dad: &Net,
    mom: &Net,
    rng: &mut StdRng,
    mutation_rate: u32,
    mutation_mag: u32,
    p_add_neurons: u32,
    p_add_layer: u32,
) -> (child: Net)
    requires
        net_wf(dad@),
        net_wf(mom@),
    ensures
        net_wf(child@),
        child@.len() == dad@.len() || child@.len() == mom@.len() || child@.len() == dad@.len()
            + 1 || child@.len() == mom@.len() + 1,
        mutation_rate == 0 && p_add_neurons == 0 && p_add_layer == 0 ==> (child@ == blend_net(
            dad@,
            mom@,
        ) || child@ == blend_net(mom@, dad@)),
{
    let coin = rand_unit(rng);
    let template_is_dad = f32_lt(coin, HALF_BITS);
    let (tpl, other) = if template_is_dad {
        (dad, mom)
    } else {
        (mom, dad)
    };
    let blended = blend_with(tpl, other);
    proof {
        lemma_blend_shape(tpl@, other@);
    }
    let mut child = point_mutate(blended, rng, mutation_rate, mutation_mag);
    proof {
        lemma_blend_shape(tpl@, other@);
        assert(same_shape(child@, blend_net(tpl@, other@)));
        lemma_same_shape_wf(child@, blend_net(tpl@, other@));
        assert(net_wf(child@));
    }
    let gate_w = rand_unit(rng);
    if f32_lt(gate_w, p_add_neurons) {
        if child.layers.len() >= 2 {
            let hid_count = child.layers.len() - 1;
            let target = rand_range_usize(rng, 0, hid_count - 1);
            add_neurons(&mut child, target, rng);
        }
    }
    let gate_d = rand_unit(rng);
    let hidden_now = child.layers.len() - 1;
    if f32_lt(gate_d, p_add_layer) && hidden_now < MAX_HIDDEN_LAYERS {
        let pos = if child.layers.len() <= 1 {
            0
        } else {
            rand_range_usize(rng, 0, child.layers.len() - 2)
        };
        add_hidden_layer(&mut child, pos, rng);
    }
    child
}

} // verus!
