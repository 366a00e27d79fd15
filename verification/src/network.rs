//! Layers and the network built from them. A layer owns a weight matrix
//! (one row per input, one column per neuron) and a bias row; a network is
//! a non-empty stack of layers in which each layer's neuron count equals the
//! next layer's input width. Inference folds a batch of input rows through
//! every layer; training performs one mini-batch gradient-descent step whose
//! outcome is pinned down, entry by entry, by the spec functions below.

use crate::activation::lemma_sig_bounds;
use crate::fixed::{div_count_v, Fx, SCALE};
use crate::matrices::{
    broadcast_exact, g_broadcast, g_colsum, g_dsig, g_had, g_mul, g_scale, g_sig, g_sub, g_t1mul,
    g_t2mul, had_exact, lemma_flat_index, mult_exact, sub_exact, t1mult_exact, t2mult_exact,
    wf_grid, Grid, Matrix, NnError,
};
use crate::rng::{draw_normals, lemma_rng_after_add, normal_at, rng_after, Rng64};
use vstd::prelude::*;

verus! {

/// The mathematical content of a layer: the weight grid and the bias row.
pub struct LayerV {
    pub w: Grid,
    pub b: Grid,
}

/// A well-formed layer model: both grids well formed, the biases a single
/// row as wide as the weight grid.
pub open spec fn layer_wf(l: LayerV) -> bool {
    &&& wf_grid(l.w)
    &&& wf_grid(l.b)
    &&& l.b.len() == 1
    &&& l.b[0].len() == l.w[0].len()
}

/// The input width of a layer: the number of rows of its weight grid.
pub open spec fn layer_in(l: LayerV) -> int {
    l.w.len() as int
}

/// The output width of a layer: its number of neurons, the number of
/// columns of its weight grid.
pub open spec fn layer_out(l: LayerV) -> int {
    l.w[0].len() as int
}

/// The pre-activation of a layer on a batch: the batch times the weights,
/// with the bias row laid over every batch row.
pub open spec fn layer_z(l: LayerV, x: Grid) -> Grid {
    g_broadcast(g_mul(x, l.w), l.b)
}

/// The output of a layer on a batch: the squashed pre-activation.
pub open spec fn layer_forward(l: LayerV, x: Grid) -> Grid {
    g_sig(layer_z(l, x))
}

/// The grid whose entries are the normal draws of the generator seeded at
/// `s`, laid out row-major.
pub open spec fn grid_normals(s: u64, rows: int, cols: int) -> Grid {
    Seq::new(rows as nat, |i: int| Seq::new(cols as nat, |j: int| normal_at(s, i * cols + j)))
}

/// The layer a generator at state `s` fills: first the weight grid, drawn
/// row-major, then the bias row.
pub open spec fn layer_normals(s: u64, in_sz: int, out_sz: int) -> LayerV {
    LayerV {
        w: grid_normals(s, in_sz, out_sz),
        b: seq![Seq::new(out_sz as nat, |j: int| normal_at(s, in_sz * out_sz + j))],
    }
}

/// A weight matrix and a bias row, the unit a network is stacked from.
#[derive(Debug)]
pub struct Layer {
    weights: Matrix,
    biases: Matrix,
}

impl View for Layer {
    type V = LayerV;

    closed spec fn view(&self) -> LayerV {
        LayerV { w: self.weights@, b: self.biases@ }
    }
}

impl Layer {
    #[verifier::type_invariant]
    spec fn inv(self) -> bool {
        layer_wf(self@)
    }

    /// Assemble a layer from a weight matrix and a bias row. The biases
    /// must be a single row as wide as the weight matrix has columns.
    pub fn from_parts(weights: Matrix, biases: Matrix) -> (r: Result<Layer, NnError>)
        ensures
            biases@.len() == 1 && biases@[0].len() == weights@[0].len() ==> (r matches Ok(l) && l@
                == (LayerV { w: weights@, b: biases@ })),
            !(biases@.len() == 1 && biases@[0].len() == weights@[0].len()) ==> r == Err::<
                Layer,
                NnError,
            >(NnError::DimensionMismatch),
    {
        let brows = biases.nrows();
        let bcols = biases.ncols();
        let wcols = weights.ncols();
        if brows == 1 && bcols == wcols {
            Ok(Layer { weights, biases })
        } else {
            Err(NnError::DimensionMismatch)
        }
    }

    /// A layer with every weight and bias drawn from the injected
    /// generator's normal approximation: `amount_neurons` neurons, each
    /// reading `amount_weights` inputs. The weights are drawn first, row by
    /// row, then the biases, so the layer is an exact function of the
    /// generator's state. A zero count is refused as `EmptyInput`, with no
    /// draw made.
    pub fn new(amount_neurons: usize, amount_weights: usize, rng: &mut Rng64) -> (r: Result<
        Layer,
        NnError,
    >)
        requires
            amount_weights * amount_neurons + amount_neurons <= usize::MAX,
        ensures
            amount_neurons == 0 || amount_weights == 0 ==> r == Err::<Layer, NnError>(
                NnError::EmptyInput,
            ) && final(rng)@ == old(rng)@,
            amount_neurons > 0 && amount_weights > 0 ==> (r matches Ok(l) && l@ == layer_normals(
                old(rng)@,
                amount_weights as int,
                amount_neurons as int,
            ) && final(rng)@ == rng_after(
                old(rng)@,
                12 * (amount_weights * amount_neurons + amount_neurons),
            )),
    {
        if amount_neurons == 0 || amount_weights == 0 {
            return Err(NnError::EmptyInput);
        }
        let ghost s0 = rng@;
        let n = amount_weights * amount_neurons;
        let wbuf = draw_normals(rng, n);
        proof {
            assert(amount_neurons * amount_weights == amount_weights * amount_neurons)
                by (nonlinear_arith);
        }
        let weights = match Matrix::into_matrix(wbuf, amount_neurons, amount_weights) {
            Ok(m) => m,
            Err(_) => {
                proof {
                    assert(false);
                }
                return Err(NnError::EmptyInput);
            },
        };
        let ghost s1 = rng@;
        let bbuf = draw_normals(rng, amount_neurons);
        let biases = match Matrix::into_matrix(bbuf, amount_neurons, 1) {
            Ok(m) => m,
            Err(_) => {
                proof {
                    assert(false);
                }
                return Err(NnError::EmptyInput);
            },
        };
        proof {
            assert forall|i: int, j: int|
                0 <= i < amount_weights && 0 <= j < amount_neurons implies weights@[i][j]
                == normal_at(s0, i * (amount_neurons as int) + j) by {
                lemma_flat_index(i, j, amount_weights as int, amount_neurons as int);
            }
            assert(weights@ =~~= grid_normals(s0, amount_weights as int, amount_neurons as int));
            assert forall|j: int| 0 <= j < amount_neurons implies biases@[0][j] == normal_at(
                s0,
                (amount_weights * amount_neurons) as int + j,
            ) by {
                assert(biases@[0][j] == bbuf@[j]@);
                lemma_rng_after_add(s0, 12 * (n as int), 12 * j);
            }
            assert(biases@ =~~= layer_normals(
                s0,
                amount_weights as int,
                amount_neurons as int,
            ).b);
            lemma_rng_after_add(s0, 12 * (n as int), 12 * (amount_neurons as int));
        }
        Ok(Layer { weights, biases })
    }

    /// The weight matrix.
    pub fn weights(&self) -> (r: &Matrix)
        ensures
            r@ == self@.w,
            layer_wf(self@),
    {
        proof {
            use_type_invariant(self);
        }
        &self.weights
    }

    /// The bias row.
    pub fn biases(&self) -> (r: &Matrix)
        ensures
            r@ == self@.b,
            layer_wf(self@),
    {
        proof {
            use_type_invariant(self);
        }
        &self.biases
    }

    /// The number of neurons: the layer's output width.
    pub fn amount_neurons(&self) -> (r: usize)
        ensures
            r as int == layer_out(self@),
            layer_wf(self@),
    {
        proof {
            use_type_invariant(self);
        }
        self.weights.ncols()
    }

    /// The layer applied to a batch of input rows: weights times batch plus
    /// broadcast biases, squashed. Each input row must be as long as the
    /// layer's input width.
    pub fn output(&self, input: &Matrix) -> (r: Result<Matrix, NnError>)
        ensures
            input@[0].len() == layer_in(self@) ==> (r matches Ok(m) && m@ == layer_forward(
                self@,
                input@,
            )),
            input@[0].len() != layer_in(self@) ==> r == Err::<Matrix, NnError>(
                NnError::DimensionMismatch,
            ),
    {
        proof {
            use_type_invariant(self);
        }
        let incols = input.ncols();
        if incols != self.weights.nrows() {
            return Err(NnError::DimensionMismatch);
        }
        let z = mult_exact(input, &self.weights);
        let zb = broadcast_exact(&z, &self.biases);
        Ok(zb.sigmoid())
    }
}

/// The mathematical content of a network: its layer models in order, and
/// the learning rate.
pub struct NetV {
    pub layers: Seq<LayerV>,
    pub rate: int,
}

/// A well-formed network model: at least one layer, every layer well
/// formed, and each layer's output width equal to the next one's input
/// width.
pub open spec fn net_wf(n: NetV) -> bool {
    &&& n.layers.len() > 0
    &&& forall|i: int| 0 <= i < n.layers.len() ==> layer_wf(#[trigger] n.layers[i])
    &&& forall|i: int|
        0 <= i < n.layers.len() - 1 ==> layer_out(#[trigger] n.layers[i]) == layer_in(
            n.layers[i + 1],
        )
}

/// The post-activation after the first `i` layers; after none of them it is
/// the input batch itself.
pub open spec fn net_a(n: NetV, x: Grid, i: int) -> Grid
    decreases i,
{
    if i <= 0 {
        x
    } else {
        g_sig(layer_z(n.layers[i - 1], net_a(n, x, i - 1)))
    }
}

/// The pre-activation of layer `i` during a forward pass.
pub open spec fn net_z(n: NetV, x: Grid, i: int) -> Grid {
    layer_z(n.layers[i], net_a(n, x, i))
}

/// The error signal of layer `l` for a batch `x` with expected outputs `e`:
/// at the last layer the output error folded with the squashing derivative,
/// below it the next layer's signal carried back through that layer's
/// weights, read transposed, and folded likewise.
pub open spec fn net_delta(n: NetV, x: Grid, e: Grid, l: int) -> Grid
    decreases n.layers.len() - l,
{
    let last = n.layers.len() as int - 1;
    if l >= last {
        g_had(g_sub(net_a(n, x, last + 1), e), g_dsig(net_z(n, x, last)))
    } else {
        g_had(g_t2mul(net_delta(n, x, e, l + 1), n.layers[l + 1].w), g_dsig(net_z(n, x, l)))
    }
}

/// Layer `l` after one training step with the already-averaged rate `t`:
/// the weight gradient is the cached input activation, read transposed,
/// times the error signal; the bias gradient is the error signal summed
/// over the batch; both are scaled by `t` and subtracted.
pub open spec fn layer_step(n: NetV, x: Grid, e: Grid, t: int, l: int) -> LayerV {
    LayerV {
        w: g_sub(n.layers[l].w, g_scale(g_t1mul(net_a(n, x, l), net_delta(n, x, e, l)), t)),
        b: g_sub(n.layers[l].b, g_scale(g_colsum(net_delta(n, x, e, l)), t)),
    }
}

/// The whole network after one mini-batch training step: every layer
/// updated from the same forward-pass snapshot, with the learning rate
/// divided by the batch size.
pub open spec fn net_step(n: NetV, x: Grid, e: Grid) -> NetV {
    NetV {
        layers: Seq::new(
            n.layers.len(),
            |l: int| layer_step(n, x, e, div_count_v(n.rate, x.len() as int), l),
        ),
        rate: n.rate,
    }
}

/// Shapes of the forward pass: after `i` layers the batch still has one row
/// per example, and each row is as wide as layer `i - 1` had neurons.
pub proof fn lemma_net_a_shape(n: NetV, x: Grid, i: int)
    requires
        net_wf(n),
        wf_grid(x),
        x[0].len() == layer_in(n.layers[0]),
        0 <= i <= n.layers.len(),
    ensures
        wf_grid(net_a(n, x, i)),
        net_a(n, x, i).len() == x.len(),
        net_a(n, x, i)[0].len() == (if i == 0 {
            layer_in(n.layers[0])
        } else {
            layer_out(n.layers[i - 1])
        }),
        i < n.layers.len() ==> net_a(n, x, i)[0].len() == layer_in(n.layers[i]),
    decreases i,
{
    if i > 0 {
        lemma_net_a_shape(n, x, i - 1);
        let a = net_a(n, x, i - 1);
        let l = n.layers[i - 1];
        let p = g_mul(a, l.w);
        assert(wf_grid(p));
        let z = g_broadcast(p, l.b);
        assert(wf_grid(z));
        assert(wf_grid(g_sig(z)));
    }
}

/// Shapes of the backward pass: the error signal of layer `l` has one row
/// per example and one column per neuron of layer `l`.
pub proof fn lemma_net_delta_shape(n: NetV, x: Grid, e: Grid, l: int)
    requires
        net_wf(n),
        wf_grid(x),
        x[0].len() == layer_in(n.layers[0]),
        0 <= l < n.layers.len(),
    ensures
        wf_grid(net_delta(n, x, e, l)),
        net_delta(n, x, e, l).len() == x.len(),
        net_delta(n, x, e, l)[0].len() == layer_out(n.layers[l]),
    decreases n.layers.len() - l,
{
    let last = n.layers.len() as int - 1;
    if l >= last {
        lemma_net_a_shape(n, x, last + 1);
        lemma_net_a_shape(n, x, last);
    } else {
        lemma_net_delta_shape(n, x, e, l + 1);
        lemma_net_a_shape(n, x, l);
    }
}

/// Whether a mini-batch fits a network: each input row as long as the
/// first layer's input width, one label row per input row, and each label
/// row as long as the last layer has neurons.
pub open spec fn batch_ok(n: NetV, x: Grid, e: Grid) -> bool {
    &&& x[0].len() == layer_in(n.layers[0])
    &&& e.len() == x.len()
    &&& e[0].len() == layer_out(n.layers[n.layers.len() - 1])
}

/// The index of the first occurrence of the maximum among the first `n`
/// entries: a later entry replaces the running best only when strictly
/// greater.
pub open spec fn argmax_n(s: Seq<int>, n: int) -> int
    decreases n,
{
    if n <= 1 {
        0
    } else {
        let p = argmax_n(s, n - 1);
        if s[n - 1] > s[p] {
            n - 1
        } else {
            p
        }
    }
}

/// The index of the first occurrence of the maximum of a sequence.
pub open spec fn argmax_idx(s: Seq<int>) -> int {
    argmax_n(s, s.len() as int)
}

/// What it means to be the first maximum: no entry is greater, and every
/// earlier entry is strictly smaller.
pub open spec fn is_first_max(s: Seq<int>, k: int) -> bool {
    &&& 0 <= k < s.len()
    &&& forall|i: int| 0 <= i < s.len() ==> s[i] <= s[k]
    &&& forall|i: int| 0 <= i < k ==> s[i] < s[k]
}

proof fn lemma_argmax_n(s: Seq<int>, n: int)
    requires
        1 <= n <= s.len(),
    ensures
        ({
            let k = argmax_n(s, n);
            &&& 0 <= k < n
            &&& forall|i: int| 0 <= i < n ==> s[i] <= s[k]
            &&& forall|i: int| 0 <= i < k ==> s[i] < s[k]
        }),
    decreases n,
{
    if n > 1 {
        lemma_argmax_n(s, n - 1);
    }
}

/// The classification rule resolves a tie to the first index: `argmax_idx`
/// always names the first maximum, also when the maximum occurs twice.
pub proof fn lemma_argmax_is_first_max(s: Seq<int>)
    requires
        s.len() > 0,
    ensures
        is_first_max(s, argmax_idx(s)),
{
    lemma_argmax_n(s, s.len() as int);
}

/// The scalar values a sequence of fixed-point numbers stands for.
pub open spec fn fx_vals(s: Seq<Fx>) -> Seq<int> {
    s.map_values(|f: Fx| f@)
}

/// The index of the first maximum of a non-empty buffer of scalars.
#[verifier::loop_isolation(false)]
fn argmax(v: &Vec<Fx>) -> (r: usize)
    requires
        v@.len() > 0,
    ensures
        r as int == argmax_idx(fx_vals(v@)),
        r < v@.len(),
{
    let ghost s = fx_vals(v@);
    let mut best: usize = 0;
    let mut i: usize = 1;
    while i < v.len()
        invariant
            1 <= i <= v@.len(),
            best < i,
            best as int == argmax_n(s, i as int),
        decreases v@.len() - i,
    {
        proof {
            assert(s[i as int] == v@[i as int]@);
            assert(s[best as int] == v@[best as int]@);
        }
        if v[i].units > v[best].units {
            best = i;
        }
        i = i + 1;
    }
    best
}

/// A training step never changes the architecture: the stepped network is
/// well formed again, with every layer's input and output width as before,
/// so the dimensional chaining of the stack is an invariant of training.
pub proof fn lemma_net_step_preserves_shapes(n: NetV, x: Grid, e: Grid)
    requires
        net_wf(n),
    ensures
        net_wf(net_step(n, x, e)),
        net_step(n, x, e).layers.len() == n.layers.len(),
        forall|l: int|
            0 <= l < n.layers.len() ==> layer_in(#[trigger] net_step(n, x, e).layers[l])
                == layer_in(n.layers[l]) && layer_out(net_step(n, x, e).layers[l]) == layer_out(
                n.layers[l],
            ),
{
    let m = net_step(n, x, e);
    assert forall|l: int| 0 <= l < n.layers.len() implies layer_wf(#[trigger] m.layers[l])
        && layer_in(m.layers[l]) == layer_in(n.layers[l]) && layer_out(m.layers[l]) == layer_out(
        n.layers[l],
    ) by {
        let old_l = n.layers[l];
        let new_l = m.layers[l];
        assert(new_l.w.len() == old_l.w.len());
        assert(forall|i: int| 0 <= i < new_l.w.len() ==> (#[trigger] new_l.w[i]).len()
            == old_l.w[i].len());
        assert(new_l.b.len() == old_l.b.len());
        assert(forall|i: int| 0 <= i < new_l.b.len() ==> (#[trigger] new_l.b[i]).len()
            == old_l.b[i].len());
    }
}

/// Every score a network hands out lies strictly between the two class
/// extremes: whatever the weights, each entry of the output has passed the
/// squashing function last, whose range is the open unit interval.
pub proof fn lemma_output_scores_in_range(n: NetV, x: Grid, i: int)
    requires
        1 <= i,
    ensures
        forall|r: int, c: int|
            0 <= r < net_a(n, x, i).len() && 0 <= c < net_a(n, x, i)[r].len() ==> 0 < #[trigger] (
            net_a(n, x, i)[r][c]) && net_a(n, x, i)[r][c] < SCALE as int,
{
    let zz = layer_z(n.layers[i - 1], net_a(n, x, i - 1));
    assert(net_a(n, x, i) == g_sig(zz));
    assert forall|r: int, c: int|
        0 <= r < net_a(n, x, i).len() && 0 <= c < net_a(n, x, i)[r].len() implies 0 < #[trigger] (
    net_a(n, x, i)[r][c]) && net_a(n, x, i)[r][c] < SCALE as int by {
        lemma_sig_bounds(zz[r][c]);
    }
}

/// The input width of layer `l` in a stack described by an input size and
/// a list of neuron counts: the declared input size for the first layer,
/// the previous neuron count after that.
pub open spec fn size_in(input_size: int, sizes: Seq<usize>, l: int) -> int {
    if l <= 0 {
        input_size
    } else {
        sizes[l - 1] as int
    }
}

/// How many normal draws the layers before layer `l` consume: each layer
/// draws its weights and then its biases.
pub open spec fn draws_before(input_size: int, sizes: Seq<usize>, l: int) -> int
    decreases l,
{
    if l <= 0 {
        0
    } else {
        draws_before(input_size, sizes, l - 1) + size_in(input_size, sizes, l - 1) * (sizes[l
            - 1] as int) + (sizes[l - 1] as int)
    }
}

/// The draw count never runs backward.
proof fn lemma_draws_before_nonneg(input_size: int, sizes: Seq<usize>, l: int)
    requires
        input_size >= 0,
    ensures
        draws_before(input_size, sizes, l) >= 0,
    decreases l,
{
    if l > 0 {
        lemma_draws_before_nonneg(input_size, sizes, l - 1);
        assert(size_in(input_size, sizes, l - 1) * (sizes[l - 1] as int) >= 0) by (nonlinear_arith)
            requires
                size_in(input_size, sizes, l - 1) >= 0,
                sizes[l - 1] as int >= 0,
        ;
    }
}

/// Whether every declared layer size is positive.
pub open spec fn sizes_pos(sizes: Seq<usize>) -> bool {
    forall|i: int| 0 <= i < sizes.len() ==> #[trigger] sizes[i] > 0
}

/// Whether consecutive layers of a stack fit together.
pub open spec fn chained(s: Seq<Layer>) -> bool {
    forall|i: int|
        0 <= i < s.len() - 1 ==> layer_out(#[trigger] s[i]@) == layer_in(s[i + 1]@)
}

/// An ordered stack of layers with a learning rate. The rate is kept
/// positive by convention and gradients are subtracted.
#[derive(Debug)]
pub struct NeuralNetwork {
    layers: Vec<Layer>,
    learn_rate: Fx,
}

impl View for NeuralNetwork {
    type V = NetV;

    closed spec fn view(&self) -> NetV {
        NetV {
            layers: Seq::new(self.layers@.len(), |i: int| self.layers@[i]@),
            rate: self.learn_rate@,
        }
    }
}

impl NeuralNetwork {
    #[verifier::type_invariant]
    spec fn inv(self) -> bool {
        net_wf(self@)
    }

    /// Assemble a network from a ready stack of layers. An empty stack is
    /// refused as `EmptyInput`; a stack in which some layer's neuron count
    /// differs from the next layer's input width as `DimensionMismatch`.
    #[verifier::loop_isolation(false)]
    pub fn from_layers(layers: Vec<Layer>, learn_rate: Fx) -> (r: Result<NeuralNetwork, NnError>)
        ensures
            layers@.len() == 0 ==> r == Err::<NeuralNetwork, NnError>(NnError::EmptyInput),
            layers@.len() > 0 && !chained(layers@) ==> r == Err::<NeuralNetwork, NnError>(
                NnError::DimensionMismatch,
            ),
            layers@.len() > 0 && chained(layers@) ==> (r matches Ok(n) && n@.layers.len()
                == layers@.len() && (forall|i: int|
                0 <= i < layers@.len() ==> n@.layers[i] == layers@[i]@) && n@.rate == learn_rate@
                && net_wf(n@)),
    {
        if layers.len() == 0 {
            return Err(NnError::EmptyInput);
        }
        let len = layers.len();
        let mut i: usize = 0;
        while i < len
            invariant
                i <= len,
                len == layers@.len(),
                forall|k: int| 0 <= k < i ==> layer_wf(#[trigger] layers@[k]@),
                forall|k: int|
                    0 <= k < i && k < len - 1 ==> layer_out(#[trigger] layers@[k]@) == layer_in(
                        layers@[k + 1]@,
                    ),
            decreases len - i,
        {
            let l = &layers[i];
            proof {
                use_type_invariant(l);
            }
            if i + 1 < len {
                let next = &layers[i + 1];
                proof {
                    use_type_invariant(next);
                }
                if l.weights.ncols() != next.weights.nrows() {
                    return Err(NnError::DimensionMismatch);
                }
            }
            i = i + 1;
        }
        let n = NeuralNetwork { layers, learn_rate };
        proof {
            assert(forall|i: int| 0 <= i < n@.layers.len() ==> n@.layers[i] == #[trigger] n.layers@[
            i]@);
        }
        Ok(n)
    }

    /// A network with the declared input width and one layer per entry of
    /// `sizes`, each holding that many neurons, every weight and bias drawn
    /// from the injected generator: layer after layer, weights before
    /// biases, so the whole initialisation is an exact function of the
    /// seed. A zero width, a zero size or an empty list is refused as
    /// `EmptyInput`, with no draw made.
    #[verifier::loop_isolation(false)]
    #[verifier::rlimit(100)]
    pub fn new(input_size: usize, sizes: Vec<usize>, learn_rate: Fx, rng: &mut Rng64) -> (r:
        Result<NeuralNetwork, NnError>)
        requires
            forall|l: int|
                0 <= l < sizes@.len() ==> size_in(input_size as int, sizes@, l) * (
                #[trigger] sizes@[l] as int) + (sizes@[l] as int) <= usize::MAX as int,
        ensures
            !(input_size > 0 && sizes@.len() > 0 && sizes_pos(sizes@)) ==> r == Err::<
                NeuralNetwork,
                NnError,
            >(NnError::EmptyInput) && final(rng)@ == old(rng)@,
            input_size > 0 && sizes@.len() > 0 && sizes_pos(sizes@) ==> (r matches Ok(n) && n@.rate
                == learn_rate@ && n@.layers.len() == sizes@.len() && (forall|l: int|
                0 <= l < sizes@.len() ==> #[trigger] n@.layers[l] == layer_normals(
                    rng_after(old(rng)@, 12 * draws_before(input_size as int, sizes@, l)),
                    size_in(input_size as int, sizes@, l),
                    sizes@[l] as int,
                )) && final(rng)@ == rng_after(
                old(rng)@,
                12 * draws_before(input_size as int, sizes@, sizes@.len() as int),
            )),
    {
        if input_size == 0 || sizes.len() == 0 {
            return Err(NnError::EmptyInput);
        }
        let len = sizes.len();
        let mut c: usize = 0;
        while c < len
            invariant
                c <= len,
                forall|i: int| 0 <= i < c ==> #[trigger] sizes@[i] > 0,
            decreases len - c,
        {
            if sizes[c] == 0 {
                return Err(NnError::EmptyInput);
            }
            c = c + 1;
        }
        let ghost s0 = rng@;
        let ghost szs = sizes@;
        let ghost ins = input_size as int;
        let mut layers: Vec<Layer> = Vec::new();
        let mut l: usize = 0;
        while l < len
            invariant
                l <= len,
                layers@.len() == l,
                rng@ == rng_after(s0, 12 * draws_before(ins, szs, l as int)),
                forall|q: int|
                    0 <= q < l ==> #[trigger] layers@[q]@ == layer_normals(
                        rng_after(s0, 12 * draws_before(ins, szs, q)),
                        size_in(ins, szs, q),
                        szs[q] as int,
                    ),
                forall|q: int| 0 <= q < l ==> layer_wf(#[trigger] layers@[q]@),
                forall|q: int|
                    0 <= q < l ==> layer_in(#[trigger] layers@[q]@) == size_in(ins, szs, q)
                        && layer_out(layers@[q]@) == szs[q] as int,
            decreases len - l,
        {
            let in_sz = if l == 0 {
                input_size
            } else {
                sizes[l - 1]
            };
            let out_sz = sizes[l];
            let ghost before = rng@;
            let lay = match Layer::new(out_sz, in_sz, rng) {
                Ok(lay) => lay,
                Err(_) => {
                    proof {
                        assert(false);
                    }
                    return Err(NnError::EmptyInput);
                },
            };
            proof {
                use_type_invariant(&lay);
                lemma_draws_before_nonneg(ins, szs, l as int);
                lemma_rng_after_add(
                    s0,
                    12 * draws_before(ins, szs, l as int),
                    12 * ((in_sz * out_sz + out_sz) as int),
                );
            }
            layers.push(lay);
            l = l + 1;
        }
        let n = NeuralNetwork { layers, learn_rate };
        Ok(n)
    }

    /// The same construction seeded from fresh process entropy, for
    /// callers that do not need to replay the initialisation. The
    /// architecture is pinned; the drawn values are whatever the seed
    /// gave.
    #[verifier::loop_isolation(false)]
    pub fn new_from_entropy(input_size: usize, sizes: Vec<usize>, learn_rate: Fx) -> (r: Result<
        NeuralNetwork,
        NnError,
    >)
        requires
            forall|l: int|
                0 <= l < sizes@.len() ==> size_in(input_size as int, sizes@, l) * (
                #[trigger] sizes@[l] as int) + (sizes@[l] as int) <= usize::MAX as int,
        ensures
            !(input_size > 0 && sizes@.len() > 0 && sizes_pos(sizes@)) ==> r == Err::<
                NeuralNetwork,
                NnError,
            >(NnError::EmptyInput),
            input_size > 0 && sizes@.len() > 0 && sizes_pos(sizes@) ==> (r matches Ok(n) && n@.rate
                == learn_rate@ && n@.layers.len() == sizes@.len() && (forall|l: int|
                0 <= l < sizes@.len() ==> layer_in(#[trigger] n@.layers[l]) == size_in(
                    input_size as int,
                    sizes@,
                    l,
                ) && layer_out(n@.layers[l]) == sizes@[l] as int)),
    {
        let mut rng = Rng64::from_entropy();
        NeuralNetwork::new(input_size, sizes, learn_rate, &mut rng)
    }

    /// The learning rate the network was built with.
    pub fn learn_rate(&self) -> (r: Fx)
        ensures
            r@ == self@.rate,
    {
        self.learn_rate
    }

    /// The number of layers.
    pub fn num_layers(&self) -> (r: usize)
        ensures
            r == self@.layers.len(),
            r > 0,
            net_wf(self@),
    {
        proof {
            use_type_invariant(self);
        }
        self.layers.len()
    }

    /// The layer at an index, or nothing beyond the stack.
    pub fn layer(&self, i: usize) -> (r: Option<&Layer>)
        ensures
            i < self@.layers.len() ==> (r matches Some(l) && l@ == self@.layers[i as int]),
            i >= self@.layers.len() ==> r is None,
    {
        proof {
            use_type_invariant(self);
        }
        if i < self.layers.len() {
            Some(&self.layers[i])
        } else {
            None
        }
    }

    /// Inference: the batch folded through every layer in order. A pure
    /// function of the current weights. Each input row must be as long as
    /// the first layer's input width.
    #[verifier::loop_isolation(false)]
    pub fn output(&self, input: &Matrix) -> (r: Result<Matrix, NnError>)
        ensures
            input@[0].len() == layer_in(self@.layers[0]) ==> (r matches Ok(m) && m@ == net_a(
                self@,
                input@,
                self@.layers.len() as int,
            )),
            input@[0].len() != layer_in(self@.layers[0]) ==> r == Err::<Matrix, NnError>(
                NnError::DimensionMismatch,
            ),
    {
        proof {
            use_type_invariant(self);
        }
        let ghost v = self@;
        let ghost x = input@;
        // The shape reader certifies that the input models a well-formed
        // grid, which the forward shape lemma needs.
        input.ncols();
        let l0 = &self.layers[0];
        proof {
            use_type_invariant(l0);
            assert(v.layers[0] == l0@);
        }
        let mut acc = match l0.output(input) {
            Ok(m) => m,
            Err(e) => {
                return Err(e);
            },
        };
        proof {
            assert(net_a(v, x, 0) == x);
            assert(acc@ == net_a(v, x, 1));
        }
        let len = self.layers.len();
        let mut i: usize = 1;
        while i < len
            invariant
                1 <= i <= len,
                acc@ == net_a(v, x, i as int),
            decreases len - i,
        {
            let li = &self.layers[i];
            proof {
                use_type_invariant(li);
                assert(v.layers[i as int] == li@);
                lemma_net_a_shape(v, x, i as int);
            }
            let nxt = match li.output(&acc) {
                Ok(m) => m,
                Err(_) => {
                    proof {
                        assert(false);
                    }
                    return Err(NnError::DimensionMismatch);
                },
            };
            acc = nxt;
            i = i + 1;
        }
        Ok(acc)
    }

    /// One gradient-descent step on a mini-batch: a forward pass that
    /// caches every pre- and post-activation, a backward pass that forms
    /// every layer's error signal from that one snapshot, and then the
    /// update of every layer's weights and biases, all pinned down by
    /// `net_step`. A batch whose shapes do not fit the network is refused
    /// whole as `IncompatibleBatch`, with no weight touched.
    #[verifier::loop_isolation(false)]
    #[verifier::rlimit(100)]
    pub fn learn(&mut self, input: Matrix, expected: Matrix) -> (r: Result<(), NnError>)
        ensures
            batch_ok(old(self)@, input@, expected@) ==> r == Ok::<(), NnError>(()) && final(self)@
                == net_step(old(self)@, input@, expected@),
            !batch_ok(old(self)@, input@, expected@) ==> r == Err::<(), NnError>(
                NnError::IncompatibleBatch,
            ) && final(self)@ == old(self)@,
    {
        proof {
            use_type_invariant(&*self);
        }
        let ghost v = self@;
        let ghost x = input@;
        let ghost e = expected@;
        let m_rows = input.nrows();
        let in_cols = input.ncols();
        let e_rows = expected.nrows();
        let e_cols = expected.ncols();
        let len = self.layers.len();
        let in_need = {
            let l0 = &self.layers[0];
            proof {
                use_type_invariant(l0);
                assert(v.layers[0] == l0@);
            }
            l0.weights.nrows()
        };
        let out_need = {
            let llast = &self.layers[len - 1];
            proof {
                use_type_invariant(llast);
                assert(v.layers[len - 1] == llast@);
            }
            llast.weights.ncols()
        };
        if !(in_cols == in_need && e_rows == m_rows && e_cols == out_need) {
            return Err(NnError::IncompatibleBatch);
        }
        // Forward pass, keeping every pre-activation and activation.
        let mut a_s: Vec<Matrix> = Vec::new();
        let mut z_s: Vec<Matrix> = Vec::new();
        a_s.push(input);
        let mut l: usize = 0;
        while l < len
            invariant
                l <= len,
                a_s@.len() == l + 1,
                z_s@.len() == l,
                forall|k: int| 0 <= k <= l ==> #[trigger] a_s@[k]@ == net_a(v, x, k),
                forall|k: int| 0 <= k < l ==> #[trigger] z_s@[k]@ == net_z(v, x, k),
                self@ == v,
            decreases len - l,
        {
            let lyr = &self.layers[l];
            proof {
                use_type_invariant(lyr);
                assert(v.layers[l as int] == lyr@);
                lemma_net_a_shape(v, x, l as int);
            }
            let prev = a_s.len() - 1;
            let a_prev = &a_s[prev];
            let zl = mult_exact(a_prev, &lyr.weights);
            let z = broadcast_exact(&zl, &lyr.biases);
            let a = z.sigmoid();
            proof {
                assert(z@ == net_z(v, x, l as int));
                assert(a@ == net_a(v, x, l + 1));
            }
            a_s.push(a);
            z_s.push(z);
            l = l + 1;
        }
        // Output error: the difference to the expected outputs, folded with
        // the squashing derivative on the cached pre-activation.
        proof {
            lemma_net_a_shape(v, x, len as int);
        }
        let a_last = &a_s[len];
        let z_last = &z_s[len - 1];
        let d_out = had_exact(&sub_exact(a_last, &expected), &z_last.dsigmoid());
        proof {
            assert(d_out@ == net_delta(v, x, e, len - 1 as int));
        }
        // Backward pass: the error signals, from the last layer down.
        let mut deltas_rev: Vec<Matrix> = Vec::new();
        deltas_rev.push(d_out);
        let mut k: usize = 1;
        while k < len
            invariant
                1 <= k <= len,
                deltas_rev@.len() == k,
                forall|t: int|
                    0 <= t < k ==> #[trigger] deltas_rev@[t]@ == net_delta(v, x, e, len - 1 - t),
            decreases len - k,
        {
            let lyr = &self.layers[len - k];
            proof {
                use_type_invariant(lyr);
                assert(v.layers[(len - k) as int] == lyr@);
                lemma_net_delta_shape(v, x, e, (len - k) as int);
                lemma_net_a_shape(v, x, (len - 1 - k) as int);
                lemma_net_a_shape(v, x, (len - k) as int);
            }
            let dprev = &deltas_rev[k - 1];
            let zz = &z_s[len - 1 - k];
            let tm = t2mult_exact(dprev, &lyr.weights);
            let d = had_exact(&tm, &zz.dsigmoid());
            proof {
                assert(d@ == net_delta(v, x, e, (len - 1 - k) as int));
            }
            deltas_rev.push(d);
            k = k + 1;
        }
        // Update: every layer stepped from the same snapshot.
        let t = self.learn_rate.div_count(m_rows);
        proof {
            assert(t@ == div_count_v(v.rate, x.len() as int));
        }
        let mut new_layers: Vec<Layer> = Vec::new();
        let mut u: usize = 0;
        while u < len
            invariant
                u <= len,
                new_layers@.len() == u,
                forall|q: int|
                    0 <= q < u ==> #[trigger] new_layers@[q]@ == layer_step(v, x, e, t@, q),
                forall|q: int| 0 <= q < u ==> layer_wf(#[trigger] new_layers@[q]@),
            decreases len - u,
        {
            let lyr = &self.layers[u];
            proof {
                use_type_invariant(lyr);
                assert(v.layers[u as int] == lyr@);
                lemma_net_delta_shape(v, x, e, u as int);
                lemma_net_a_shape(v, x, u as int);
                assert(deltas_rev@[(len - 1 - u) as int]@ == net_delta(v, x, e, u as int));
            }
            let a_prev = &a_s[u];
            let d = &deltas_rev[len - 1 - u];
            let mut wgrad = t1mult_exact(a_prev, d);
            wgrad.cons_prod(t);
            let neww = sub_exact(&lyr.weights, &wgrad);
            let mut bgrad = d.sum_of_cols();
            bgrad.cons_prod(t);
            let newb = sub_exact(&lyr.biases, &bgrad);
            proof {
                assert(wf_grid(neww@));
                assert(wf_grid(newb@));
            }
            let nl = Layer { weights: neww, biases: newb };
            proof {
                assert(nl@ == layer_step(v, x, e, t@, u as int));
            }
            new_layers.push(nl);
            u = u + 1;
        }
        self.layers = new_layers;
        proof {
            assert(self@.layers =~= net_step(v, x, e).layers);
            assert(self@ == net_step(v, x, e));
        }
        Ok(())
    }

    /// Score one example: 1 when the index of the first-greatest output
    /// equals the index of the first-greatest label entry, 0 otherwise.
    /// Input and expected must each be a single row.
    pub fn check_one(&self, input: Matrix, expected: Matrix) -> (r: Result<u64, NnError>)
        ensures
            input@[0].len() == layer_in(self@.layers[0]) && input@.len() == 1 && expected@.len()
                == 1 ==> (r matches Ok(c) && c == (if argmax_idx(
                net_a(self@, input@, self@.layers.len() as int)[0],
            ) == argmax_idx(expected@[0]) {
                1u64
            } else {
                0u64
            })),
            !(input@[0].len() == layer_in(self@.layers[0]) && input@.len() == 1 && expected@.len()
                == 1) ==> r == Err::<u64, NnError>(NnError::DimensionMismatch),
    {
        proof {
            use_type_invariant(self);
        }
        let ghost v = self@;
        // The shape readers certify that both operands model well-formed
        // grids, which the shape reasoning below needs.
        input.ncols();
        expected.ncols();
        let len = self.layers.len();
        let out = match self.output(&input) {
            Ok(m) => m,
            Err(e) => {
                return Err(e);
            },
        };
        proof {
            lemma_net_a_shape(v, input@, len as int);
        }
        let ov = match out.to_vec() {
            Ok(o) => o,
            Err(e) => {
                return Err(e);
            },
        };
        let ev = match expected.to_vec() {
            Ok(o) => o,
            Err(e) => {
                return Err(e);
            },
        };
        let oi = argmax(&ov);
        let ei = argmax(&ev);
        if oi == ei {
            Ok(1)
        } else {
            Ok(0)
        }
    }
}

} // verus!
