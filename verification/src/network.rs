//! The shape of a dense network.

use vstd::prelude::*;

verus! {

/// The shape of each layer of a network with neuron counts `sizes`: layer
/// `i` has `sizes[i + 1]` neurons, each with `sizes[i]` weights.
pub open spec fn layer_shapes_of(sizes: Seq<usize>) -> Seq<(usize, usize)> {
    Seq::new(
        if sizes.len() >= 1 { (sizes.len() - 1) as nat } else { 0 },
        |i: int| (sizes[i + 1], sizes[i]),
    )
}

/// The `(neurons, inputs)` pair of each layer of a network with neuron counts
/// `sizes`, input layer first: one layer for each pair of adjacent sizes.
pub fn layer_shapes(sizes: &[usize]) -> (shapes: Vec<(usize, usize)>)
    ensures
        shapes@ == layer_shapes_of(sizes@),
        sizes@.len() >= 1 ==> shapes@.len() == sizes@.len() - 1,
        sizes@.len() == 0 ==> shapes@.len() == 0,
        forall|i: int| 0 <= i < sizes@.len() - 1 ==> #[trigger] shapes@[i] == (sizes@[i + 1], sizes@[i]),
{
    let mut shapes: Vec<(usize, usize)> = Vec::new();
    let n = sizes.len();
    if n < 2 {
        assert(shapes@ =~= layer_shapes_of(sizes@));
        return shapes;
    }
    let mut i: usize = 0;
    while i + 1 < n
        invariant
            n == sizes@.len(),
            n >= 2,
            0 <= i <= n - 1,
            shapes@ == layer_shapes_of(sizes@).take(i as int),
        decreases n - i,
    {
        shapes.push((sizes[i + 1], sizes[i]));
        assert(shapes@ =~= layer_shapes_of(sizes@).take(i + 1));
        i += 1;
    }
    assert(shapes@ =~= layer_shapes_of(sizes@));
    shapes
}

/// A network with `n >= 1` neuron counts has `n - 1` layers, and layer `i`
/// has `sizes[i + 1]` neurons with `sizes[i]` weights each; in particular
/// two counts `[a, b]` give the single layer `(b, a)`.
pub proof fn lemma_layer_count_and_shape(sizes: Seq<usize>)
    requires
        sizes.len() >= 1,
    ensures
        layer_shapes_of(sizes).len() == sizes.len() - 1,
        forall|i: int| 0 <= i < sizes.len() - 1 ==> #[trigger] layer_shapes_of(sizes)[i] == (sizes[i + 1], sizes[i]),
        sizes.len() == 2 ==> layer_shapes_of(sizes) == seq![(sizes[1], sizes[0])],
{
    if sizes.len() == 2 {
        assert(layer_shapes_of(sizes) =~= seq![(sizes[1], sizes[0])]);
    }
}

/// Adjacent layers fit together: the neurons of one layer are the inputs of
/// the next.
pub proof fn lemma_layers_chain(sizes: Seq<usize>, i: int)
    requires
        0 <= i,
        i + 1 < layer_shapes_of(sizes).len(),
    ensures
        layer_shapes_of(sizes)[i].0 == layer_shapes_of(sizes)[i + 1].1,
{
}

} // verus!
