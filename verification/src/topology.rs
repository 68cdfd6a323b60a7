use vstd::prelude::*;
use crate::error::ConfigError;

verus! {

/// Number of weights each neuron of `layer` owns: the network's input size
/// for the first layer, the width of the layer before it otherwise.
pub open spec fn layer_inputs(input_size: usize, hidden: Seq<usize>, layer: int) -> usize {
    if layer == 0 {
        input_size
    } else {
        hidden[layer - 1]
    }
}

/// Number of neurons in `layer`: the hidden width while hidden layers last,
/// the network's output size for the final layer.
pub open spec fn layer_neurons(hidden: Seq<usize>, output_size: usize, layer: int) -> usize {
    if layer < hidden.len() {
        hidden[layer]
    } else {
        output_size
    }
}

/// The shape of a fully connected network: one entry per layer, holding one
/// entry per neuron, which is the length of that neuron's weight vector.
pub open spec fn topology(input_size: usize, hidden: Seq<usize>, output_size: usize) -> Seq<
    Seq<usize>,
> {
    Seq::new(
        hidden.len() + 1,
        |layer: int|
            Seq::new(
                layer_neurons(hidden, output_size, layer) as nat,
                |neuron: int| layer_inputs(input_size, hidden, layer),
            ),
    )
}

/// What every network shape must satisfy: there is at least one layer, each
/// neuron has one weight per unit that feeds it (the inputs for the first
/// layer, the neurons of the preceding layer after that), and the last layer
/// has one neuron per output.
pub open spec fn well_formed(shapes: Seq<Seq<usize>>, input_size: usize, output_size: usize) -> bool {
    &&& shapes.len() > 0
    &&& forall|layer: int, neuron: int|
        0 <= layer < shapes.len() && 0 <= neuron < shapes[layer].len()
            ==> #[trigger] shapes[layer][neuron] == (if layer == 0 {
            input_size as int
        } else {
            shapes[layer - 1].len() as int
        })
    &&& shapes.last().len() == output_size
}

/// Every topology is well formed, whatever the hidden widths are.
pub proof fn lemma_topology_well_formed(input_size: usize, hidden: Seq<usize>, output_size: usize)
    ensures
        well_formed(topology(input_size, hidden, output_size), input_size, output_size),
{
    let shapes = topology(input_size, hidden, output_size);
    assert forall|layer: int, neuron: int|
        0 <= layer < shapes.len() && 0 <= neuron < shapes[layer].len() implies #[trigger] shapes[layer][neuron]
        == (if layer == 0 {
        input_size as int
    } else {
        shapes[layer - 1].len() as int
    }) by {
        if layer > 0 {
            assert(shapes[layer - 1].len() == hidden[layer - 1]);
        }
    }
}

/// A layer of `neuron_count` neurons with `weight_count` weights each.
fn uniform_layer(weight_count: usize, neuron_count: usize) -> (layer: Vec<usize>)
    ensures
        layer@ == Seq::new(neuron_count as nat, |neuron: int| weight_count),
{
    let mut layer: Vec<usize> = Vec::new();
    let mut neuron: usize = 0;
    while neuron < neuron_count
        invariant
            neuron <= neuron_count,
            layer@ == Seq::new(neuron as nat, |n: int| weight_count),
        decreases neuron_count - neuron,
    {
        layer.push(weight_count);
        neuron += 1;
    }
    layer
}

/// Lays out a network that takes `input_size` inputs, passes them through
/// hidden layers of the given widths and ends in `output_size` outputs.
///
/// A network without inputs or without outputs is rejected; anything else
/// yields the shape described by [`topology`].
pub fn layer_shapes(input_size: usize, hidden_layer: &[usize], output_size: usize) -> (r: Result<
    Vec<Vec<usize>>,
    ConfigError,
>)
    ensures
        match r {
            Ok(shapes) => {
                &&& input_size > 0
                &&& output_size > 0
                &&& shapes.deep_view() == topology(input_size, hidden_layer@, output_size)
            },
            Err(e) => {
                &&& input_size == 0 || output_size == 0
                &&& e == if input_size == 0 {
                    ConfigError::EmptyInput
                } else {
                    ConfigError::EmptyOutput
                }
            },
        },
{
    if input_size == 0 {
        return Err(ConfigError::EmptyInput);
    }
    if output_size == 0 {
        return Err(ConfigError::EmptyOutput);
    }
    let ghost hidden = hidden_layer@;
    let mut shapes: Vec<Vec<usize>> = Vec::new();
    let mut weight_count = input_size;
    let mut layer: usize = 0;
    while layer < hidden_layer.len()
        invariant
            hidden == hidden_layer@,
            layer <= hidden_layer.len(),
            weight_count == layer_inputs(input_size, hidden, layer as int),
            shapes@.len() == layer,
            forall|l: int|
                0 <= l < layer ==> (#[trigger] shapes@[l])@ == topology(
                    input_size,
                    hidden,
                    output_size,
                )[l],
        decreases hidden_layer.len() - layer,
    {
        let neuron_count = hidden_layer[layer];
        shapes.push(uniform_layer(weight_count, neuron_count));
        weight_count = neuron_count;
        layer += 1;
    }
    shapes.push(uniform_layer(weight_count, output_size));
    assert(shapes.deep_view() =~~= topology(input_size, hidden, output_size));
    Ok(shapes)
}

} // verus!
