//! The wiring of a circuit: nodes that run basic blocks on the graph's inputs
//! and on the outputs of earlier nodes, and which stages of each block can be
//! skipped because their results are known in advance.
use crate::basic_block::copy_tensor;
use crate::field::Fe;
use crate::tensor::Tensor;
use vstd::prelude::*;

verus! {

/// For each basic block (or node), whether its setup, its proving and
/// verifying, and the encoding of its outputs can be skipped.
#[derive(Debug)]
pub struct Precomputable {
    pub setup: Vec<bool>,
    pub prove_and_verify: Vec<bool>,
    pub encodeOutputs: Vec<bool>,
}

impl Precomputable {
    /// Nothing marked as precomputable.
    pub fn new() -> (r: Self)
        ensures
            r.setup@.len() == 0,
            r.prove_and_verify@.len() == 0,
            r.encodeOutputs@.len() == 0,
    {
        Precomputable { setup: Vec::new(), prove_and_verify: Vec::new(), encodeOutputs: Vec::new() }
    }
}

/// A node of the graph: the basic block it runs, and where each of its
/// inputs comes from, as pairs `(node, output number)`; a negative node
/// stands for the graph's own inputs.
#[derive(Debug)]
pub struct Node {
    pub basic_block: usize,
    pub inputs: Vec<(i32, usize)>,
}

/// Where the input of a node comes from.
#[derive(Debug, Clone, Copy, PartialEq, Eq, Structural)]
pub enum InputSource {
    /// The graph input at this position.
    GraphInput(usize),
    /// The output with this number of the node at this position.
    NodeOutput(usize, usize),
}

/// Where the input `(node, output)` comes from. A negative node `-k` names
/// graph input `output + k - 1`, so both `(-1, 0), (-1, 1), (-1, 2), ...` and
/// `(-1, 0), (-2, 0), (-3, 0), ...` list the graph inputs in order.
pub open spec fn source_of(node: i32, output: usize) -> InputSource {
    if node < 0 {
        InputSource::GraphInput((output + (-node - 1)) as usize)
    } else {
        InputSource::NodeOutput(node as usize, output)
    }
}

/// Where the input `(node, output)` of a node comes from.
pub fn input_source(node: i32, output: usize) -> (r: InputSource)
    requires
        node < 0 ==> output + (-node - 1) <= usize::MAX,
    ensures
        r == source_of(node, output),
{
    if node < 0 {
        let back: i64 = -(node as i64) - 1;
        InputSource::GraphInput(output + back as usize)
    } else {
        InputSource::NodeOutput(node as usize, output)
    }
}

/// Whether the tensor a source names exists among the graph's inputs and
/// the outputs of the nodes run so far.
pub open spec fn source_exists(inputs: Seq<Tensor<Fe>>, outputs: Seq<Vec<Tensor<Fe>>>, s: InputSource) -> bool {
    match s {
        InputSource::GraphInput(k) => k < inputs.len(),
        InputSource::NodeOutput(b, o) => b < outputs.len() && o < outputs[b as int]@.len(),
    }
}

/// The tensor a source names.
pub open spec fn source_tensor(inputs: Seq<Tensor<Fe>>, outputs: Seq<Vec<Tensor<Fe>>>, s: InputSource) -> Tensor<Fe> {
    match s {
        InputSource::GraphInput(k) => inputs[k as int],
        InputSource::NodeOutput(b, o) => outputs[b as int]@[o as int],
    }
}

/// The references a node's inputs can be gathered from: each names a graph
/// input or an output of a node run so far.
pub open spec fn refs_exist(inputs: Seq<Tensor<Fe>>, outputs: Seq<Vec<Tensor<Fe>>>, refs: Seq<(i32, usize)>) -> bool {
    forall|k: int|
        0 <= k < refs.len() ==> {
            let (node, output) = #[trigger] refs[k];
            &&& node < 0 ==> output + (-node - 1) <= usize::MAX
            &&& source_exists(inputs, outputs, source_of(node, output))
        }
}

/// The inputs of a node: a copy of the tensor each of its references names,
/// in order.
pub fn gather_inputs(inputs: &Vec<Tensor<Fe>>, outputs: &Vec<Vec<Tensor<Fe>>>, refs: &Vec<(i32, usize)>) -> (r: Vec<Tensor<Fe>>)
    requires
        refs_exist(inputs@, outputs@, refs@),
    ensures
        r@.len() == refs@.len(),
        forall|k: int|
            0 <= k < refs@.len() ==> {
                let t = source_tensor(inputs@, outputs@, source_of(refs@[k].0, refs@[k].1));
                (#[trigger] r@[k]).shape@ == t.shape@ && r@[k].data@ == t.data@
            },
{
    let mut r: Vec<Tensor<Fe>> = Vec::new();
    let mut k: usize = 0;
    while k < refs.len()
        invariant
            refs_exist(inputs@, outputs@, refs@),
            k <= refs@.len(),
            r@.len() == k,
            forall|k2: int|
                0 <= k2 < k ==> {
                    let t = source_tensor(inputs@, outputs@, source_of(refs@[k2].0, refs@[k2].1));
                    (#[trigger] r@[k2]).shape@ == t.shape@ && r@[k2].data@ == t.data@
                },
        decreases refs@.len() - k,
    {
        let (node, output) = refs[k];
        assert(refs@[k as int] == (node, output));
        let t = match input_source(node, output) {
            InputSource::GraphInput(g) => copy_tensor(&inputs[g]),
            InputSource::NodeOutput(b, o) => copy_tensor(&outputs[b][o]),
        };
        r.push(t);
        k = k + 1;
    }
    r
}

} // verus!
