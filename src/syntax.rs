use vstd::prelude::*;
use crate::types::PrimitiveTopology;

verus! {

/// A compute pass of a render graph: its entry point and work-group size.
pub struct ComputePass {
    pub entry: String,
    pub local_size: [u32; 3],
}

/// A render pass of a render graph, as the list of its directives.
pub struct Pass {
    pub directives: Vec<PassDirective>,
}

/// One directive of a render pass.
pub enum PassDirective {
    PrimitiveTopology(PrimitiveTopology),
    DepthTest(bool),
    VertexShader(String),
    FragmentShader(String),
    GeometryShader(String),
    TessControlShader(String),
    TessEvalShader(String),
    ComputeShader(String),
}

} // verus!
