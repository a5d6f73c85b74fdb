use vstd::prelude::*;

verus! {

/// One of the six programmable pipeline stages.
#[derive(Clone, Copy, PartialEq, Eq, Debug)]
pub enum Stage {
    Vertex,
    Fragment,
    Geometry,
    TessControl,
    TessEval,
    Compute,
}

/// The set of stages that a combined source declares.
#[derive(Clone, Copy, PartialEq, Eq, Debug)]
pub struct PipelineStages {
    pub vertex: bool,
    pub fragment: bool,
    pub geometry: bool,
    pub tess_control: bool,
    pub tess_eval: bool,
    pub compute: bool,
}

impl PipelineStages {
    pub open spec fn has(self, s: Stage) -> bool {
        match s {
            Stage::Vertex => self.vertex,
            Stage::Fragment => self.fragment,
            Stage::Geometry => self.geometry,
            Stage::TessControl => self.tess_control,
            Stage::TessEval => self.tess_eval,
            Stage::Compute => self.compute,
        }
    }

    /// This set with `s` added.
    pub open spec fn with(self, s: Stage) -> PipelineStages {
        match s {
            Stage::Vertex => PipelineStages { vertex: true, ..self },
            Stage::Fragment => PipelineStages { fragment: true, ..self },
            Stage::Geometry => PipelineStages { geometry: true, ..self },
            Stage::TessControl => PipelineStages { tess_control: true, ..self },
            Stage::TessEval => PipelineStages { tess_eval: true, ..self },
            Stage::Compute => PipelineStages { compute: true, ..self },
        }
    }

    pub open spec fn none() -> PipelineStages {
        PipelineStages {
            vertex: false,
            fragment: false,
            geometry: false,
            tess_control: false,
            tess_eval: false,
            compute: false,
        }
    }

    /// How many stages the set holds.
    pub open spec fn count(self) -> nat {
        (if self.vertex { 1nat } else { 0nat }) + (if self.fragment { 1nat } else { 0nat }) + (
        if self.geometry { 1nat } else { 0nat }) + (if self.tess_control { 1nat } else { 0nat })
            + (if self.tess_eval { 1nat } else { 0nat }) + (if self.compute { 1nat } else { 0nat })
    }

    /// The empty set.
    pub fn empty() -> (r: PipelineStages)
        ensures
            r == PipelineStages::none(),
    {
        PipelineStages {
            vertex: false,
            fragment: false,
            geometry: false,
            tess_control: false,
            tess_eval: false,
            compute: false,
        }
    }

    /// Whether the set holds `s`.
    pub fn contains(&self, s: Stage) -> (r: bool)
        ensures
            r == self.has(s),
    {
        match s {
            Stage::Vertex => self.vertex,
            Stage::Fragment => self.fragment,
            Stage::Geometry => self.geometry,
            Stage::TessControl => self.tess_control,
            Stage::TessEval => self.tess_eval,
            Stage::Compute => self.compute,
        }
    }

    /// Adds `s` to the set.
    pub fn insert(&mut self, s: Stage)
        ensures
            *final(self) == old(self).with(s),
    {
        match s {
            Stage::Vertex => self.vertex = true,
            Stage::Fragment => self.fragment = true,
            Stage::Geometry => self.geometry = true,
            Stage::TessControl => self.tess_control = true,
            Stage::TessEval => self.tess_eval = true,
            Stage::Compute => self.compute = true,
        }
    }
}

/// The scalar type of a vertex attribute's components.
#[derive(Clone, Copy, PartialEq, Eq, Debug)]
pub enum ComponentType {
    Float,
    Short,
    UnsignedByte,
    Byte,
}

/// The primitive that the rasterizer assembles from vertices.
#[derive(Clone, Copy, PartialEq, Eq, Debug)]
pub enum PrimitiveTopology {
    Triangles,
    Lines,
}

/// One entry of a vertex input layout.
#[derive(Clone, Copy, PartialEq, Eq, Debug)]
pub struct VertexAttribute {
    pub ty: ComponentType,
    /// Number of components, 1 to 4.
    pub size: u32,
    pub normalized: bool,
    pub slot: u32,
    pub relative_offset: u32,
}

} // verus!
