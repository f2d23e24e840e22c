//! What can go wrong while a renderer is constructed.

use vstd::prelude::*;
use vstd::string::StringExecFns;
use crate::gl::FRAGMENT_SHADER;
use crate::gl::VERTEX_SHADER;
use crate::uniforms::UniformSlot;

verus! {

/// The two programmable stages of the pipeline.
#[derive(Clone, Copy, Debug, PartialEq, Eq, Hash, Structural)]
pub enum ShaderStage {
    Vertex,
    Fragment,
}

/// The two objects that hold the quad's geometry on the device.
#[derive(Clone, Copy, Debug, PartialEq, Eq, Hash, Structural)]
pub enum GeometryObject {
    /// The buffer that holds the corner coordinates.
    VertexBuffer,
    /// The vertex-array object that describes the buffer's layout.
    VertexArray,
}

/// A failed construction. Drawing a frame reports no errors.
#[derive(Clone, Debug, PartialEq, Eq)]
pub enum RenderError {
    /// The device refused to allocate a geometry object.
    BufferAllocationError { object: GeometryObject },
    /// A shader was not created or did not compile; `log` is the driver's text.
    ShaderCompileError { stage: ShaderStage, log: String },
    /// The program was not created or did not link; `log` is the driver's text.
    ProgramLinkError { log: String },
    /// The linked program has no uniform of this name.
    UniformResolutionError { name: String },
}

/// Reported for a shader stage when the device hands out no shader object.
pub open spec fn no_shader_text() -> Seq<char> {
    "Unable to create shader object"@
}

/// Reported for a shader that failed to compile without leaving a log.
pub open spec fn no_compile_log_text() -> Seq<char> {
    "Unknown error creating shader"@
}

/// Reported for the program when the device hands out no program object.
pub open spec fn no_program_text() -> Seq<char> {
    "Unable to create shader object"@
}

/// Reported for a program that failed to link without leaving a log.
pub open spec fn no_link_log_text() -> Seq<char> {
    "Unknown error creating program object"@
}

impl ShaderStage {
    /// The number by which the device knows this stage's kind of shader.
    pub open spec fn kind_of(self) -> u32 {
        match self {
            ShaderStage::Vertex => VERTEX_SHADER,
            ShaderStage::Fragment => FRAGMENT_SHADER,
        }
    }

    /// The number by which the device knows this stage's kind of shader.
    pub fn kind(self) -> (kind: u32)
        ensures
            kind == self.kind_of(),
    {
        match self {
            ShaderStage::Vertex => VERTEX_SHADER,
            ShaderStage::Fragment => FRAGMENT_SHADER,
        }
    }
}

impl GeometryObject {
    /// The text that reports a refused allocation of this object.
    pub open spec fn refusal_text(self) -> Seq<char> {
        match self {
            GeometryObject::VertexBuffer => "Couldn't create buffer"@,
            GeometryObject::VertexArray => "Could not create vertex array object"@,
        }
    }
}

impl RenderError {
    /// Whether this reports that a shader of `stage` failed, with `text` as log.
    pub open spec fn is_compile_failure(self, stage: ShaderStage, text: Seq<char>) -> bool {
        self matches RenderError::ShaderCompileError { stage: failed, log } && failed == stage
            && log@ == text
    }

    /// Whether this reports that a shader of `stage` failed, with whatever log.
    pub open spec fn is_compile_failure_of(self, stage: ShaderStage) -> bool {
        self matches RenderError::ShaderCompileError { stage: failed, .. } && failed == stage
    }

    /// Whether this reports that the program failed, with `text` as log.
    pub open spec fn is_link_failure(self, text: Seq<char>) -> bool {
        self matches RenderError::ProgramLinkError { log } && log@ == text
    }

    /// Whether this reports that the program lacks the uniform `slot`.
    pub open spec fn is_missing_uniform(self, slot: UniformSlot) -> bool {
        self matches RenderError::UniformResolutionError { name } && name@ == slot.name_text()
    }

    /// Whether a construction can end in this error: any failure of a stage, of
    /// the link or of an allocation can, and a missing uniform only if it is one
    /// of the six that the renderer resolves.
    pub open spec fn arises_in_construction(self) -> bool {
        self matches RenderError::UniformResolutionError { name } ==> exists|slot: UniformSlot|
            name@ == #[trigger] slot.name_text()
    }

    /// The text of this error as a sequence of characters.
    pub open spec fn message_text(self) -> Seq<char> {
        match self {
            RenderError::BufferAllocationError { object } => object.refusal_text(),
            RenderError::ShaderCompileError { stage, log } => log@,
            RenderError::ProgramLinkError { log } => log@,
            RenderError::UniformResolutionError { name } => "Couldn't get uniform location for "@
                + name@,
        }
    }

    /// The text of this error, as it is handed to the host page.
    pub fn message(&self) -> (text: String)
        ensures
            text@ == self.message_text(),
    {
        match self {
            RenderError::BufferAllocationError { object } => match object {
                GeometryObject::VertexBuffer => "Couldn't create buffer".to_owned(),
                GeometryObject::VertexArray => "Could not create vertex array object".to_owned(),
            },
            RenderError::ShaderCompileError { stage, log } => log.clone(),
            RenderError::ProgramLinkError { log } => log.clone(),
            RenderError::UniformResolutionError { name } => {
                "Couldn't get uniform location for ".to_owned().concat(name.as_str())
            },
        }
    }
}

} // verus!
