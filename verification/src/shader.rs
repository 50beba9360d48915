use vstd::prelude::*;

verus! {

/// The pipeline stage a shader runs at.
#[derive(Hash, Eq, PartialEq, Copy, Clone, Debug, Structural)]
pub enum ShaderStage {
    Vertex,
    Fragment,
    Compute,
}

/// Shader code: portable SPIR-V words ready for the pipeline, or GLSL
/// source text still awaiting compilation.
#[derive(Clone, Debug, Hash, Eq, PartialEq)]
pub enum ShaderSource {
    Spirv(Vec<u32>),
    Glsl(String),
}

/// One shader of the render pipeline: its code and the stage it serves.
#[derive(Clone, Debug)]
pub struct Shader {
    pub source: ShaderSource,
    pub stage: ShaderStage,
}

impl Shader {
    /// Wrap GLSL source text as a shader for the given stage.
    pub fn from_glsl(stage: ShaderStage, glsl: &str) -> (s: Shader)
        ensures
            s.stage == stage,
            s.source matches ShaderSource::Glsl(g) && g@ == glsl@,
    {
        Shader { source: ShaderSource::Glsl(glsl.to_owned()), stage }
    }

    /// The SPIR-V words of this shader, for one that already carries them.
    ///
    /// Turning the GLSL form into SPIR-V takes the platform shader
    /// compiler, which is not part of this library: for a GLSL shader the
    /// caller gets nothing back and hands the source text to the compiler
    /// around the library, together with the macro definitions, which only
    /// matter to that compiler.
    pub fn get_spirv(&self, _macros: Option<&[String]>) -> (r: Option<Vec<u32>>)
        ensures
            match self.source {
                ShaderSource::Spirv(b) => r matches Some(v) && v@ == b@,
                ShaderSource::Glsl(_) => r is None,
            },
    {
        match &self.source {
            ShaderSource::Spirv(words) => {
                let copy = words.clone();
                proof {
                    assert(copy@ =~= words@);
                }
                Some(copy)
            },
            ShaderSource::Glsl(_) => None,
        }
    }

    /// This shader with its code in SPIR-V form, for one that already
    /// carries SPIR-V; a GLSL shader first goes through the external
    /// compiler, as `get_spirv` describes.
    pub fn get_spirv_shader(&self, macros: Option<&[String]>) -> (r: Option<Shader>)
        ensures
            match self.source {
                ShaderSource::Spirv(b) => r matches Some(s) && s.stage == self.stage && (
                s.source matches ShaderSource::Spirv(v) && v@ == b@),
                ShaderSource::Glsl(_) => r is None,
            },
    {
        match self.get_spirv(macros) {
            Some(words) => Some(Shader { source: ShaderSource::Spirv(words), stage: self.stage }),
            None => None,
        }
    }
}

} // verus!
