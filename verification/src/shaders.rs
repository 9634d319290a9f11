//! The two source files of a shader.
use vstd::prelude::*;

verus! {

/// The sources of a shader: its vertex and its pixel (fragment) program.
#[derive(Debug, PartialEq, Eq)]
pub struct ShaderFile {
    pub vertex: String,
    pub pixel: String,
}

/// One of the two programs of a shader.
#[derive(Debug, PartialEq, Eq, Ord, PartialOrd, Clone, Copy, Hash, Structural)]
pub enum ShaderKind {
    Vertex,
    Frag,
}

/// `yy_typings::shader::Shader::VERT_FILE_ENDING`: the file ending of a vertex program, `vsh`.
#[verifier::external_body]
fn vert_file_ending() -> (r: &'static str)
    ensures
        r@ == "vsh"@,
{
    yy_typings::shader::Shader::VERT_FILE_ENDING
}

/// `yy_typings::shader::Shader::FRAG_FILE_ENDING`: the file ending of a fragment program, `fsh`.
#[verifier::external_body]
fn frag_file_ending() -> (r: &'static str)
    ensures
        r@ == "fsh"@,
{
    yy_typings::shader::Shader::FRAG_FILE_ENDING
}

impl ShaderKind {
    /// The file ending of this program's source file: `vsh` for the vertex
    /// program, `fsh` for the fragment program.
    pub fn file_ending(&self) -> (r: &'static str)
        ensures
            r@ == (match self {
                ShaderKind::Vertex => "vsh"@,
                ShaderKind::Frag => "fsh"@,
            }),
    {
        match self {
            ShaderKind::Vertex => vert_file_ending(),
            ShaderKind::Frag => frag_file_ending(),
        }
    }

    /// Both kinds, vertex first.
    pub fn iter() -> (r: Vec<ShaderKind>)
        ensures
            r@ == seq![ShaderKind::Vertex, ShaderKind::Frag],
    {
        vec![ShaderKind::Vertex, ShaderKind::Frag]
    }
}

impl ShaderFile {
    /// The source of the given program.
    pub fn source(&self, kind: ShaderKind) -> (r: &String)
        ensures
            *r == (match kind {
                ShaderKind::Vertex => self.vertex,
                ShaderKind::Frag => self.pixel,
            }),
    {
        match kind {
            ShaderKind::Vertex => &self.vertex,
            ShaderKind::Frag => &self.pixel,
        }
    }

    /// Replaces the source of the given program, leaving the other.
    pub fn set_source(&mut self, kind: ShaderKind, text: String)
        ensures
            final(self).vertex == (match kind {
                ShaderKind::Vertex => text,
                ShaderKind::Frag => old(self).vertex,
            }),
            final(self).pixel == (match kind {
                ShaderKind::Vertex => old(self).pixel,
                ShaderKind::Frag => text,
            }),
    {
        match kind {
            ShaderKind::Vertex => self.vertex = text,
            ShaderKind::Frag => self.pixel = text,
        }
    }
}

} // verus!
