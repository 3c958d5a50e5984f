//! Compilation of one shader stage.
//!
//! A [`Shader`] owns one compiled-stage handle from successful compilation
//! until the stage is consumed by linking (which takes it by value) or
//! destroyed.  Compilation succeeds exactly when the model compiler accepts
//! the source; on failure the compiler's diagnostic comes back verbatim and
//! the context is left exactly as it was, so a rejected compile leaks
//! nothing.

use vstd::prelude::*;

use crate::context::{allocates, releases, Context};
use crate::glsl::{
    compile_log, inputs_of, outputs_of, parse_source, source_wf, statements, uniforms_of,
    GlslType, StageInterface,
};
use crate::text::chars_of;

verus! {

/// The kinds of shader stage the model driver compiles.
#[derive(Clone, Copy, PartialEq, Eq, Structural, Debug)]
pub enum StageKind {
    Vertex,
    Fragment,
}

/// Shader source the compiler rejected; `log` is the compiler's diagnostic,
/// never empty.
#[derive(Debug)]
pub struct CompileError {
    pub log: Vec<char>,
}

/// One compiled shader stage.
#[derive(Debug)]
pub struct Shader {
    handle: u32,
    kind: StageKind,
    interface: StageInterface,
}

impl Shader {
    /// The compiled-stage handle this wrapper owns.
    pub closed spec fn spec_handle(&self) -> u32 {
        self.handle
    }

    /// The stage kind the source was compiled against.
    pub closed spec fn spec_kind(&self) -> StageKind {
        self.kind
    }

    /// The stage's input declarations, in declaration order.
    pub closed spec fn spec_inputs(&self) -> Seq<(GlslType, Seq<char>)> {
        crate::glsl::decls_view(self.interface.inputs@)
    }

    /// The stage's output declarations, in declaration order.
    pub closed spec fn spec_outputs(&self) -> Seq<(GlslType, Seq<char>)> {
        crate::glsl::decls_view(self.interface.outputs@)
    }

    /// The stage's uniform declarations, in declaration order.
    pub closed spec fn spec_uniforms(&self) -> Seq<(GlslType, Seq<char>)> {
        crate::glsl::decls_view(self.interface.uniforms@)
    }

    /// A stage is usable only between successful compilation and its
    /// consumption or destruction: exactly while its handle is live.
    pub open spec fn wf(&self, ctx: Context) -> bool {
        ctx.is_live(self.spec_handle())
    }

    /// Compiles one stage from source text against a stage kind.
    ///
    /// Succeeds if and only if the source is well-formed; the new stage owns
    /// a fresh live handle and carries the source's interface.  On failure
    /// the diagnostic is returned and the context is unchanged: the
    /// partially created stage object does not outlive the failure.
    pub fn new(ctx: &mut Context, source: &str, kind: StageKind) -> (r: Result<
        Shader,
        CompileError,
    >)
        requires
            old(ctx).wf(),
            old(ctx).can_alloc(),
        ensures
            final(ctx).wf(),
            r is Ok <==> source_wf(source@),
            r matches Ok(sh) ==> {
                &&& allocates(*old(ctx), *final(ctx), sh.spec_handle())
                &&& sh.wf(*final(ctx))
                &&& sh.spec_kind() == kind
                &&& sh.spec_inputs() == inputs_of(statements(source@))
                &&& sh.spec_outputs() == outputs_of(statements(source@))
                &&& sh.spec_uniforms() == uniforms_of(statements(source@))
            },
            r matches Err(e) ==> {
                &&& *final(ctx) == *old(ctx)
                &&& e.log@ == compile_log(source@)
                &&& e.log@.len() >= 1
            },
    {
        let chars = chars_of(source);
        match parse_source(&chars) {
            Ok(interface) => {
                let handle = ctx.allocate();
                Ok(Shader { handle, kind, interface })
            },
            Err(log) => Err(CompileError { log }),
        }
    }

    /// The stage's input declarations, in declaration order.
    pub fn inputs(&self) -> (r: &Vec<crate::glsl::VarDecl>)
        ensures
            crate::glsl::decls_view(r@) == self.spec_inputs(),
    {
        &self.interface.inputs
    }

    /// The stage's output declarations, in declaration order.
    pub fn outputs(&self) -> (r: &Vec<crate::glsl::VarDecl>)
        ensures
            crate::glsl::decls_view(r@) == self.spec_outputs(),
    {
        &self.interface.outputs
    }

    /// The stage's uniform declarations, in declaration order.
    pub fn uniforms(&self) -> (r: &Vec<crate::glsl::VarDecl>)
        ensures
            crate::glsl::decls_view(r@) == self.spec_uniforms(),
    {
        &self.interface.uniforms
    }

    /// The stage's handle, as the driver names it.
    pub fn id(&self) -> (r: u32)
        ensures
            r == self.spec_handle(),
    {
        self.handle
    }

    /// The stage kind this shader was compiled against.
    pub fn kind(&self) -> (r: StageKind)
        ensures
            r == self.spec_kind(),
    {
        self.kind
    }

    /// Destroys an unconsumed stage, releasing its handle exactly once.
    pub fn destroy(self, ctx: &mut Context)
        requires
            old(ctx).wf(),
            self.wf(*old(ctx)),
        ensures
            final(ctx).wf(),
            releases(*old(ctx), *final(ctx), self.spec_handle()),
    {
        ctx.release(self.handle);
    }
}

} // verus!
