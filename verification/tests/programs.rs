use glcore::{AttributeNotFoundError, Context, Shader, ShaderProgram, StageKind};

fn chars(s: &str) -> Vec<char> {
    s.chars().collect()
}

const VERTEX_SRC: &str = "in vec2 position; in vec3 color; out vec3 vcolor; vcolor = color;";
const FRAGMENT_SRC: &str = "in vec3 vcolor; out vec4 frag_color; frag_color = vcolor;";

#[test]
fn pass_through_pair_links_and_resolves_attributes() {
    let mut ctx = Context::new();
    let vs = Shader::new(&mut ctx, VERTEX_SRC, StageKind::Vertex).unwrap();
    let fs = Shader::new(&mut ctx, FRAGMENT_SRC, StageKind::Fragment).unwrap();
    let program = ShaderProgram::new(&mut ctx, vec![vs, fs]).unwrap();

    let position = program.get_attrib_location("position").unwrap();
    let color = program.get_attrib_location("color").unwrap();
    assert_eq!(position, 0);
    assert_eq!(color, 1);
    assert_ne!(position, color);
    assert_eq!(
        program.get_attrib_location("normal"),
        Err(AttributeNotFoundError)
    );
}

#[test]
fn linking_consumes_every_stage_handle() {
    let mut ctx = Context::new();
    let vs = Shader::new(&mut ctx, VERTEX_SRC, StageKind::Vertex).unwrap();
    let fs = Shader::new(&mut ctx, FRAGMENT_SRC, StageKind::Fragment).unwrap();
    let vs_id = vs.id();
    let fs_id = fs.id();
    let program = ShaderProgram::new(&mut ctx, vec![vs, fs]).unwrap();
    assert!(!ctx.is_live_handle(vs_id));
    assert!(!ctx.is_live_handle(fs_id));
    assert!(ctx.is_live_handle(program.get_id()));
}

#[test]
fn mismatched_varying_name_fails_to_link() {
    let mut ctx = Context::new();
    let vs = Shader::new(&mut ctx, VERTEX_SRC, StageKind::Vertex).unwrap();
    let fs_src = "in vec3 tint; out vec4 frag_color; frag_color = tint;";
    let fs = Shader::new(&mut ctx, fs_src, StageKind::Fragment).unwrap();
    let vs_id = vs.id();
    let fs_id = fs.id();
    let err = ShaderProgram::new(&mut ctx, vec![vs, fs]).unwrap_err();
    assert!(!err.log.is_empty());
    assert_eq!(err.log, chars("unmatched fragment stage input tint"));
    assert!(!ctx.is_live_handle(vs_id));
    assert!(!ctx.is_live_handle(fs_id));
}

#[test]
fn mismatched_varying_type_fails_to_link() {
    let mut ctx = Context::new();
    let vs = Shader::new(&mut ctx, VERTEX_SRC, StageKind::Vertex).unwrap();
    let fs_src = "in vec2 vcolor; out vec4 frag_color; frag_color = vcolor;";
    let fs = Shader::new(&mut ctx, fs_src, StageKind::Fragment).unwrap();
    let err = ShaderProgram::new(&mut ctx, vec![vs, fs]).unwrap_err();
    assert_eq!(err.log, chars("unmatched fragment stage input vcolor"));
}

#[test]
fn missing_fragment_stage_fails_to_link() {
    let mut ctx = Context::new();
    let vs = Shader::new(&mut ctx, VERTEX_SRC, StageKind::Vertex).unwrap();
    let err = ShaderProgram::new(&mut ctx, vec![vs]).unwrap_err();
    assert_eq!(err.log, chars("program has no fragment stage"));
}

#[test]
fn missing_vertex_stage_fails_to_link() {
    let mut ctx = Context::new();
    let fs = Shader::new(&mut ctx, FRAGMENT_SRC, StageKind::Fragment).unwrap();
    let err = ShaderProgram::new(&mut ctx, vec![fs]).unwrap_err();
    assert_eq!(err.log, chars("program has no vertex stage"));
}

#[test]
fn duplicate_stage_kind_fails_to_link() {
    let mut ctx = Context::new();
    let a = Shader::new(&mut ctx, VERTEX_SRC, StageKind::Vertex).unwrap();
    let b = Shader::new(&mut ctx, VERTEX_SRC, StageKind::Vertex).unwrap();
    let err = ShaderProgram::new(&mut ctx, vec![a, b]).unwrap_err();
    assert_eq!(err.log, chars("duplicate shader stage kind"));
}

#[test]
fn applying_a_program_activates_it() {
    let mut ctx = Context::new();
    let vs = Shader::new(&mut ctx, VERTEX_SRC, StageKind::Vertex).unwrap();
    let fs = Shader::new(&mut ctx, FRAGMENT_SRC, StageKind::Fragment).unwrap();
    let program = ShaderProgram::new(&mut ctx, vec![vs, fs]).unwrap();
    assert_eq!(ctx.active_program(), 0);
    program.apply(&mut ctx);
    assert_eq!(ctx.active_program(), program.get_id());
}

#[test]
fn destroying_a_program_releases_its_handle() {
    let mut ctx = Context::new();
    let vs = Shader::new(&mut ctx, VERTEX_SRC, StageKind::Vertex).unwrap();
    let fs = Shader::new(&mut ctx, FRAGMENT_SRC, StageKind::Fragment).unwrap();
    let program = ShaderProgram::new(&mut ctx, vec![vs, fs]).unwrap();
    let id = program.get_id();
    program.destroy(&mut ctx);
    assert!(!ctx.is_live_handle(id));
}

#[test]
fn uniforms_resolve_across_both_stages() {
    let mut ctx = Context::new();
    let vs_src = "uniform mat4 mvp; in vec2 position; out vec2 pass; pass = position;";
    let fs_src = "uniform vec4 tint; in vec2 pass; out vec4 frag_color; frag_color = pass;";
    let vs = Shader::new(&mut ctx, vs_src, StageKind::Vertex).unwrap();
    let fs = Shader::new(&mut ctx, fs_src, StageKind::Fragment).unwrap();
    let program = ShaderProgram::new(&mut ctx, vec![vs, fs]).unwrap();
    // the vertex stage's uniforms come first in the merged table
    assert_eq!(program.get_uniform_location("mvp"), Some(0));
    assert_eq!(program.get_uniform_location("tint"), Some(1));
    assert_eq!(program.get_uniform_location("missing"), None);
}
