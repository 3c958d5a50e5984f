use glcore::{Context, Shader, StageKind};

fn chars(s: &str) -> Vec<char> {
    s.chars().collect()
}

#[test]
fn valid_vertex_source_compiles() {
    let mut ctx = Context::new();
    let src = "in vec2 position; in vec3 color; out vec3 vcolor; vcolor = color;";
    let stage = Shader::new(&mut ctx, src, StageKind::Vertex).unwrap();
    assert_eq!(stage.kind(), StageKind::Vertex);
    assert!(ctx.is_live_handle(stage.id()));
    assert_ne!(stage.id(), 0);
}

#[test]
fn valid_fragment_source_compiles() {
    let mut ctx = Context::new();
    let src = "in vec3 vcolor; out vec4 frag_color; frag_color = vcolor;";
    let stage = Shader::new(&mut ctx, src, StageKind::Fragment).unwrap();
    assert_eq!(stage.kind(), StageKind::Fragment);
    assert!(ctx.is_live_handle(stage.id()));
}

#[test]
fn whitespace_between_tokens_is_free() {
    let mut ctx = Context::new();
    let src = "  in\tvec2   position ;\n\nout vec4 p;\tp = position ;  ";
    assert!(Shader::new(&mut ctx, src, StageKind::Vertex).is_ok());
}

#[test]
fn invalid_statement_fails_with_its_text() {
    let mut ctx = Context::new();
    let src = "in vec2 position; in vec5 color;";
    let err = Shader::new(&mut ctx, src, StageKind::Vertex).unwrap_err();
    assert_eq!(err.log, chars(" in vec5 color"));
}

#[test]
fn truncated_declaration_fails_with_nonempty_log() {
    let mut ctx = Context::new();
    let err = Shader::new(&mut ctx, "in vec2;", StageKind::Vertex).unwrap_err();
    assert!(!err.log.is_empty());
    assert_eq!(err.log, chars("in vec2"));
}

#[test]
fn empty_source_fails_with_nonempty_log() {
    let mut ctx = Context::new();
    let err = Shader::new(&mut ctx, "", StageKind::Vertex).unwrap_err();
    assert_eq!(err.log, chars("shader source has no statements"));
}

#[test]
fn blank_source_fails() {
    let mut ctx = Context::new();
    let err = Shader::new(&mut ctx, " \n\t ; ; ", StageKind::Fragment).unwrap_err();
    assert!(!err.log.is_empty());
}

#[test]
fn bad_identifier_fails() {
    let mut ctx = Context::new();
    let err = Shader::new(&mut ctx, "in vec2 9lives;", StageKind::Vertex).unwrap_err();
    assert_eq!(err.log, chars("in vec2 9lives"));
}

#[test]
fn failed_compile_leaves_context_unchanged() {
    let mut ctx = Context::new();
    let keep = Shader::new(&mut ctx, "in vec2 position;", StageKind::Vertex).unwrap();
    assert!(Shader::new(&mut ctx, "broken !", StageKind::Vertex).is_err());
    assert!(ctx.is_live_handle(keep.id()));
    let next = Shader::new(&mut ctx, "in vec2 position;", StageKind::Vertex).unwrap();
    assert_ne!(next.id(), keep.id());
}

#[test]
fn destroy_releases_the_stage_handle() {
    let mut ctx = Context::new();
    let stage = Shader::new(&mut ctx, "in vec2 position;", StageKind::Vertex).unwrap();
    let id = stage.id();
    assert!(ctx.is_live_handle(id));
    stage.destroy(&mut ctx);
    assert!(!ctx.is_live_handle(id));
}
