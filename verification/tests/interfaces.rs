use glcore::{Context, GlslType, Shader, StageKind};

fn chars(s: &str) -> Vec<char> {
    s.chars().collect()
}

#[test]
fn each_type_has_its_component_count() {
    assert_eq!(GlslType::Float.components(), 1);
    assert_eq!(GlslType::Vec2.components(), 2);
    assert_eq!(GlslType::Vec3.components(), 3);
    assert_eq!(GlslType::Vec4.components(), 4);
}

#[test]
fn a_compiled_stage_carries_its_interface() {
    let mut ctx = Context::new();
    let src = "in vec2 position; in vec3 color; out vec3 vcolor; vcolor = color;";
    let stage = Shader::new(&mut ctx, src, StageKind::Vertex).unwrap();

    let inputs = stage.inputs();
    assert_eq!(inputs.len(), 2);
    assert_eq!(inputs[0].name, chars("position"));
    assert_eq!(inputs[0].ty, GlslType::Vec2);
    assert_eq!(inputs[1].name, chars("color"));
    assert_eq!(inputs[1].ty, GlslType::Vec3);

    let outputs = stage.outputs();
    assert_eq!(outputs.len(), 1);
    assert_eq!(outputs[0].name, chars("vcolor"));
    assert_eq!(outputs[0].ty, GlslType::Vec3);
}

#[test]
fn declarations_keep_their_order() {
    let mut ctx = Context::new();
    let src = "in float a; out vec4 b; in vec4 c; out float d;";
    let stage = Shader::new(&mut ctx, src, StageKind::Vertex).unwrap();
    assert_eq!(stage.inputs()[0].name, chars("a"));
    assert_eq!(stage.inputs()[1].name, chars("c"));
    assert_eq!(stage.outputs()[0].name, chars("b"));
    assert_eq!(stage.outputs()[1].name, chars("d"));
}

#[test]
fn a_stage_records_its_uniform_declarations() {
    let mut ctx = Context::new();
    let src = "uniform mat4 mvp; in vec3 position; out vec3 pass; pass = position;";
    let stage = Shader::new(&mut ctx, src, StageKind::Vertex).unwrap();
    assert_eq!(stage.uniforms().len(), 1);
    assert_eq!(stage.uniforms()[0].name, chars("mvp"));
    assert_eq!(stage.uniforms()[0].ty, GlslType::Mat4);
    assert_eq!(GlslType::Mat4.components(), 16);
}
