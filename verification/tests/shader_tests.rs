use nodes::{parse_uniforms, split_with_index, DynValue, NodeInput, NodeOutput, One, ShaderNode, Uniform, UniformType};

const WITH_UNIFORM_ARRAY: &str = r#"
#ifdef VERTEX
vec4 pos(mat4 transform_projection, vec4 vertex_position) {
    return transform_projection * vertex_position;
}
#endif

#ifdef FRAGMENT
uniform vec4 unf1[10];
uniform mat3 unf2  [11];
uniform int unf3 ;

vec4 effect(vec4 color, Image texture, vec2 texture_coords, vec2 screen_coords) {
    return color;
}
#endif
"#;

#[test]
fn split_with_index_test() {
    let t = "this is   a test";
    let toks = split_with_index(t);
    assert_eq!(toks[0], (String::from("this"), 4));
    assert_eq!(toks[1], (String::from("is"), 7));
    assert_eq!(toks[2], (String::from(""), 8));
    assert_eq!(toks[3], (String::from(""), 9));
    assert_eq!(toks[4], (String::from("a"), 11));
    assert_eq!(toks[5], (String::from("test"), 16));
    assert_eq!(toks.len(), 6);
}

#[test]
fn parse_uniforms_test() {
    let uniforms = parse_uniforms(WITH_UNIFORM_ARRAY);
    assert_eq!(
        uniforms,
        vec![
            Uniform {
                name: String::from("unf1"),
                ty: UniformType::Vec4,
                array_size: Some(10)
            },
            Uniform {
                name: String::from("unf2"),
                ty: UniformType::Mat3,
                array_size: Some(11)
            },
            Uniform {
                name: String::from("unf3"),
                ty: UniformType::SignedInt,
                array_size: None
            }
        ]
    );
}

#[test]
fn uniform_without_array_size() {
    let uniforms = parse_uniforms("uniform vec4 color;\n");
    assert_eq!(uniforms.len(), 1);
    assert_eq!(uniforms[0].name, "color");
    assert_eq!(uniforms[0].ty, UniformType::Vec4);
    assert_eq!(uniforms[0].array_size, None);
}

#[test]
fn non_uniform_lines_are_ignored() {
    assert_eq!(parse_uniforms("vec4 color;\nfloat x;\n").len(), 0);
    assert_eq!(parse_uniforms("uniform banana color;\n").len(), 0);
}

#[test]
fn oversized_array_size_is_rejected() {
    let uniforms = parse_uniforms("uniform vec2 big[99999999999999999999999999999];\n");
    assert_eq!(uniforms.len(), 1);
    assert_eq!(uniforms[0].array_size, None);
}

const WITH_UNIFORM: &str = r#"
#ifdef VERTEX
vec4 pos(mat4 transform_projection, vec4 vertex_position) {
    return transform_projection * vertex_position;
}
#endif

#ifdef FRAGMENT
uniform vec4 color;

vec4 effect(vec4 color, Image texture, vec2 texture_coords, vec2 screen_coords) {
    return color;
}
#endif
"#;

const WITHOUT_UNIFORM: &str = r#"
#ifdef VERTEX
vec4 pos(mat4 transform_projection, vec4 vertex_position) {
    return transform_projection * vertex_position;
}
#endif

#ifdef FRAGMENT
vec4 effect(vec4 color, Image texture, vec2 texture_coords, vec2 screen_coords) {
    return Texel(texture, texture_coords) * color;
}
#endif
"#;

#[test]
fn shader_inputs() {
    let mut shader_node = ShaderNode::new();

    let input_info = shader_node.inputs();
    assert_eq!(input_info.groups.len(), 1);
    assert_eq!(input_info.groups[0].info.len(), 1);
    assert_eq!(input_info.groups[0].info[0].name, "shader text");

    let mut inputs: Vec<DynValue> = vec![];
    inputs.push(DynValue::OneText(One::new(WITH_UNIFORM.to_owned())));
    let output = shader_node.op(&mut inputs);
    assert!(output.is_ok());

    let input_info = shader_node.inputs();
    assert_eq!(input_info.groups.len(), 1);
    assert_eq!(input_info.groups[0].info.len(), 2);
    assert_eq!(input_info.groups[0].info[0].name, "shader text");
    assert_eq!(input_info.groups[0].info[1].name, "color");

    inputs.push(DynValue::OneText(One::new(WITHOUT_UNIFORM.to_owned())));
    let output = shader_node.op(&mut inputs);
    assert!(output.is_ok());

    let input_info = shader_node.inputs();
    assert_eq!(input_info.groups.len(), 1);
    assert_eq!(input_info.groups[0].info.len(), 1);
    assert_eq!(input_info.groups[0].info[0].name, "shader text");
}

#[test]
fn shader_consumes_signed_uniform() {
    let mut shader_node = ShaderNode::new();
    let mut inputs: Vec<DynValue> = vec![
        DynValue::OneText(One::new("uniform int level;\n".to_owned())),
        DynValue::OneS(One::new(42i64)),
    ];
    let out = shader_node.op(&mut inputs).unwrap();
    match out {
        DynValue::Shader(sd) => {
            assert_eq!(sd.source, "uniform int level;\n");
            assert_eq!(sd.uniforms, vec![(String::from("level"), 42i64)]);
        }
        _ => panic!(),
    }
    assert!(inputs.is_empty());
}
