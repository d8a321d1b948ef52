use glgen::parse::{parse_api, ParseError};

const DRAW_ELEMENTS: &str = "GLAPI void APIENTRY glDrawElements (GLenum mode, GLsizei count, GLenum type, const void *indices);";

#[test]
fn parses_draw_elements() {
    let p = parse_api(DRAW_ELEMENTS).unwrap();
    assert_eq!(p.return_type, "void");
    assert_eq!(p.native_name, "glDrawElements");
    assert_eq!(p.wrapper_name, "drawElements");
    assert_eq!(
        p.parameters,
        vec!["GLenum mode", "GLsizei count", "GLenum type", "const void *indices"]
    );
    assert_eq!(p.parameter_names, vec!["mode", "count", "type", "indices"]);
}

#[test]
fn parsing_is_stable_under_repetition() {
    let a = parse_api(DRAW_ELEMENTS).unwrap();
    let b = parse_api(DRAW_ELEMENTS).unwrap();
    assert_eq!(a.return_type, b.return_type);
    assert_eq!(a.native_name, b.native_name);
    assert_eq!(a.wrapper_name, b.wrapper_name);
    assert_eq!(a.parameters, b.parameters);
    assert_eq!(a.parameter_names, b.parameter_names);
}

#[test]
fn pointer_return_type_keeps_sigil() {
    let p = parse_api("GLAPI void *APIENTRY glMapBuffer (GLenum target, GLenum access);").unwrap();
    assert_eq!(p.return_type, "void*");
    assert_eq!(p.native_name, "glMapBuffer");
    assert_eq!(p.wrapper_name, "mapBuffer");
}

#[test]
fn zero_parameter_prototype() {
    let p = parse_api("GLAPI void APIENTRY glEndTransformFeedback (void);").unwrap();
    assert_eq!(p.parameters, vec!["void"]);
    assert!(p.parameter_names.is_empty());
}

#[test]
fn wrapper_name_strips_prefix_and_lowercases() {
    let p = parse_api("GLAPI void APIENTRY glXyz (void);").unwrap();
    assert_eq!(p.native_name, "glXyz");
    assert_eq!(p.wrapper_name, "xyz");
}

#[test]
fn multi_level_pointer_declarator_name() {
    let p = parse_api(
        "GLAPI void APIENTRY glShaderSource (GLuint shader, const GLchar *const*string);",
    )
    .unwrap();
    assert_eq!(p.parameter_names, vec!["shader", "string"]);
    for name in &p.parameter_names {
        assert!(!name.contains(' '));
        assert!(!name.contains('*'));
    }
}

#[test]
fn parameter_count_matches_non_void_entries() {
    let p = parse_api(DRAW_ELEMENTS).unwrap();
    let non_void = p.parameters.iter().filter(|q| q.as_str() != "void").count();
    assert_eq!(p.parameter_names.len(), non_void);
}

#[test]
fn parameters_survive_extra_blanks() {
    let p = parse_api("GLAPI void APIENTRY glFoo ( GLenum a ,  GLint b );").unwrap();
    assert_eq!(p.parameters, vec!["GLenum a", "GLint b"]);
    assert_eq!(p.parameter_names, vec!["a", "b"]);
}

#[test]
fn missing_token_is_rejected() {
    assert!(matches!(parse_api("xyz"), Err(ParseError::MissingToken)));
}

#[test]
fn missing_call_prefix_is_rejected() {
    assert!(matches!(parse_api("GLAPI void APIENTRY foo (void);"), Err(ParseError::MissingCallPrefix)));
}

#[test]
fn missing_parens_are_rejected() {
    assert!(matches!(parse_api("GLAPI void APIENTRY glFoo void;"), Err(ParseError::UnmatchedParens)));
}

#[test]
fn reversed_parens_are_rejected() {
    assert!(matches!(parse_api("GLAPI void APIENTRY glFoo )void(;"), Err(ParseError::UnmatchedParens)));
}

#[test]
fn too_short_name_is_rejected() {
    assert!(matches!(parse_api("GLAPI void APIENTRY gl (void);"), Err(ParseError::ShortName)));
}

#[test]
fn blank_free_non_marker_parameter_is_rejected() {
    assert!(matches!(parse_api("GLAPI void APIENTRY glFoo (int);"), Err(ParseError::BadParameter)));
}
