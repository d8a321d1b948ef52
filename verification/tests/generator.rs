use glgen::emit::{emit_packets, emit_record_functions};
use glgen::parse::parse_api;
use glgen::pipeline::{begin_marker, end_marker, generate};
use glgen::region::extract_region;

fn lines(v: &[&str]) -> Vec<String> {
    v.iter().map(|s| s.to_string()).collect()
}

const DRAW_ELEMENTS: &str = "GLAPI void APIENTRY glDrawElements (GLenum mode, GLsizei count, GLenum type, const void *indices);";

const DRAW_ELEMENTS_PACKET: &str = "struct RenderCommand_drawElements : public RenderCommandBase {\n\
\tGLenum mode;\n\
\tGLsizei count;\n\
\tGLenum type;\n\
\tconst void *indices;\n\
\n\
\tstatic void APIENTRY execute(const RenderCommand_drawElements* __restrict params) {\n\
\t\tglDrawElements(\n\
\t\t\tparams->mode,\n\
\t\t\tparams->count,\n\
\t\t\tparams->type,\n\
\t\t\tparams->indices\n\
\t\t);\n\
\t}\n\
};\n";

const UNION_ONE_ENTRY: &str = "union RenderCommandPacketUnion {\n\
public:\n\
\tPFN_EXECUTE execute;\n\
private:\n\
\tRenderCommand_drawElements drawElements;\n\
\n\
};\n";

const DRAW_ELEMENTS_RECORD: &str = "void drawElements(\n\
\tGLenum mode,\n\
\tGLsizei count,\n\
\tGLenum type,\n\
\tconst void *indices)\n\
{\n\
\tRenderCommand_drawElements* __restrict packet = (RenderCommand_drawElements*)getNextPacket();\n\
\tpacket->pfn_execute = PFN_EXECUTE(RenderCommand_drawElements::execute);\n\
\tpacket->mode = mode;\n\
\tpacket->count = count;\n\
\tpacket->type = type;\n\
\tpacket->indices = indices;\n\
}\n";

#[test]
fn extracts_only_region_lines() {
    let input = lines(&[
        "before",
        "#ifdef GL_GLEXT_PROTOTYPES",
        "inside one",
        "inside two",
        "#endif",
        "after",
    ]);
    let region = extract_region(&input, begin_marker(), end_marker());
    assert_eq!(region, vec!["inside one", "inside two"]);
}

#[test]
fn concatenates_repeated_regions() {
    let input = lines(&[
        "#ifdef GL_GLEXT_PROTOTYPES",
        "first",
        "#endif",
        "noise",
        "#ifdef GL_GLEXT_PROTOTYPES",
        "second",
        "#endif",
    ]);
    let region = extract_region(&input, begin_marker(), end_marker());
    assert_eq!(region, vec!["first", "second"]);
}

#[test]
fn truncated_region_is_kept() {
    let input = lines(&["#ifdef GL_GLEXT_PROTOTYPES", "open ended"]);
    let region = extract_region(&input, begin_marker(), end_marker());
    assert_eq!(region, vec!["open ended"]);
}

#[test]
fn empty_input_yields_empty_region() {
    let input: Vec<String> = Vec::new();
    let region = extract_region(&input, begin_marker(), end_marker());
    assert!(region.is_empty());
}

#[test]
fn generates_draw_elements_artifacts() {
    let input = lines(&[
        "#ifndef something",
        "#ifdef GL_GLEXT_PROTOTYPES",
        DRAW_ELEMENTS,
        "#endif",
        "trailing",
    ]);
    let (packets, records) = generate(&input).unwrap();
    let expected_packets = format!("{}{}", DRAW_ELEMENTS_PACKET, UNION_ONE_ENTRY);
    assert_eq!(packets, expected_packets);
    assert_eq!(records, DRAW_ELEMENTS_RECORD);
}

#[test]
fn lines_outside_region_never_reach_output() {
    let input = lines(&[
        "GLAPI void APIENTRY glOutside (void);",
        "#ifdef GL_GLEXT_PROTOTYPES",
        "GLAPI void APIENTRY glInside (void);",
        "#endif",
        "GLAPI void APIENTRY glAlsoOutside (void);",
    ]);
    let (packets, records) = generate(&input).unwrap();
    assert!(packets.contains("glInside"));
    assert!(records.contains("inside("));
    assert!(!packets.contains("glOutside"));
    assert!(!packets.contains("glAlsoOutside"));
    assert!(!records.contains("outside"));
    assert!(!records.contains("alsoOutside"));
}

#[test]
fn pipeline_is_deterministic() {
    let input = lines(&[
        "#ifdef GL_GLEXT_PROTOTYPES",
        DRAW_ELEMENTS,
        "GLAPI void *APIENTRY glMapBuffer (GLenum target, GLenum access);",
        "#endif",
    ]);
    let first = generate(&input).unwrap();
    let second = generate(&input).unwrap();
    assert_eq!(first.0, second.0);
    assert_eq!(first.1, second.1);
}

#[test]
fn first_malformed_region_line_aborts() {
    let input = lines(&[
        "#ifdef GL_GLEXT_PROTOTYPES",
        DRAW_ELEMENTS,
        "not a prototype",
        "#endif",
    ]);
    assert!(generate(&input).is_err());
}

#[test]
fn zero_parameter_packet_has_only_dispatch_and_executor() {
    let p = parse_api("GLAPI void APIENTRY glEndTransformFeedback (void);").unwrap();
    let packets = emit_packets(&vec![p]);
    let expected = "struct RenderCommand_endTransformFeedback : public RenderCommandBase {\n\
\n\
\tstatic void APIENTRY execute(const RenderCommand_endTransformFeedback* __restrict params) {\n\
\t\tglEndTransformFeedback(\n\
\t\t);\n\
\t}\n\
};\n\
union RenderCommandPacketUnion {\n\
public:\n\
\tPFN_EXECUTE execute;\n\
private:\n\
\tRenderCommand_endTransformFeedback endTransformFeedback;\n\
\n\
};\n";
    assert_eq!(packets, expected);
}

#[test]
fn nth_entries_use_the_same_wrapper_in_both_artifacts() {
    let a = parse_api("GLAPI void APIENTRY glAlpha (GLenum x);").unwrap();
    let b = parse_api("GLAPI void APIENTRY glBeta (GLint y);").unwrap();
    let protos = vec![a, b];
    let packets = emit_packets(&protos);
    let records = emit_record_functions(&protos);
    let packet_alpha = packets.find("RenderCommand_alpha").unwrap();
    let packet_beta = packets.find("RenderCommand_beta").unwrap();
    assert!(packet_alpha < packet_beta);
    let record_alpha = records.find("void alpha(").unwrap();
    let record_beta = records.find("void beta(").unwrap();
    assert!(record_alpha < record_beta);
    assert!(records.contains("\tpacket->x = x;\n"));
    assert!(records.contains("\tpacket->y = y;\n"));
    assert!(packets.contains("\t\t\tparams->x\n"));
    assert!(packets.contains("\t\t\tparams->y\n"));
}

#[test]
fn record_function_keeps_parameter_order() {
    let p = parse_api(DRAW_ELEMENTS).unwrap();
    let records = emit_record_functions(&vec![p]);
    let mode = records.find("packet->mode").unwrap();
    let count = records.find("packet->count").unwrap();
    let ty = records.find("packet->type").unwrap();
    let indices = records.find("packet->indices").unwrap();
    assert!(mode < count && count < ty && ty < indices);
}

#[test]
fn empty_record_sequence_yields_bare_union() {
    let protos: Vec<glgen::proto::ParsedPrototype> = Vec::new();
    let packets = emit_packets(&protos);
    assert_eq!(
        packets,
        "union RenderCommandPacketUnion {\npublic:\n\tPFN_EXECUTE execute;\nprivate:\n\n};\n"
    );
    let records = emit_record_functions(&protos);
    assert_eq!(records, "");
}
