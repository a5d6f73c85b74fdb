use autograph::assemble::{MalformedMacro, PreprocessedShaders};
use autograph::driver::{Action, Preprocessor};
use autograph::types::{ComponentType, PipelineStages, PrimitiveTopology, VertexAttribute};

struct Outcome {
    stages: PipelineStages,
    shaders: PreprocessedShaders,
    body: String,
    sources: Vec<String>,
    errors: u64,
    warnings: u64,
}

fn nested(path: &str) -> String {
    format!("#{}clude \"{}\"", "in", path)
}

fn dir_of(p: &str) -> String {
    match p.rfind('/') {
        Some(i) => p[..i + 1].to_string(),
        None => String::new(),
    }
}

/// Runs the preprocessor over an in-memory set of files.
fn scan(path: &str, source: &str, files: &[(&str, &str)]) -> Preprocessor {
    let mut pp = Preprocessor::new(path, source);
    loop {
        match pp.advance() {
            Action::Done => break,
            Action::Load { from, path } => {
                let full = format!("{}{}", dir_of(pp.source_path(from)), path);
                match files.iter().find(|(p, _)| *p == full) {
                    Some((p, text)) => pp.enter(p, text),
                    None => pp.skip(),
                }
            }
        }
    }
    pp
}

fn run(path: &str, source: &str, files: &[(&str, &str)], macros: &[&str]) -> Result<Outcome, MalformedMacro> {
    let pp = scan(path, source, files);
    let body = pp.body();
    let sources = (0..pp.source_count()).map(|i| pp.source_path(i).clone()).collect();
    let errors = pp.errors();
    let warnings = pp.warnings();
    let (stages, shaders) = pp.finish(macros)?;
    Ok(Outcome { stages, shaders, body, sources, errors, warnings })
}

fn slots(s: &PreprocessedShaders) -> Vec<&Option<String>> {
    vec![&s.vertex, &s.fragment, &s.geometry, &s.tess_control, &s.tess_eval, &s.compute]
}

#[test]
fn minimal_vertex_fragment() {
    let src = "#version 450\n#pragma stages(vertex, fragment)\nvoid main() {}\n";
    let o = run("shaders/main.glsl", src, &[], &[]).unwrap();
    assert!(o.stages.vertex && o.stages.fragment);
    assert!(!o.stages.geometry && !o.stages.tess_control && !o.stages.tess_eval && !o.stages.compute);
    assert_eq!(
        o.shaders.vertex.as_deref(),
        Some("#version 450\n#define _VERTEX_\n#line 0 0\n#line 3 0\nvoid main() {}\n")
    );
    assert_eq!(
        o.shaders.fragment.as_deref(),
        Some("#version 450\n#define _FRAGMENT_\n#line 0 0\n#line 3 0\nvoid main() {}\n")
    );
    assert!(o.shaders.geometry.is_none());
    assert_eq!(o.errors, 0);
}

#[test]
fn nested_file_and_line_marker() {
    let src = format!("#version 330\n{}\nvoid main(){{}}\n", nested("b.glsl"));
    let files = [("dir/b.glsl", "float helper(){return 1.0;}")];
    let o = run("dir/a.glsl", &src, &files, &[]).unwrap();
    assert_eq!(o.sources, vec!["dir/a.glsl".to_string(), "dir/b.glsl".to_string()]);
    assert_eq!(o.body, "float helper(){return 1.0;}\n#line 3 0\nvoid main(){}\n");
    assert_eq!(o.errors, 0);
}

#[test]
fn input_layout_attributes() {
    let src = "#pragma input_layout(rgba32f, 0, 0, rg16_snorm, 1, 16)\n";
    let o = run("a.glsl", src, &[], &[]).unwrap();
    assert_eq!(
        o.shaders.input_layout,
        Some(vec![
            VertexAttribute { ty: ComponentType::Float, size: 4, normalized: false, slot: 0, relative_offset: 0 },
            VertexAttribute { ty: ComponentType::Short, size: 2, normalized: true, slot: 1, relative_offset: 16 },
        ])
    );
}

#[test]
fn duplicate_topology() {
    let src = "#pragma primitive_topology(triangle)\n#pragma primitive_topology(triangle)\n";
    let o = run("a.glsl", src, &[], &[]).unwrap();
    assert_eq!(o.shaders.primitive_topology, Some(PrimitiveTopology::Triangles));
    assert!(o.errors >= 1);
}

#[test]
fn version_mismatch() {
    let src = format!("#version 330\n{}\n#pragma stages(compute)\n", nested("b.glsl"));
    let files = [("b.glsl", "#version 450\n")];
    let o = run("a.glsl", &src, &files, &[]).unwrap();
    assert!(o.shaders.compute.as_deref().unwrap().starts_with("#version 450\n"));
    assert!(o.warnings >= 1);
}

#[test]
fn malformed_macro_is_fatal() {
    let r = run("a.glsl", "#pragma stages(vertex)\n", &[], &["GOOD", "bad-macro"]);
    assert_eq!(r.err(), Some(MalformedMacro { index: 1 }));
    let r = run("a.glsl", "#pragma stages(vertex)\n", &[], &["=x"]);
    assert_eq!(r.err(), Some(MalformedMacro { index: 0 }));
}

#[test]
fn macro_definitions_in_prologue() {
    let o = run("a.glsl", "#pragma stages(vertex)\nx\n", &[], &["A", "B=2", "C="]).unwrap();
    assert_eq!(
        o.shaders.vertex.as_deref(),
        Some("#version 330\n#define A\n#define B 2\n#define C \n#define _VERTEX_\n#line 0 0\n#line 2 0\nx\n")
    );
}

#[test]
fn line_markers_name_the_current_file() {
    let src = format!("{}\nroot line\n", nested("b.glsl"));
    let files = [("b.glsl", "#pragma stages(vertex)\ninner line\n")];
    let o = run("a.glsl", &src, &files, &[]).unwrap();
    assert_eq!(o.body, "#line 2 1\ninner line\n#line 2 0\nroot line\n");
    assert_eq!(o.sources.len(), 2);
}

#[test]
fn default_version_when_none_declared() {
    let o = run("a.glsl", "#pragma stages(vertex, geometry, compute)\nvoid main(){}\n", &[], &["X=1"]).unwrap();
    for s in slots(&o.shaders).into_iter().flatten() {
        assert!(s.starts_with("#version 330\n"));
    }
}

#[test]
fn filled_slots_match_stage_count() {
    let src = "#pragma stages(vertex, tess_control, tess_eval)\n#pragma stages(vertex)\n";
    let o = run("a.glsl", src, &[], &[]).unwrap();
    let filled = slots(&o.shaders).iter().filter(|s| s.is_some()).count();
    let st = o.stages;
    let count = [st.vertex, st.fragment, st.geometry, st.tess_control, st.tess_eval, st.compute]
        .iter()
        .filter(|b| **b)
        .count();
    assert_eq!(filled, 3);
    assert_eq!(count, 3);
}

#[test]
fn layout_keeps_textual_order() {
    let src = "#pragma input_layout(r32f, 3, 8, rgba8_unorm, 0, 0, rgba8_snorm, 2, 4)\n";
    let o = run("a.glsl", src, &[], &[]).unwrap();
    let l = o.shaders.input_layout.unwrap();
    assert_eq!(l.iter().map(|a| a.slot).collect::<Vec<_>>(), vec![3, 0, 2]);
    assert_eq!(l[1].ty, ComponentType::UnsignedByte);
    assert_eq!(l[2].ty, ComponentType::Byte);
}

#[test]
fn plain_source_passes_through() {
    let src = "// a comment\n\n   \n/* block */\n";
    let o = run("dir/a.glsl", src, &[], &[]).unwrap();
    assert_eq!(o.body, src);
    assert_eq!(o.stages, PipelineStages::empty());
    assert!(o.shaders.input_layout.is_none());
    assert!(o.shaders.primitive_topology.is_none());
    assert!(slots(&o.shaders).iter().all(|s| s.is_none()));
    assert_eq!(o.errors, 0);
}

#[test]
fn same_inputs_same_variants() {
    let src = "#version 410\n#pragma stages(vertex, fragment)\nint x;\n";
    let a = run("a.glsl", src, &[], &["Q"]).unwrap();
    let b = run("a.glsl", src, &[], &["Q"]).unwrap();
    assert_eq!(a.shaders.vertex, b.shaders.vertex);
    assert_eq!(a.shaders.fragment, b.shaders.fragment);
}

#[test]
fn missing_nested_file_is_an_error() {
    let src = format!("{}\nx\n", nested("nope.glsl"));
    let o = run("a.glsl", &src, &[], &[]).unwrap();
    assert_eq!(o.errors, 1);
    assert_eq!(o.sources.len(), 1);
    assert_eq!(o.body, "#line 2 0\nx\n");
}

#[test]
fn version_that_does_not_fit_is_an_error() {
    let o = run("a.glsl", "#version 99999999999\n#pragma stages(vertex)\n", &[], &[]).unwrap();
    assert_eq!(o.errors, 1);
    assert!(o.shaders.vertex.unwrap().starts_with("#version 330\n"));
}

#[test]
fn unknown_stage_is_skipped() {
    let o = run("a.glsl", "#pragma stages(vertex, pixel, compute)\n", &[], &[]).unwrap();
    assert_eq!(o.errors, 1);
    assert!(o.stages.vertex && o.stages.compute);
}

#[test]
fn layout_errors_discard_the_directive() {
    let o = run("a.glsl", "#pragma input_layout(rgba32f, 0)\n", &[], &[]).unwrap();
    assert_eq!(o.errors, 1);
    assert!(o.shaders.input_layout.is_none());
    let o = run("a.glsl", "#pragma input_layout(rgba64f, 0, 0)\n", &[], &[]).unwrap();
    assert_eq!(o.errors, 1);
    assert!(o.shaders.input_layout.is_none());
    let o = run("a.glsl", "#pragma input_layout(r32f, 0, x)\n", &[], &[]).unwrap();
    assert_eq!(o.errors, 1);
}

#[test]
fn duplicate_layout_keeps_the_first() {
    let src = "#pragma input_layout(r32f, 0, 0)\n#pragma input_layout(rg32f, 1, 4)\n";
    let o = run("a.glsl", src, &[], &[]).unwrap();
    assert_eq!(o.errors, 1);
    assert_eq!(o.shaders.input_layout.unwrap()[0].size, 1);
}

#[test]
fn unknown_topology_and_malformed_pragma() {
    let o = run("a.glsl", "#pragma primitive_topology(point)\n#pragma once\n", &[], &[]).unwrap();
    assert_eq!(o.errors, 2);
    assert!(o.shaders.primitive_topology.is_none());
    let o = run("a.glsl", "  #pragma   primitive_topology ( line )  \n", &[], &[]).unwrap();
    assert_eq!(o.shaders.primitive_topology, Some(PrimitiveTopology::Lines));
    assert_eq!(o.errors, 0);
}

#[test]
fn crlf_lines_and_trailing_line() {
    let o = run("a.glsl", "#version 300\r\na\r\nb", &[], &[]).unwrap();
    assert_eq!(o.body, "#line 2 0\na\nb\n");
    assert_eq!(o.errors, 0);
}

#[test]
fn non_directive_hash_lines_are_text() {
    let src = "#define FOO 1\n#versionx 3\n#pragma\n";
    let o = run("a.glsl", src, &[], &[]).unwrap();
    assert_eq!(o.body, "#define FOO 1\n#versionx 3\n#pragma\n");
    assert_eq!(o.errors, 0);
}
