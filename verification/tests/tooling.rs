use omni_compiler::lsp_incr_db::SimpleLspDb;
use omni_compiler::codegen_rust::compile_and_run;
use omni_compiler::control_flow::returns_a_value;
use omni_compiler::doc_gen::{generate_html, DocItem};
use omni_compiler::interpreter::checked_index;
use omni_compiler::llvm_detect::{get_llvm_version, is_llvm_available, LlvConfig};
use omni_compiler::lsp::{
    char_pos_to_byte_index, classify_header_line, completion_kind_to_lsp_kind, definition_uri, uri_to_path, CompletionKind,
    HeaderLine,
};
use omni_compiler::mir::MirModule;

#[test]
fn byte_index_of_a_line_and_column() {
    assert_eq!(char_pos_to_byte_index("ab\ncd", 2, 1), Some(4));
    assert_eq!(char_pos_to_byte_index("héllo", 1, 2), Some(3));
    assert_eq!(char_pos_to_byte_index("héllo", 1, 5), Some(6));
    assert_eq!(char_pos_to_byte_index("ab\ncd", 3, 0), None);
    assert_eq!(char_pos_to_byte_index("", 1, 0), Some(0));
}

#[test]
fn file_uris_become_paths() {
    assert_eq!(uri_to_path("file:///home/a.omni"), "/home/a.omni");
    assert_eq!(uri_to_path("file:///C:/src/a.omni"), "C:/src/a.omni");
    assert_eq!(uri_to_path("file://file://x"), "x");
    assert_eq!(uri_to_path("untitled:1"), "untitled:1");
}

#[test]
fn completion_kinds_map_to_protocol_numbers() {
    assert_eq!(completion_kind_to_lsp_kind(CompletionKind::Keyword), 14);
    assert_eq!(completion_kind_to_lsp_kind(CompletionKind::Function), 3);
    assert_eq!(completion_kind_to_lsp_kind(CompletionKind::Variable), 6);
    assert_eq!(completion_kind_to_lsp_kind(CompletionKind::Type), 7);
    assert_eq!(completion_kind_to_lsp_kind(CompletionKind::Field), 5);
}

const HEADER_START: &str = "<html><head><title>Omni Documentation</title><style>\n";

#[test]
fn html_docs_of_no_items() {
    let html = generate_html(&[]);
    assert!(html.starts_with(HEADER_START));
    assert!(html.ends_with("</style></head><body><h1>Omni API Documentation</h1></body></html>"));
}

#[test]
fn html_docs_escape_text() {
    let item = DocItem {
        name: "a<b".to_string(),
        kind: "Function".to_string(),
        docs: "x & 'y'".to_string(),
        signature: "fn f(x: int) -> \"s\"".to_string(),
        effects: vec!["io".to_string()],
    };
    let html = generate_html(&[item]);
    assert!(html.ends_with(
        "<h1>Omni API Documentation</h1><div class=\"item\"><h2>a&lt;b <span style=\"font-size: 0.6em; color: #666;\">(Function)</span></h2><div class=\"signature\">fn f(x: int) -&gt; &quot;s&quot;</div><div style=\"margin-top: 10px;\"><strong>Effects:</strong><span class=\"effect\">io</span></div><p>x &amp; &#39;y&#39;</p></div></body></html>"
    ));
    let plain = DocItem {
        name: "S".to_string(),
        kind: "Struct".to_string(),
        docs: String::new(),
        signature: "struct S".to_string(),
        effects: vec![],
    };
    assert!(generate_html(&[plain]).ends_with("<div class=\"signature\">struct S</div></div></body></html>"));
}

#[test]
fn interpreter_indices_must_fit() {
    assert_eq!(checked_index(3, "index").unwrap(), 3);
    assert_eq!(
        checked_index(-1, "slice").unwrap_err(),
        "slice: index/length must be non-negative and representable"
    );
}

#[test]
fn unit_like_return_types_return_nothing() {
    assert!(returns_a_value(&Some("int".to_string())));
    assert!(!returns_a_value(&Some(" void ".to_string())));
    assert!(!returns_a_value(&Some("()".to_string())));
    assert!(!returns_a_value(&Some("unit".to_string())));
    assert!(!returns_a_value(&None));
}

#[test]
fn llvm_version_is_reported() {
    let found = Some(LlvConfig { version: "14.0".to_string(), prefix: None, inkwell_available: true });
    assert!(is_llvm_available(&found));
    assert_eq!(get_llvm_version(found), "14.0");
    assert!(!is_llvm_available(&None));
    assert_eq!(get_llvm_version(None), "not found");
}

#[test]
fn rust_backend_refuses_to_run() {
    let module = MirModule { instructions: vec![] };
    assert_eq!(
        compile_and_run(&module).unwrap_err(),
        "Rust translation execution is not qualified in Omni v0.1.4; canonical execution uses the owned native AOT backend"
    );
}

#[test]
fn lsp_store_keeps_latest_text() {
    let mut db = SimpleLspDb::new();
    assert!(db.file_text("a.omni").is_none());
    db.set_file_text("a.omni", "let x = 1");
    db.set_file_text("a.omni", "let x = 2");
    assert_eq!(db.file_text("a.omni").unwrap(), "let x = 2");
    assert!(db.file_text("b.omni").is_none());
}

#[test]
fn protocol_header_lines() {
    assert_eq!(classify_header_line("\r\n"), HeaderLine::End);
    assert_eq!(classify_header_line(""), HeaderLine::End);
    assert_eq!(classify_header_line("Content-Length: 42\r\n"), HeaderLine::ContentLength(42));
    assert_eq!(classify_header_line("content-LENGTH:+7"), HeaderLine::ContentLength(7));
    assert_eq!(classify_header_line("Content-Length: -1"), HeaderLine::Other);
    assert_eq!(classify_header_line("Content-Length: 99999999999999999999999"), HeaderLine::Other);
    assert_eq!(classify_header_line("Content-Type: 12"), HeaderLine::Other);
    assert_eq!(classify_header_line("no colon here"), HeaderLine::Other);
}

#[test]
fn definition_locations_become_uris() {
    assert_eq!(definition_uri("/src/a.omni"), "file:///src/a.omni");
    assert_eq!(definition_uri("C:/src/a.omni"), "file://C:/src/a.omni");
    assert_eq!(definition_uri("a.omni"), "a.omni");
}
