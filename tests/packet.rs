use assistant_cli::packet::{build_packet, important_section, is_important_name, omitted_note};
use assistant_cli::request::{compose_request, compose_system, endpoint_url, pick_model, GENERATE_ROUTE, TAGS_ROUTE};
use assistant_cli::scan::{CandidateFile, Selection};
use assistant_cli::text::{decimal, join_parts, same_text};

fn cand(index: usize, path: &str, name: &str) -> CandidateFile {
    CandidateFile { index, path: path.to_string(), name: name.to_string(), size: 10 }
}

#[test]
fn decimal_digits() {
    assert_eq!(decimal(0), "0");
    assert_eq!(decimal(7), "7");
    assert_eq!(decimal(50), "50");
    assert_eq!(decimal(10240), "10240");
    assert_eq!(decimal(usize::MAX), usize::MAX.to_string());
}

#[test]
fn join_and_compare() {
    assert_eq!(join_parts(&vec![]), "");
    assert_eq!(join_parts(&vec!["a".to_string()]), "a");
    assert_eq!(join_parts(&vec!["a".to_string(), "b".to_string(), "c.rs".to_string()]), "a/b/c.rs");
    assert!(same_text("abc", "abc"));
    assert!(!same_text("abc", "abd"));
    assert!(!same_text("ab", "abc"));
}

#[test]
fn important_names() {
    for n in ["README.md", "Cargo.toml", "package.json", "pyproject.toml", "go.mod"] {
        assert!(is_important_name(n));
    }
    assert!(!is_important_name("readme.md"));
    assert!(!is_important_name("main.rs"));
}

#[test]
fn section_and_note_text() {
    assert_eq!(important_section("a/README.md", "hi"), "\n#### a/README.md:\n```\nhi\n```\n");
    assert_eq!(omitted_note(50, 120), "\n(Showing 50 of 120 total files)\n");
    assert_eq!(omitted_note(3, 3), "");
}

#[test]
fn disabled_packet_is_empty() {
    let sel = Selection { files: vec![cand(0, "README.md", "README.md")], total: 1 };
    let contents = vec![Some("text".to_string())];
    assert_eq!(build_packet(false, "/no/such/dir", &sel, &contents, 10240), "");
}

#[test]
fn packet_lists_and_inlines() {
    let sel = Selection {
        files: vec![cand(0, "README.md", "README.md"), cand(1, "src/main.rs", "main.rs"), cand(2, "web/package.json", "package.json")],
        total: 5,
    };
    let contents = vec![Some("  # Title\n\n".to_string()), Some("fn main() {}".to_string()), None];
    let p = build_packet(true, "/home/u/proj", &sel, &contents, 10240);
    let expected = "\n## Current Directory Context:\n\nWorking directory: /home/u/proj\n\n### Project Structure (relevant files):\n- README.md\n- src/main.rs\n- web/package.json\n\n### Important File Contents:\n\n#### README.md:\n```\n# Title\n```\n\n(Showing 3 of 5 total files)\n";
    assert_eq!(p, expected);
}

#[test]
fn packet_skips_oversized_contents() {
    let sel = Selection { files: vec![cand(0, "go.mod", "go.mod")], total: 1 };
    let contents = vec![Some("module x".to_string())];
    let p = build_packet(true, "/r", &sel, &contents, 4);
    assert_eq!(
        p,
        "\n## Current Directory Context:\n\nWorking directory: /r\n\n### Project Structure (relevant files):\n- go.mod\n\n### Important File Contents:\n"
    );
}

#[test]
fn composed_system_splits_back() {
    let instruction = "Be concise.";
    let sel = Selection { files: vec![cand(0, "a.rs", "a.rs")], total: 1 };
    let packet = build_packet(true, "/r", &sel, &vec![None], 10240);
    let req = compose_request("llama3.2".to_string(), "Hello".to_string(), instruction, &packet, true);
    assert_eq!(req.model, "llama3.2");
    assert_eq!(req.prompt, "Hello");
    assert!(req.stream);
    let system = req.system.unwrap();
    let (head, tail) = system.split_once('\n').unwrap();
    assert_eq!(head, instruction);
    assert_eq!(tail, packet);
}

#[test]
fn empty_packet_still_separated() {
    assert_eq!(compose_system("Be helpful", ""), "Be helpful\n");
    assert_eq!(compose_system("Be helpful", "ctx"), "Be helpful\nctx");
    let req = compose_request("m".to_string(), "p".to_string(), "Be helpful", "", false);
    let system = req.system.unwrap();
    assert_eq!(system.split_once('\n'), Some(("Be helpful", "")));
}

#[test]
fn model_and_url() {
    assert_eq!(pick_model(Some("mistral".to_string()), "llama3.2"), "mistral");
    assert_eq!(pick_model(None, "llama3.2"), "llama3.2");
    assert_eq!(endpoint_url("http://localhost:11434", "/api/generate"), "http://localhost:11434/api/generate");
}

#[test]
fn service_routes() {
    assert_eq!(endpoint_url("http://h:1", GENERATE_ROUTE), "http://h:1/api/generate");
    assert_eq!(endpoint_url("http://h:1", TAGS_ROUTE), "http://h:1/api/tags");
}
